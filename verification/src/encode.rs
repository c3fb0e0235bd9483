//! The encoded mapping record and the packed metadata word.
//!
//! One record stands for one range block: a domain block index and a symmetry
//! id packed into a 32-bit word, a reserved word, and the bit patterns of the
//! contrast (alpha) and brightness (beta) coefficients. The bit ranges of the
//! packed word are a format invariant: bits [0,16) hold the domain index,
//! bits [16,24) the transform id, bits [24,32) are reserved and zero.

use vstd::prelude::*;

verus! {

/// One affine block mapping, as it is stored in an encoded image.
///
/// `alpha_bits` and `beta_bits` hold the little-endian bit patterns of the
/// two single-precision coefficients; this crate never interprets them as
/// numbers, it only carries and stores them.
#[derive(Clone, Copy, PartialEq, Eq, Structural, Debug)]
pub struct EncodedBlock {
    pub meta: u32,
    pub unused: u32,
    pub alpha_bits: u32,
    pub beta_bits: u32,
}

impl EncodedBlock {
    /// The domain block index packed into bits [0,16) of `meta`.
    pub open spec fn spec_domain_index(self) -> u32 {
        self.meta & 0xFFFF
    }

    /// The transform id packed into bits [16,24) of `meta`.
    pub open spec fn spec_transform_id(self) -> u32 {
        (self.meta >> 16) & 0xFF
    }

    pub fn domain_index(&self) -> (r: usize)
        ensures
            r == self.spec_domain_index(),
    {
        proof {
            let m: u32 = self.meta;
            assert(m & 0xFFFF <= 0xFFFF) by (bit_vector);
        }
        (self.meta & 0xFFFF) as usize
    }

    pub fn transform_id(&self) -> (r: u8)
        ensures
            r == self.spec_transform_id(),
    {
        proof {
            let m: u32 = self.meta;
            assert((m >> 16) & 0xFF <= 0xFF) by (bit_vector);
        }
        ((self.meta >> 16) & 0xFF) as u8
    }
}

/// The bit pattern of the largest finite single-precision value. The fit
/// errors the search compares are non-negative, and for non-negative
/// IEEE-754 values the unsigned order of the bit patterns is exactly the
/// order of the values; the running minimum starts at the largest finite
/// value and a candidate must beat it strictly.
pub const ERR_INIT_BITS: u32 = 0x7F7FFFFF;

/// One candidate of the exhaustive search for a single range block: the
/// packed metadata of one (domain block, transform) pair, the bit patterns
/// of its fitted coefficients, and the bit pattern of its fit error.
///
/// Candidates are laid out in scan order: domain index ascending, and for
/// each domain the eight transform ids ascending.
#[derive(Clone, Copy, PartialEq, Eq, Structural, Debug)]
pub struct Candidate {
    pub meta: u32,
    pub alpha_bits: u32,
    pub beta_bits: u32,
    pub err_bits: u32,
}

/// The record a winning candidate yields; the reserved word is zero.
pub open spec fn block_of_candidate(c: Candidate) -> EncodedBlock {
    EncodedBlock { meta: c.meta, unused: 0, alpha_bits: c.alpha_bits, beta_bits: c.beta_bits }
}

/// The record the search emits when no candidate beats the initial bound.
pub open spec fn empty_search_block() -> EncodedBlock {
    EncodedBlock { meta: 0, unused: 0, alpha_bits: 0, beta_bits: 0 }
}

/// Candidate `i` wins: its error beats the initial bound, no candidate's
/// error is smaller, and every earlier candidate's error is strictly larger
/// — a tie goes to the first occurrence.
pub open spec fn is_first_min(cands: Seq<Candidate>, i: int) -> bool {
    &&& 0 <= i < cands.len()
    &&& cands[i].err_bits < ERR_INIT_BITS
    &&& forall|j: int| 0 <= j < cands.len() ==> cands[i].err_bits <= #[trigger] cands[j].err_bits
    &&& forall|j: int| 0 <= j < i ==> cands[i].err_bits < #[trigger] cands[j].err_bits
}

/// What the search returns for this candidate list: the first strict
/// minimum where one exists, the all-zero record otherwise.
pub open spec fn is_search_result(cands: Seq<Candidate>, r: EncodedBlock) -> bool {
    if exists|i: int| 0 <= i < cands.len() && #[trigger] cands[i].err_bits < ERR_INIT_BITS {
        exists|i: int| #[trigger] is_first_min(cands, i) && r == block_of_candidate(cands[i])
    } else {
        r == empty_search_block()
    }
}

/// Runs the deterministic minimization over one range block's candidates:
/// keeps the strictly smallest error seen so far in scan order, so equal
/// errors resolve to the earliest (domain index, transform id) pair.
pub fn select_best(cands: &Vec<Candidate>) -> (r: EncodedBlock)
    ensures
        is_search_result(cands@, r),
{
    let mut best = EncodedBlock { meta: 0, unused: 0, alpha_bits: 0, beta_bits: 0 };
    let mut best_err: u32 = ERR_INIT_BITS;
    for idx in 0..cands.len()
        invariant
            best_err <= ERR_INIT_BITS,
            forall|j: int| 0 <= j < idx ==> best_err <= #[trigger] cands@[j].err_bits,
            best_err == ERR_INIT_BITS ==> best == empty_search_block(),
            best_err < ERR_INIT_BITS ==> exists|i: int|
                0 <= i < idx && best == block_of_candidate(#[trigger] cands@[i])
                    && best_err == cands@[i].err_bits
                    && (forall|j: int| 0 <= j < i ==> best_err < #[trigger] cands@[j].err_bits),
    {
        let c = cands[idx];
        if c.err_bits < best_err {
            best = EncodedBlock {
                meta: c.meta,
                unused: 0,
                alpha_bits: c.alpha_bits,
                beta_bits: c.beta_bits,
            };
            best_err = c.err_bits;
        }
    }
    proof {
        if best_err < ERR_INIT_BITS {
            let i = choose|i: int|
                0 <= i < cands@.len() && best == block_of_candidate(#[trigger] cands@[i])
                    && best_err == cands@[i].err_bits
                    && (forall|j: int| 0 <= j < i ==> best_err < #[trigger] cands@[j].err_bits);
            assert(is_first_min(cands@, i));
        }
    }
    best
}

/// The winner of a candidate list is unique: two indices that both satisfy
/// `is_first_min` are the same index.
pub proof fn lemma_first_min_unique(cands: Seq<Candidate>, i: int, j: int)
    requires
        is_first_min(cands, i),
        is_first_min(cands, j),
    ensures
        i == j,
{
    if i < j {
        assert(cands[i].err_bits <= cands[j].err_bits);
        assert(cands[j].err_bits < cands[i].err_bits);
    }
    if j < i {
        assert(cands[j].err_bits <= cands[i].err_bits);
        assert(cands[i].err_bits < cands[j].err_bits);
    }
}

/// The search is deterministic: the contract admits exactly one record for
/// a given candidate list, so two runs over identical inputs return
/// identical records.
pub proof fn lemma_search_deterministic(cands: Seq<Candidate>, r1: EncodedBlock, r2: EncodedBlock)
    requires
        is_search_result(cands, r1),
        is_search_result(cands, r2),
    ensures
        r1 == r2,
{
    if exists|i: int| 0 <= i < cands.len() && #[trigger] cands[i].err_bits < ERR_INIT_BITS {
        let i1 = choose|i: int| #[trigger] is_first_min(cands, i) && r1 == block_of_candidate(cands[i]);
        let i2 = choose|i: int| #[trigger] is_first_min(cands, i) && r2 == block_of_candidate(cands[i]);
        lemma_first_min_unique(cands, i1, i2);
    }
}

/// The geometry a caller hands to an accelerator-backed search. For
/// identical inputs the accelerator must select the same (domain index,
/// transform id) pairs as the sequential search.
pub struct EncodeParams {
    pub image_width: u32,
    pub image_height: u32,
    pub range_size: u32,
    pub domain_size: u32,
    pub stride: u32,
}

/// Packs a domain block index and a transform id into one metadata word,
/// preserving the exact bit ranges of the format.
pub fn pack_meta(domain_index: usize, transform_id: u8) -> (r: u32)
    requires
        domain_index <= 0xFFFF,
        transform_id < 8,
    ensures
        r & 0xFFFF == domain_index,
        (r >> 16) & 0xFF == transform_id,
        r >> 24 == 0,
{
    let d = domain_index as u32;
    let t = transform_id as u32;
    let r = (t << 16) | (d & 0xFFFF);
    proof {
        assert(d <= 0xFFFF && t < 8 ==> ((t << 16) | (d & 0xFFFF)) & 0xFFFF == d
            && (((t << 16) | (d & 0xFFFF)) >> 16) & 0xFF == t
            && ((t << 16) | (d & 0xFFFF)) >> 24 == 0) by (bit_vector);
    }
    r
}

} // verus!
