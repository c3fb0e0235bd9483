//! The binary codec for an encoded image.
//!
//! The layout is little-endian and fixed: a 10-byte header — width (16-bit),
//! height (16-bit), block size (8-bit), domain stride (8-bit), block count
//! (32-bit) — followed by one 16-byte record per range block: the packed
//! metadata word, a reserved word, and the bit patterns of the two affine
//! coefficients. The total length must equal exactly 10 + 16 * blockCount;
//! any deviation is a fatal format error, as is a record whose transform id
//! is outside the eight symmetries.

use vstd::prelude::*;
use vstd::arithmetic::div_mod::lemma_fundamental_div_mod;
use vstd::arithmetic::div_mod::lemma_fundamental_div_mod_converse;
use crate::encode::EncodedBlock;

verus! {

/// The header fields of an encoded image. The block count is not kept here:
/// it is always the number of records.
#[derive(Clone, Copy, PartialEq, Eq, Structural, Debug)]
pub struct FicHeader {
    pub width: u16,
    pub height: u16,
    pub block_size: u8,
    pub domain_stride: u8,
}

/// A decoded mapping set: the header and one record per range block, in
/// range block scan order.
pub struct FicImage {
    pub header: FicHeader,
    pub blocks: Vec<EncodedBlock>,
}

/// The ways a byte stream can fail to be an encoded image. All are fatal:
/// there is no partial decode.
#[derive(Clone, Copy, PartialEq, Eq, Structural, Debug)]
pub enum FormatError {
    /// Shorter than the 10-byte header.
    TooShort,
    /// The total length does not equal 10 + 16 * blockCount.
    SizeMismatch,
    /// A record's transform id is outside the eight symmetries.
    InvalidTransformId,
}

pub open spec fn u16_le_bytes(x: u16) -> Seq<u8> {
    seq![(x & 0xFF) as u8, ((x >> 8) & 0xFF) as u8]
}

pub open spec fn u32_le_bytes(x: u32) -> Seq<u8> {
    seq![
        (x & 0xFF) as u8,
        ((x >> 8) & 0xFF) as u8,
        ((x >> 16) & 0xFF) as u8,
        ((x >> 24) & 0xFF) as u8,
    ]
}

pub open spec fn u16_from_le(b0: u8, b1: u8) -> u16 {
    (b0 as u16) | ((b1 as u16) << 8)
}

pub open spec fn u32_from_le(b0: u8, b1: u8, b2: u8, b3: u8) -> u32 {
    (b0 as u32) | ((b1 as u32) << 8) | ((b2 as u32) << 16) | ((b3 as u32) << 24)
}

/// The 16 bytes of one record.
pub open spec fn record_bytes(b: EncodedBlock) -> Seq<u8> {
    u32_le_bytes(b.meta) + u32_le_bytes(b.unused) + u32_le_bytes(b.alpha_bits) + u32_le_bytes(
        b.beta_bits,
    )
}

/// The records of a mapping sequence, concatenated in order.
pub open spec fn records_bytes(blocks: Seq<EncodedBlock>) -> Seq<u8>
    decreases blocks.len(),
{
    if blocks.len() == 0 {
        Seq::empty()
    } else {
        record_bytes(blocks[0]) + records_bytes(blocks.drop_first())
    }
}

/// The complete encoding of a mapping set.
pub open spec fn fic_bytes(h: FicHeader, blocks: Seq<EncodedBlock>) -> Seq<u8> {
    u16_le_bytes(h.width) + u16_le_bytes(h.height) + seq![h.block_size, h.domain_stride]
        + u32_le_bytes(blocks.len() as u32) + records_bytes(blocks)
}

/// The declared block count of a stream that holds at least a header.
pub open spec fn spec_count(bytes: Seq<u8>) -> u32 {
    u32_from_le(bytes[6], bytes[7], bytes[8], bytes[9])
}

/// The header fields of a stream that holds at least a header.
pub open spec fn spec_header(bytes: Seq<u8>) -> FicHeader {
    FicHeader {
        width: u16_from_le(bytes[0], bytes[1]),
        height: u16_from_le(bytes[2], bytes[3]),
        block_size: bytes[4],
        domain_stride: bytes[5],
    }
}

/// Record `i` of a stream, read from its fixed offset.
pub open spec fn spec_record_at(bytes: Seq<u8>, i: int) -> EncodedBlock {
    EncodedBlock {
        meta: u32_from_le(
            bytes[10 + 16 * i],
            bytes[11 + 16 * i],
            bytes[12 + 16 * i],
            bytes[13 + 16 * i],
        ),
        unused: u32_from_le(
            bytes[14 + 16 * i],
            bytes[15 + 16 * i],
            bytes[16 + 16 * i],
            bytes[17 + 16 * i],
        ),
        alpha_bits: u32_from_le(
            bytes[18 + 16 * i],
            bytes[19 + 16 * i],
            bytes[20 + 16 * i],
            bytes[21 + 16 * i],
        ),
        beta_bits: u32_from_le(
            bytes[22 + 16 * i],
            bytes[23 + 16 * i],
            bytes[24 + 16 * i],
            bytes[25 + 16 * i],
        ),
    }
}

fn push_u16_le(r: &mut Vec<u8>, x: u16)
    ensures
        final(r)@ == old(r)@ + u16_le_bytes(x),
{
    proof {
        let v: u16 = x;
        assert(v & 0xFF <= 0xFF && (v >> 8) & 0xFF <= 0xFF) by (bit_vector);
    }
    r.push((x & 0xFF) as u8);
    r.push(((x >> 8) & 0xFF) as u8);
    proof {
        assert(r@ =~= old(r)@ + u16_le_bytes(x));
    }
}

fn push_u32_le(r: &mut Vec<u8>, x: u32)
    ensures
        final(r)@ == old(r)@ + u32_le_bytes(x),
{
    proof {
        let v: u32 = x;
        assert(v & 0xFF <= 0xFF && (v >> 8) & 0xFF <= 0xFF && (v >> 16) & 0xFF <= 0xFF && (v >> 24)
            & 0xFF <= 0xFF) by (bit_vector);
    }
    r.push((x & 0xFF) as u8);
    r.push(((x >> 8) & 0xFF) as u8);
    r.push(((x >> 16) & 0xFF) as u8);
    r.push(((x >> 24) & 0xFF) as u8);
    proof {
        assert(r@ =~= old(r)@ + u32_le_bytes(x));
    }
}

fn u16_from_le_exec(b0: u8, b1: u8) -> (r: u16)
    ensures
        r == u16_from_le(b0, b1),
{
    (b0 as u16) | ((b1 as u16) << 8)
}

fn u32_from_le_exec(b0: u8, b1: u8, b2: u8, b3: u8) -> (r: u32)
    ensures
        r == u32_from_le(b0, b1, b2, b3),
{
    (b0 as u32) | ((b1 as u32) << 8) | ((b2 as u32) << 16) | ((b3 as u32) << 24)
}

/// Appending one record to a sequence appends its 16 bytes to the encoding.
proof fn lemma_records_bytes_push(s: Seq<EncodedBlock>, x: EncodedBlock)
    ensures
        records_bytes(s.push(x)) == records_bytes(s) + record_bytes(x),
    decreases s.len(),
{
    if s.len() == 0 {
        assert(s.push(x).drop_first() =~= s);
        assert(records_bytes(s.push(x)) =~= records_bytes(s) + record_bytes(x));
    } else {
        lemma_records_bytes_push(s.drop_first(), x);
        assert(s.push(x).drop_first() =~= s.drop_first().push(x));
        assert(s.push(x)[0] == s[0]);
        assert(records_bytes(s.push(x)) =~= records_bytes(s) + record_bytes(x));
    }
}

proof fn lemma_records_bytes_len(s: Seq<EncodedBlock>)
    ensures
        records_bytes(s).len() == 16 * s.len(),
    decreases s.len(),
{
    if s.len() > 0 {
        lemma_records_bytes_len(s.drop_first());
    }
}

/// Byte `j` of record `i` sits at offset `16 * i + j` of the concatenated
/// records.
proof fn lemma_records_bytes_index(s: Seq<EncodedBlock>, i: int, j: int)
    requires
        0 <= i < s.len(),
        0 <= j < 16,
    ensures
        records_bytes(s)[16 * i + j] == record_bytes(s[i])[j],
    decreases i,
{
    if i == 0 {
        assert(records_bytes(s)[j] == record_bytes(s[0])[j]);
    } else {
        lemma_records_bytes_index(s.drop_first(), i - 1, j);
        lemma_records_bytes_len(s.drop_first());
        assert(record_bytes(s[0]).len() == 16);
        assert(16 * i + j - 16 == 16 * (i - 1) + j);
        assert(records_bytes(s)[16 * i + j] == records_bytes(s.drop_first())[16 * (i - 1) + j]);
    }
}

proof fn lemma_u16_le_round_trip(x: u16)
    ensures
        u16_from_le(u16_le_bytes(x)[0], u16_le_bytes(x)[1]) == x,
{
    assert((((x & 0xFF) as u8) as u16) | (((((x >> 8) & 0xFF) as u8) as u16) << 8) == x)
        by (bit_vector);
}

proof fn lemma_u32_le_round_trip(x: u32)
    ensures
        u32_from_le(u32_le_bytes(x)[0], u32_le_bytes(x)[1], u32_le_bytes(x)[2], u32_le_bytes(x)[3])
            == x,
{
    assert((((x & 0xFF) as u8) as u32) | (((((x >> 8) & 0xFF) as u8) as u32) << 8) | (((((x >> 16)
        & 0xFF) as u8) as u32) << 16) | (((((x >> 24) & 0xFF) as u8) as u32) << 24) == x)
        by (bit_vector);
}

/// Serializes a mapping set to the fixed layout. Pure layout work: no
/// computation beyond moving the fields into place.
pub fn encode(header: &FicHeader, blocks: &Vec<EncodedBlock>) -> (r: Vec<u8>)
    requires
        blocks@.len() <= u32::MAX,
    ensures
        r@ == fic_bytes(*header, blocks@),
        r@.len() == 10 + 16 * blocks@.len(),
{
    let ghost target = fic_bytes(*header, blocks@);
    let mut r: Vec<u8> = Vec::new();
    push_u16_le(&mut r, header.width);
    push_u16_le(&mut r, header.height);
    r.push(header.block_size);
    r.push(header.domain_stride);
    push_u32_le(&mut r, blocks.len() as u32);
    let ghost prefix = r@;
    proof {
        assert(prefix =~= u16_le_bytes(header.width) + u16_le_bytes(header.height)
            + seq![header.block_size, header.domain_stride] + u32_le_bytes(blocks@.len() as u32));
    }
    for i in 0..blocks.len()
        invariant
            blocks@.len() <= u32::MAX,
            prefix.len() == 10,
            target == fic_bytes(*header, blocks@),
            target == prefix + records_bytes(blocks@),
            r@ == prefix + records_bytes(blocks@.take(i as int)),
    {
        let b = blocks[i];
        push_u32_le(&mut r, b.meta);
        push_u32_le(&mut r, b.unused);
        push_u32_le(&mut r, b.alpha_bits);
        push_u32_le(&mut r, b.beta_bits);
        proof {
            lemma_records_bytes_push(blocks@.take(i as int), blocks@[i as int]);
            assert(blocks@.take(i as int).push(blocks@[i as int]) =~= blocks@.take(i + 1));
            assert(record_bytes(blocks@[i as int]) =~= u32_le_bytes(b.meta) + u32_le_bytes(b.unused)
                + u32_le_bytes(b.alpha_bits) + u32_le_bytes(b.beta_bits));
            assert(r@ =~= prefix + records_bytes(blocks@.take(i + 1)));
        }
    }
    proof {
        assert(blocks@.take(blocks@.len() as int) =~= blocks@);
        lemma_records_bytes_len(blocks@);
        assert(r@ == target);
    }
    r
}

/// Parses a byte stream as an encoded image, validating it completely: the
/// stream must hold a whole header, its total length must equal exactly
/// `10 + 16 * blockCount`, and every record's transform id must name one of
/// the eight symmetries. On success every header field and record is read
/// back bit for bit; on failure nothing is decoded.
pub fn decode(bytes: &Vec<u8>) -> (r: Result<FicImage, FormatError>)
    ensures
        match r {
            Ok(img) => {
                &&& bytes@.len() >= 10
                &&& bytes@.len() == 10 + 16 * (spec_count(bytes@) as int)
                &&& img.header == spec_header(bytes@)
                &&& img.blocks@.len() == spec_count(bytes@) as int
                &&& forall|i: int|
                    0 <= i < img.blocks@.len() ==> img.blocks@[i] == #[trigger] spec_record_at(
                        bytes@,
                        i,
                    )
                &&& forall|i: int|
                    0 <= i < img.blocks@.len() ==> (#[trigger] spec_record_at(
                        bytes@,
                        i,
                    )).spec_transform_id() < 8
            },
            Err(FormatError::TooShort) => bytes@.len() < 10,
            Err(FormatError::SizeMismatch) => bytes@.len() >= 10 && bytes@.len() != 10 + 16 * (
            spec_count(bytes@) as int),
            Err(FormatError::InvalidTransformId) => {
                &&& bytes@.len() == 10 + 16 * (spec_count(bytes@) as int)
                &&& exists|i: int|
                    0 <= i < spec_count(bytes@) && (#[trigger] spec_record_at(
                        bytes@,
                        i,
                    )).spec_transform_id() >= 8
            },
        },
{
    let n = bytes.len();
    if n < 10 {
        return Err(FormatError::TooShort);
    }
    let width = u16_from_le_exec(bytes[0], bytes[1]);
    let height = u16_from_le_exec(bytes[2], bytes[3]);
    let block_size = bytes[4];
    let domain_stride = bytes[5];
    let count = u32_from_le_exec(bytes[6], bytes[7], bytes[8], bytes[9]);
    let data_len = n - 10;
    if data_len % 16 != 0 || data_len / 16 != count as usize {
        proof {
            lemma_fundamental_div_mod(data_len as int, 16);
            if n == 10 + 16 * (spec_count(bytes@) as int) {
                lemma_fundamental_div_mod_converse(
                    data_len as int,
                    16,
                    spec_count(bytes@) as int,
                    0,
                );
            }
        }
        return Err(FormatError::SizeMismatch);
    }
    proof {
        lemma_fundamental_div_mod(data_len as int, 16);
    }
    let count_us = count as usize;
    let mut blocks: Vec<EncodedBlock> = Vec::new();
    for i in 0..count_us
        invariant
            n == bytes@.len(),
            n == 10 + 16 * count_us,
            count_us == spec_count(bytes@) as int,
            blocks@.len() == i,
            forall|k: int|
                0 <= k < i ==> blocks@[k] == #[trigger] spec_record_at(bytes@, k),
            forall|k: int|
                0 <= k < i ==> (#[trigger] spec_record_at(bytes@, k)).spec_transform_id() < 8,
    {
        let off = 10 + 16 * i;
        let meta = u32_from_le_exec(bytes[off], bytes[off + 1], bytes[off + 2], bytes[off + 3]);
        let unused = u32_from_le_exec(
            bytes[off + 4],
            bytes[off + 5],
            bytes[off + 6],
            bytes[off + 7],
        );
        let alpha_bits = u32_from_le_exec(
            bytes[off + 8],
            bytes[off + 9],
            bytes[off + 10],
            bytes[off + 11],
        );
        let beta_bits = u32_from_le_exec(
            bytes[off + 12],
            bytes[off + 13],
            bytes[off + 14],
            bytes[off + 15],
        );
        let blk = EncodedBlock { meta, unused, alpha_bits, beta_bits };
        assert(blk == spec_record_at(bytes@, i as int));
        if blk.transform_id() >= 8 {
            return Err(FormatError::InvalidTransformId);
        }
        blocks.push(blk);
    }
    Ok(
        FicImage {
            header: FicHeader { width, height, block_size, domain_stride },
            blocks,
        },
    )
}

/// Decoding reads back exactly what encoding wrote: the encoded bytes of a
/// mapping set have the declared length, and carry the header fields and
/// every record bit for bit. Together with the contract of `decode`, a
/// mapping set whose transform ids are all valid round-trips unchanged.
pub proof fn lemma_codec_round_trip(h: FicHeader, blocks: Seq<EncodedBlock>)
    requires
        blocks.len() <= u32::MAX,
    ensures
        fic_bytes(h, blocks).len() == 10 + 16 * blocks.len(),
        spec_count(fic_bytes(h, blocks)) == blocks.len(),
        spec_header(fic_bytes(h, blocks)) == h,
        forall|i: int|
            0 <= i < blocks.len() ==> #[trigger] spec_record_at(fic_bytes(h, blocks), i)
                == blocks[i],
{
    let bytes = fic_bytes(h, blocks);
    lemma_records_bytes_len(blocks);
    assert(bytes.len() == 10 + 16 * blocks.len());
    lemma_u16_le_round_trip(h.width);
    lemma_u16_le_round_trip(h.height);
    lemma_u32_le_round_trip(blocks.len() as u32);
    assert(spec_header(bytes) == h);
    assert(spec_count(bytes) == blocks.len() as u32);
    assert(blocks.len() as u32 as int == blocks.len()) by {
        assert(blocks.len() <= u32::MAX);
    }
    assert forall|i: int| 0 <= i < blocks.len() implies #[trigger] spec_record_at(bytes, i)
        == blocks[i] by {
        let b = blocks[i];
        assert forall|j: int| 0 <= j < 16 implies bytes[10 + 16 * i + j] == record_bytes(b)[j] by {
            lemma_records_bytes_index(blocks, i, j);
        }
        assert(bytes[10 + 16 * i] == record_bytes(b)[0]);
        assert(bytes[11 + 16 * i] == record_bytes(b)[1]);
        assert(bytes[12 + 16 * i] == record_bytes(b)[2]);
        assert(bytes[13 + 16 * i] == record_bytes(b)[3]);
        assert(bytes[14 + 16 * i] == record_bytes(b)[4]);
        assert(bytes[15 + 16 * i] == record_bytes(b)[5]);
        assert(bytes[16 + 16 * i] == record_bytes(b)[6]);
        assert(bytes[17 + 16 * i] == record_bytes(b)[7]);
        assert(bytes[18 + 16 * i] == record_bytes(b)[8]);
        assert(bytes[19 + 16 * i] == record_bytes(b)[9]);
        assert(bytes[20 + 16 * i] == record_bytes(b)[10]);
        assert(bytes[21 + 16 * i] == record_bytes(b)[11]);
        assert(bytes[22 + 16 * i] == record_bytes(b)[12]);
        assert(bytes[23 + 16 * i] == record_bytes(b)[13]);
        assert(bytes[24 + 16 * i] == record_bytes(b)[14]);
        assert(bytes[25 + 16 * i] == record_bytes(b)[15]);
        lemma_u32_le_round_trip(b.meta);
        lemma_u32_le_round_trip(b.unused);
        lemma_u32_le_round_trip(b.alpha_bits);
        lemma_u32_le_round_trip(b.beta_bits);
    }
}

} // verus!
