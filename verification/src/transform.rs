//! The eight symmetries of a square block: the D4 group.
//!
//! Ids follow the encoded format: 0 identity, 1 rotate 90 degrees, 2 rotate
//! 180 degrees, 3 rotate 270 degrees, 4 flip horizontal, 5 flip vertical,
//! 6 transpose, 7 anti-transpose. Applying a symmetry permutes the samples of
//! a block exactly; no sample value is changed.

use vstd::prelude::*;
use vstd::arithmetic::div_mod::lemma_fundamental_div_mod;
use vstd::arithmetic::div_mod::lemma_multiply_divide_lt;
use crate::raster::lemma_grid_index;

verus! {

/// For symmetry `id` and the output position at column `u`, row `v` of a
/// `w * w` block, the row-major index of the input sample that lands there.
pub open spec fn d4_source_index(w: int, id: u8, u: int, v: int) -> int {
    if id == 0 {
        v * w + u
    } else if id == 1 {
        (w - 1 - u) * w + v
    } else if id == 2 {
        (w - 1 - v) * w + (w - 1 - u)
    } else if id == 3 {
        u * w + (w - 1 - v)
    } else if id == 4 {
        v * w + (w - 1 - u)
    } else if id == 5 {
        (w - 1 - v) * w + u
    } else if id == 6 {
        u * w + v
    } else {
        (w - 1 - u) * w + (w - 1 - v)
    }
}

/// The block under symmetry `id`, in row-major order.
pub open spec fn spec_apply_d4(block: Seq<u32>, w: int, id: u8) -> Seq<u32> {
    Seq::new((w * w) as nat, |k: int| block[d4_source_index(w, id, k % w, k / w)])
}

/// The id that undoes symmetry `id`: the two quarter turns undo one another,
/// every other symmetry is its own inverse.
pub open spec fn d4_inverse(id: u8) -> u8 {
    if id == 1 {
        3
    } else if id == 3 {
        1
    } else {
        id
    }
}

/// Computes the row-major index of the input sample that symmetry
/// `transform_id` sends to the output position at column `u`, row `v`.
fn d4_source(width: usize, transform_id: u8, u: usize, v: usize) -> (src: usize)
    requires
        transform_id < 8,
        u < width,
        v < width,
        width * width <= usize::MAX,
    ensures
        src == d4_source_index(width as int, transform_id, u as int, v as int),
        src < width * width,
{
    if transform_id == 0 {
        proof { lemma_grid_index(width as int, width as int, u as int, v as int); }
        v * width + u
    } else if transform_id == 1 {
        proof { lemma_grid_index(width as int, width as int, v as int, (width - 1 - u) as int); }
        (width - 1 - u) * width + v
    } else if transform_id == 2 {
        proof {
            lemma_grid_index(width as int, width as int, (width - 1 - u) as int, (width - 1 - v) as int);
        }
        (width - 1 - v) * width + (width - 1 - u)
    } else if transform_id == 3 {
        proof { lemma_grid_index(width as int, width as int, (width - 1 - v) as int, u as int); }
        u * width + (width - 1 - v)
    } else if transform_id == 4 {
        proof { lemma_grid_index(width as int, width as int, (width - 1 - u) as int, v as int); }
        v * width + (width - 1 - u)
    } else if transform_id == 5 {
        proof { lemma_grid_index(width as int, width as int, u as int, (width - 1 - v) as int); }
        (width - 1 - v) * width + u
    } else if transform_id == 6 {
        proof { lemma_grid_index(width as int, width as int, v as int, u as int); }
        u * width + v
    } else {
        proof {
            lemma_grid_index(width as int, width as int, (width - 1 - v) as int, (width - 1 - u) as int);
        }
        (width - 1 - u) * width + (width - 1 - v)
    }
}

/// Returns a fresh copy of the `width * width` block under symmetry
/// `transform_id`: an exact coordinate permutation of the samples.
///
/// An id outside the eight symmetries is a contract violation; callers must
/// reject such an id before calling.
pub fn apply_d4_transform(block: &Vec<u32>, width: usize, transform_id: u8) -> (r: Vec<u32>)
    requires
        block@.len() == width * width,
        transform_id < 8,
    ensures
        r@.len() == width * width,
        r@ == spec_apply_d4(block@, width as int, transform_id),
{
    let ghost target = spec_apply_d4(block@, width as int, transform_id);
    let _n: usize = block.len();
    assert(width * width <= usize::MAX);
    let mut r: Vec<u32> = Vec::new();
    for v in 0..width
        invariant
            block@.len() == width * width,
            width * width <= usize::MAX,
            transform_id < 8,
            r@.len() == v * width,
            target == spec_apply_d4(block@, width as int, transform_id),
            forall|k: int| 0 <= k < r@.len() ==> r@[k] == target[k],
    {
        for u in 0..width
            invariant
                block@.len() == width * width,
                width * width <= usize::MAX,
                transform_id < 8,
                v < width,
                r@.len() == v * width + u,
                target == spec_apply_d4(block@, width as int, transform_id),
                forall|k: int| 0 <= k < r@.len() ==> r@[k] == target[k],
        {
            proof {
                lemma_grid_index(width as int, width as int, u as int, v as int);
            }
            let src = d4_source(width, transform_id, u, v);
            r.push(block[src]);
        }
        proof {
            assert((v + 1) * width == v * width + width) by (nonlinear_arith);
        }
    }
    proof {
        assert(r@ =~= target);
    }
    r
}

/// Symmetry 0 is the identity: it leaves every sample where it is.
pub proof fn lemma_d4_identity(block: Seq<u32>, w: int)
    requires
        0 <= w,
        block.len() == w * w,
    ensures
        spec_apply_d4(block, w, 0) == block,
{
    assert forall|k: int| 0 <= k < w * w implies spec_apply_d4(block, w, 0)[k] == block[k] by {
        assert(1 <= w) by (nonlinear_arith)
            requires
                0 <= w,
                0 <= k < w * w,
        ;
        lemma_fundamental_div_mod(k, w);
    }
    assert(spec_apply_d4(block, w, 0) =~= block);
}

/// Every symmetry is undone by its `d4_inverse`: applying a transform and
/// then its inverse reproduces the original block exactly.
pub proof fn lemma_d4_inverse(block: Seq<u32>, w: int, id: u8)
    requires
        0 <= w,
        block.len() == w * w,
        id < 8,
    ensures
        spec_apply_d4(spec_apply_d4(block, w, id), w, d4_inverse(id)) == block,
{
    let a = spec_apply_d4(block, w, id);
    let r = spec_apply_d4(a, w, d4_inverse(id));
    assert forall|k: int| 0 <= k < w * w implies r[k] == block[k] by {
        assert(1 <= w) by (nonlinear_arith)
            requires
                0 <= w,
                0 <= k < w * w,
        ;
        lemma_fundamental_div_mod(k, w);
        lemma_multiply_divide_lt(k, w, w);
        let u = k % w;
        let v = k / w;
        if id == 0 {
            lemma_grid_index(w, w, u, v);
        } else if id == 1 {
            lemma_grid_index(w, w, w - 1 - v, u);
        } else if id == 2 {
            lemma_grid_index(w, w, w - 1 - u, w - 1 - v);
        } else if id == 3 {
            lemma_grid_index(w, w, v, w - 1 - u);
        } else if id == 4 {
            lemma_grid_index(w, w, w - 1 - u, v);
        } else if id == 5 {
            lemma_grid_index(w, w, u, w - 1 - v);
        } else if id == 6 {
            lemma_grid_index(w, w, v, u);
        } else {
            lemma_grid_index(w, w, w - 1 - v, w - 1 - u);
        }
    }
    assert(r =~= block);
}

} // verus!
