//! Geometry of one reconstruction step.
//!
//! Decoding iterates the mapping set over a current raster: for every record,
//! in range block scan order, the destination rectangle is recomputed from
//! the record's position and the source rectangle from its domain index, both
//! through the same stride-derived grid that the encoder scanned. Because
//! domain block indices are purely positional, any change to the stride or
//! the scan order invalidates previously encoded images: this coupling is a
//! format invariant. A rectangle that would leave the raster is skipped for
//! that record in that iteration — a silent truncation, not an error.
//!
//! Every sample a step writes goes to a separate scratch raster which
//! replaces the current raster only after all records are processed, so no
//! record reads a partially updated raster even where domain and range
//! rectangles overlap.

use vstd::prelude::*;
use vstd::arithmetic::div_mod::lemma_fundamental_div_mod;
use vstd::arithmetic::div_mod::lemma_multiply_divide_lt;
use vstd::arithmetic::mul::lemma_mul_inequality;
use vstd::arithmetic::mul::lemma_mul_is_commutative;
use vstd::arithmetic::mul::lemma_mul_nonnegative;
use crate::raster::grid_steps;
use crate::raster::lemma_grid_step_bound;
use crate::raster::spec_extract_window;
use crate::raster::spec_write_window;
use crate::raster::window_covers;
use crate::transform::spec_apply_d4;
use crate::transform::lemma_d4_identity;

verus! {

/// How many blocks the stride-derived grid places along a row.
pub fn blocks_per_row(width: usize, block_size: usize, stride: usize) -> (r: usize)
    requires
        1 <= stride,
        1 <= block_size,
        block_size <= width,
    ensures
        r == grid_steps(width as int, block_size as int, stride as int),
        1 <= r,
{
    (width - block_size) / stride + 1
}

/// Where one record of the mapping set reads and writes: the top-left
/// corners of its source (domain) and destination (range) rectangles.
#[derive(Clone, Copy, PartialEq, Eq, Structural, Debug)]
pub struct BlockPlacement {
    pub dest_x: usize,
    pub dest_y: usize,
    pub src_x: usize,
    pub src_y: usize,
}

/// The destination column of record `index` on the stride-derived grid.
pub open spec fn spec_grid_x(index: int, width: int, block_size: int, stride: int) -> int {
    (index % grid_steps(width, block_size, stride)) * stride
}

/// The destination row of record `index` on the stride-derived grid.
pub open spec fn spec_grid_y(index: int, width: int, block_size: int, stride: int) -> int {
    (index / grid_steps(width, block_size, stride)) * stride
}

/// Recomputes the destination rectangle of record `index` and the source
/// rectangle of its domain block from the grid geometry, and decides the
/// bounds-skip policy: `None` exactly when either rectangle would leave the
/// raster, and that record is silently skipped for this iteration.
pub fn block_placement(
    index: usize,
    domain_index: usize,
    width: usize,
    height: usize,
    block_size: usize,
    stride: usize,
) -> (r: Option<BlockPlacement>)
    requires
        1 <= stride,
        1 <= block_size,
        block_size <= width,
    ensures
        ({
            let bx = spec_grid_x(index as int, width as int, block_size as int, stride as int);
            let by = spec_grid_y(index as int, width as int, block_size as int, stride as int);
            let sx = spec_grid_x(
                domain_index as int,
                width as int,
                block_size as int,
                stride as int,
            );
            let sy = spec_grid_y(
                domain_index as int,
                width as int,
                block_size as int,
                stride as int,
            );
            if bx + block_size <= width && by + block_size <= height && sx + block_size <= width
                && sy + block_size <= height {
                r == Some(
                    BlockPlacement {
                        dest_x: bx as usize,
                        dest_y: by as usize,
                        src_x: sx as usize,
                        src_y: sy as usize,
                    },
                )
            } else {
                r == None::<BlockPlacement>
            }
        }),
{
    let bpr = blocks_per_row(width, block_size, stride);
    let col = index % bpr;
    let row = index / bpr;
    let scol = domain_index % bpr;
    let srow = domain_index / bpr;
    proof {
        lemma_grid_step_bound(width as int, block_size as int, stride as int, col as int);
        lemma_grid_step_bound(width as int, block_size as int, stride as int, scol as int);
        lemma_mul_nonnegative(row as int, stride as int);
        lemma_mul_nonnegative(srow as int, stride as int);
    }
    let bx = col * stride;
    let sx = scol * stride;
    if block_size > height {
        return None;
    }
    let maxrow = (height - block_size) / stride;
    proof {
        vstd::arithmetic::div_mod::lemma_remainder((height - block_size) as int, stride as int);
        assert((maxrow as int + 1) * (stride as int) == maxrow as int * (stride as int)
            + stride as int) by (nonlinear_arith);
        if row as int <= maxrow as int {
            lemma_mul_inequality(row as int, maxrow as int, stride as int);
        } else {
            lemma_mul_inequality(maxrow as int + 1, row as int, stride as int);
        }
        if srow as int <= maxrow as int {
            lemma_mul_inequality(srow as int, maxrow as int, stride as int);
        } else {
            lemma_mul_inequality(maxrow as int + 1, srow as int, stride as int);
        }
    }
    if row > maxrow || srow > maxrow {
        return None;
    }
    let by = row * stride;
    let sy = srow * stride;
    Some(BlockPlacement { dest_x: bx, dest_y: by, src_x: sx, src_y: sy })
}

/// A reconstruction step over a raster that is one single block — the
/// record's domain block is the whole raster, its symmetry is the identity,
/// and its affine map hands every sample back unchanged — writes back
/// exactly the raster it read: the decode iteration is at its fixed point,
/// after one iteration as after any number.
pub proof fn lemma_identity_step(cur: Seq<u32>, scratch: Seq<u32>, size: int)
    requires
        1 <= size,
        cur.len() == size * size,
        scratch.len() == size * size,
    ensures
        spec_write_window(
            scratch,
            size,
            0,
            0,
            size,
            spec_apply_d4(spec_extract_window(cur, size, 0, 0, size), size, 0),
        ) == cur,
{
    let ext = spec_extract_window(cur, size, 0, 0, size);
    assert forall|k: int| 0 <= k < size * size implies ext[k] == cur[k] by {
        lemma_fundamental_div_mod(k, size);
        lemma_mul_is_commutative(size, k / size);
    }
    assert(ext =~= cur);
    lemma_d4_identity(ext, size);
    let out = spec_write_window(scratch, size, 0, 0, size, cur);
    assert forall|idx: int| 0 <= idx < size * size implies out[idx] == cur[idx] by {
        lemma_multiply_divide_lt(idx, size, size);
        assert(window_covers(size, 0, 0, size, idx));
        lemma_fundamental_div_mod(idx, size);
        lemma_mul_is_commutative(size, idx / size);
        assert(out[idx] == cur[(idx / size) * size + idx % size]);
    }
    assert(out =~= cur);
}

} // verus!
