//! Row-major rasters and rectangular windows into them.
//!
//! A raster is a `width * height` sequence of 32-bit sample words in row-major
//! order. A window is a `size * size` square at a given top-left corner.
//! Extraction always copies; writing a window leaves every sample outside the
//! window untouched.

use vstd::prelude::*;
use vstd::arithmetic::div_mod::lemma_fundamental_div_mod_converse;
use vstd::arithmetic::mul::lemma_mul_inequality;

verus! {

/// The sample of row `v`, column `u` sits at index `v * width + u`; that index
/// determines the row and column uniquely and stays inside a raster of
/// `height` rows.
pub proof fn lemma_grid_index(width: int, height: int, u: int, v: int)
    requires
        0 <= u < width,
        0 <= v < height,
    ensures
        0 <= v * width + u < width * height,
        (v * width + u) % width == u,
        (v * width + u) / width == v,
{
    assert(0 <= v * width + u < width * height) by (nonlinear_arith)
        requires
            0 <= u < width,
            0 <= v < height,
    ;
    lemma_fundamental_div_mod_converse(v * width + u, width, v, u);
}

/// How many blocks of side `block_size` a scan with the given step places
/// along an extent: one at offset 0, then one every `step`, as long as a
/// whole block still fits; a partial trailing strip is dropped, not padded.
pub open spec fn grid_steps(extent: int, block_size: int, step: int) -> int {
    (extent - block_size) / step + 1
}

/// Every grid offset keeps a whole block inside the extent: the `i`th block
/// of the scan starts at `i * step` and ends by `extent`.
pub proof fn lemma_grid_step_bound(extent: int, block_size: int, step: int, i: int)
    requires
        1 <= step,
        block_size <= extent,
        0 <= i < grid_steps(extent, block_size, step),
    ensures
        i * step <= extent - block_size,
{
    lemma_mul_inequality(i, (extent - block_size) / step, step);
    vstd::arithmetic::div_mod::lemma_fundamental_div_mod(extent - block_size, step);
    vstd::arithmetic::mul::lemma_mul_is_commutative(step, (extent - block_size) / step);
}

/// The copy of the `size * size` window of `data` whose top-left corner is
/// `(x, y)`, itself in row-major order.
pub open spec fn spec_extract_window(
    data: Seq<u32>,
    width: int,
    x: int,
    y: int,
    size: int,
) -> Seq<u32> {
    Seq::new((size * size) as nat, |k: int| data[(y + k / size) * width + (x + k % size)])
}

/// Whether raster index `idx` falls inside the window at `(x, y)`.
pub open spec fn window_covers(width: int, x: int, y: int, size: int, idx: int) -> bool {
    &&& x <= idx % width < x + size
    &&& y <= idx / width < y + size
}

/// `data` with the window at `(x, y)` replaced by `samples` and every other
/// sample unchanged.
pub open spec fn spec_write_window(
    data: Seq<u32>,
    width: int,
    x: int,
    y: int,
    size: int,
    samples: Seq<u32>,
) -> Seq<u32> {
    Seq::new(
        data.len(),
        |idx: int|
            if window_covers(width, x, y, size, idx) {
                samples[(idx / width - y) * size + (idx % width - x)]
            } else {
                data[idx]
            },
    )
}

/// Copies the `size * size` window of `data` whose top-left corner is
/// `(x, y)` into a fresh block, in row-major order.
pub fn extract_window(
    data: &Vec<u32>,
    width: usize,
    height: usize,
    x: usize,
    y: usize,
    size: usize,
) -> (r: Vec<u32>)
    requires
        data@.len() == width * height,
        x + size <= width,
        y + size <= height,
        1 <= size,
    ensures
        r@.len() == size * size,
        r@ == spec_extract_window(data@, width as int, x as int, y as int, size as int),
{
    let ghost target = spec_extract_window(data@, width as int, x as int, y as int, size as int);
    let _n: usize = data.len();
    assert(width * height <= usize::MAX);
    let mut r: Vec<u32> = Vec::new();
    for dy in 0..size
        invariant
            data@.len() == width * height,
            width * height <= usize::MAX,
            x + size <= width,
            y + size <= height,
            1 <= size,
            r@.len() == dy * size,
            target == spec_extract_window(data@, width as int, x as int, y as int, size as int),
            forall|k: int| 0 <= k < r@.len() ==> r@[k] == target[k],
    {
        for dx in 0..size
            invariant
                data@.len() == width * height,
                width * height <= usize::MAX,
                x + size <= width,
                y + size <= height,
                1 <= size,
                dy < size,
                r@.len() == dy * size + dx,
                target == spec_extract_window(data@, width as int, x as int, y as int, size as int),
                forall|k: int| 0 <= k < r@.len() ==> r@[k] == target[k],
        {
            proof {
                lemma_grid_index(size as int, size as int, dx as int, dy as int);
                lemma_grid_index(width as int, height as int, (x + dx) as int, (y + dy) as int);
            }
            let idx = (y + dy) * width + (x + dx);
            r.push(data[idx]);
        }
        proof {
            assert((dy + 1) * size == dy * size + size) by (nonlinear_arith);
        }
    }
    proof {
        assert(r@ =~= target);
    }
    r
}

/// Writes `samples` over the `size * size` window of `data` whose top-left
/// corner is `(x, y)`; every sample outside the window keeps its value.
pub fn write_window(
    data: &mut Vec<u32>,
    width: usize,
    height: usize,
    x: usize,
    y: usize,
    size: usize,
    samples: &Vec<u32>,
)
    requires
        old(data)@.len() == width * height,
        x + size <= width,
        y + size <= height,
        1 <= size,
        samples@.len() == size * size,
    ensures
        final(data)@ == spec_write_window(
            old(data)@,
            width as int,
            x as int,
            y as int,
            size as int,
            samples@,
        ),
{
    let ghost orig = data@;
    let ghost target = spec_write_window(orig, width as int, x as int, y as int, size as int, samples@);
    let _n: usize = data.len();
    let _m: usize = samples.len();
    assert(width * height <= usize::MAX);
    assert(size * size <= usize::MAX);
    for dy in 0..size
        invariant
            orig.len() == width * height,
            width * height <= usize::MAX,
            size * size <= usize::MAX,
            x + size <= width,
            y + size <= height,
            1 <= size,
            samples@.len() == size * size,
            data@.len() == orig.len(),
            target == spec_write_window(orig, width as int, x as int, y as int, size as int, samples@),
            forall|idx: int|
                0 <= idx < data@.len() ==> data@[idx] == (
                    if window_covers(width as int, x as int, y as int, size as int, idx)
                        && idx / (width as int) < y + dy {
                        target[idx]
                    } else {
                        orig[idx]
                    }
                ),
    {
        for dx in 0..size
            invariant
                orig.len() == width * height,
                width * height <= usize::MAX,
                size * size <= usize::MAX,
                x + size <= width,
                y + size <= height,
                1 <= size,
                dy < size,
                samples@.len() == size * size,
                data@.len() == orig.len(),
                target == spec_write_window(orig, width as int, x as int, y as int, size as int, samples@),
                forall|idx: int|
                    0 <= idx < data@.len() ==> data@[idx] == (
                        if window_covers(width as int, x as int, y as int, size as int, idx)
                            && (idx / (width as int) < y + dy
                                || (idx / (width as int) == y + dy && idx % (width as int) < x + dx)) {
                            target[idx]
                        } else {
                            orig[idx]
                        }
                    ),
        {
            proof {
                lemma_grid_index(size as int, size as int, dx as int, dy as int);
                lemma_grid_index(width as int, height as int, (x + dx) as int, (y + dy) as int);
            }
            let idx = (y + dy) * width + (x + dx);
            let v = samples[dy * size + dx];
            let ghost before = data@;
            data[idx] = v;
            proof {
                let w = width as int;
                assert(data@ == before.update(idx as int, v));
                assert(idx % width == x + dx && idx / width == y + dy);
                assert(window_covers(w, x as int, y as int, size as int, idx as int));
                assert(target[idx as int] == samples@[((idx as int / w) - y) * size + ((idx as int % w) - x)]);
                assert(((y + dy) - y) * (size as int) + ((x + dx) - x) == dy * size + dx);
                assert(target[idx as int] == v);
                assert forall|idx2: int|
                    0 <= idx2 < data@.len() implies data@[idx2] == (
                        if window_covers(w, x as int, y as int, size as int, idx2)
                            && (idx2 / w < y + dy
                                || (idx2 / w == y + dy && idx2 % w < x + dx + 1)) {
                            target[idx2]
                        } else {
                            orig[idx2]
                        }
                    ) by {
                    vstd::arithmetic::div_mod::lemma_fundamental_div_mod(idx2, w);
                    vstd::arithmetic::mul::lemma_mul_is_commutative(w, idx2 / w);
                    if idx2 / w == y + dy && idx2 % w == x + dx {
                        assert((idx2 / w) * w == ((y + dy) as int) * w);
                        assert(idx2 == idx as int);
                    }
                }
            }
        }
    }
    proof {
        assert(data@ =~= target);
    }
}

} // verus!
