//! Partitioning a raster into range and domain blocks.
//!
//! Range blocks sit on a non-overlapping grid whose step is the block side;
//! together they tile the raster up to the partial trailing strips, which are
//! dropped. Domain blocks use the configured stride as their step, which may
//! be smaller than the block side, so they may overlap. Both scans run in
//! row-major order of the top-left corner, and a block's index in the result
//! is purely positional: the encoded format depends on this order.

use vstd::prelude::*;
use crate::raster::grid_steps;
use crate::raster::lemma_grid_index;
use crate::raster::lemma_grid_step_bound;
use crate::raster::spec_extract_window;
use crate::raster::extract_window;

verus! {

/// A raster together with the block geometry of one encode pass. Samples are
/// opaque 32-bit words; extraction only copies them.
pub struct BlockExtractor {
    pub image: Vec<u32>,
    pub width: usize,
    pub height: usize,
    pub block_size: usize,
    pub stride: usize,
}

impl BlockExtractor {
    /// The geometry under which a scan is meaningful: the raster is complete
    /// and at least one whole block fits.
    pub open spec fn wf(self) -> bool {
        &&& self.image@.len() == self.width * self.height
        &&& 1 <= self.block_size
        &&& self.block_size <= self.width
        &&& self.block_size <= self.height
    }

    pub fn new(
        image: Vec<u32>,
        width: usize,
        height: usize,
        block_size: usize,
        stride: usize,
    ) -> (r: Self)
        ensures
            r.image@ == image@,
            r.width == width,
            r.height == height,
            r.block_size == block_size,
            r.stride == stride,
    {
        Self { image, width, height, block_size, stride }
    }

    /// Scans the raster in row-major order with the given step and copies
    /// every whole block out. Block `k` of the result is the window whose
    /// top-left corner is `((k % cols) * stride, (k / cols) * stride)`.
    pub fn extract_blocks(&self, stride: usize) -> (blocks: Vec<Vec<u32>>)
        requires
            self.wf(),
            1 <= stride,
        ensures
            blocks@.len() == grid_steps(self.height as int, self.block_size as int, stride as int)
                * grid_steps(self.width as int, self.block_size as int, stride as int),
            forall|k: int|
                0 <= k < blocks@.len() ==> #[trigger] blocks@[k]@ == spec_extract_window(
                    self.image@,
                    self.width as int,
                    (k % grid_steps(self.width as int, self.block_size as int, stride as int))
                        * stride,
                    (k / grid_steps(self.width as int, self.block_size as int, stride as int))
                        * stride,
                    self.block_size as int,
                ),
    {
        let b = self.block_size;
        let rows = (self.height - b) / stride + 1;
        let cols = (self.width - b) / stride + 1;
        let mut blocks: Vec<Vec<u32>> = Vec::new();
        proof {
            assert(0 * (cols as int) == 0) by (nonlinear_arith);
        }
        for i in 0..rows
            invariant
                self.wf(),
                1 <= stride,
                b == self.block_size,
                rows == grid_steps(self.height as int, b as int, stride as int),
                cols == grid_steps(self.width as int, b as int, stride as int),
                blocks@.len() == i * cols,
                forall|k: int|
                    0 <= k < blocks@.len() ==> #[trigger] blocks@[k]@ == spec_extract_window(
                        self.image@,
                        self.width as int,
                        (k % cols as int) * stride,
                        (k / cols as int) * stride,
                        b as int,
                    ),
        {
            for j in 0..cols
                invariant
                    self.wf(),
                    1 <= stride,
                    b == self.block_size,
                    i < rows,
                    rows == grid_steps(self.height as int, b as int, stride as int),
                    cols == grid_steps(self.width as int, b as int, stride as int),
                    blocks@.len() == i * cols + j,
                    forall|k: int|
                        0 <= k < blocks@.len() ==> #[trigger] blocks@[k]@ == spec_extract_window(
                            self.image@,
                            self.width as int,
                            (k % cols as int) * stride,
                            (k / cols as int) * stride,
                            b as int,
                        ),
            {
                proof {
                    lemma_grid_step_bound(self.height as int, b as int, stride as int, i as int);
                    lemma_grid_step_bound(self.width as int, b as int, stride as int, j as int);
                    lemma_grid_index(cols as int, rows as int, j as int, i as int);
                }
                let y = i * stride;
                let x = j * stride;
                let block = extract_window(&self.image, self.width, self.height, x, y, b);
                blocks.push(block);
            }
            proof {
                assert((i + 1) * cols == i * cols + cols) by (nonlinear_arith);
            }
        }
        proof {
            assert(blocks@.len() == rows * cols);
        }
        blocks
    }

    /// Range blocks do not overlap: the scan step is the block side itself.
    pub fn extract_range_blocks(&self) -> (blocks: Vec<Vec<u32>>)
        requires
            self.wf(),
        ensures
            blocks@.len() == grid_steps(self.height as int, self.block_size as int, self.block_size as int)
                * grid_steps(self.width as int, self.block_size as int, self.block_size as int),
            forall|k: int|
                0 <= k < blocks@.len() ==> #[trigger] blocks@[k]@ == spec_extract_window(
                    self.image@,
                    self.width as int,
                    (k % grid_steps(self.width as int, self.block_size as int, self.block_size as int))
                        * self.block_size,
                    (k / grid_steps(self.width as int, self.block_size as int, self.block_size as int))
                        * self.block_size,
                    self.block_size as int,
                ),
    {
        self.extract_blocks(self.block_size)
    }

    /// Domain blocks step by the configured stride and may overlap.
    pub fn extract_domain_blocks(&self) -> (blocks: Vec<Vec<u32>>)
        requires
            self.wf(),
            1 <= self.stride,
        ensures
            blocks@.len() == grid_steps(self.height as int, self.block_size as int, self.stride as int)
                * grid_steps(self.width as int, self.block_size as int, self.stride as int),
            forall|k: int|
                0 <= k < blocks@.len() ==> #[trigger] blocks@[k]@ == spec_extract_window(
                    self.image@,
                    self.width as int,
                    (k % grid_steps(self.width as int, self.block_size as int, self.stride as int))
                        * self.stride,
                    (k / grid_steps(self.width as int, self.block_size as int, self.stride as int))
                        * self.stride,
                    self.block_size as int,
                ),
    {
        self.extract_blocks(self.stride)
    }
}

} // verus!
