use fractal_codec::block_extractor::BlockExtractor;

fn raster(width: usize, height: usize) -> Vec<u32> {
    (0..width * height).map(|i| i as u32).collect()
}

#[test]
fn extractor_range_blocks_8x8_block4() {
    let image = raster(8, 8);
    let ex = BlockExtractor::new(image.clone(), 8, 8, 4, 4);
    let blocks = ex.extract_range_blocks();
    assert_eq!(blocks.len(), 4);
    // corners in row-major scan order: (0,0), (4,0), (0,4), (4,4)
    let corners = [(0usize, 0usize), (4, 0), (0, 4), (4, 4)];
    for (k, &(x, y)) in corners.iter().enumerate() {
        assert_eq!(blocks[k].len(), 16);
        for dy in 0..4 {
            for dx in 0..4 {
                assert_eq!(
                    blocks[k][dy * 4 + dx],
                    image[(y + dy) * 8 + (x + dx)],
                    "block {} sample ({}, {})",
                    k,
                    dx,
                    dy
                );
            }
        }
    }
}

#[test]
fn extractor_trailing_strip_is_dropped() {
    // 10x6 with 4x4 blocks: only a 2-wide strip is left over on the right
    // and nothing below, so the grid is 2 columns by 1 row
    let ex = BlockExtractor::new(raster(10, 6), 10, 6, 4, 4);
    let blocks = ex.extract_range_blocks();
    assert_eq!(blocks.len(), 2);
}

#[test]
fn extractor_domain_blocks_overlap() {
    let image = raster(8, 8);
    let ex = BlockExtractor::new(image.clone(), 8, 8, 4, 2);
    let blocks = ex.extract_domain_blocks();
    // (8-4)/2+1 = 3 per side
    assert_eq!(blocks.len(), 9);
    // block 1 starts at (2, 0)
    for dy in 0..4 {
        for dx in 0..4 {
            assert_eq!(blocks[1][dy * 4 + dx], image[dy * 8 + (2 + dx)]);
        }
    }
}

#[test]
fn extractor_single_block_is_whole_raster() {
    let image = raster(4, 4);
    let ex = BlockExtractor::new(image.clone(), 4, 4, 4, 4);
    let blocks = ex.extract_range_blocks();
    assert_eq!(blocks.len(), 1);
    assert_eq!(blocks[0], image);
}
