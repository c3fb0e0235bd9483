use fractal_codec::transform::apply_d4_transform;

fn block4() -> Vec<u32> {
    (0u32..16).collect()
}

#[test]
fn transform_identity_is_identity() {
    let b: Vec<u32> = vec![10, 20, 30, 40, 50, 60, 70, 80, 90];
    let r = apply_d4_transform(&b, 3, 0);
    assert_eq!(r, b);
}

#[test]
fn transform_rotate90_2x2() {
    // row-major [a, b, c, d]
    let b: Vec<u32> = vec![1, 2, 3, 4];
    assert_eq!(apply_d4_transform(&b, 2, 1), vec![3, 1, 4, 2]);
}

#[test]
fn transform_rotate180_2x2() {
    let b: Vec<u32> = vec![1, 2, 3, 4];
    assert_eq!(apply_d4_transform(&b, 2, 2), vec![4, 3, 2, 1]);
}

#[test]
fn transform_rotate270_2x2() {
    let b: Vec<u32> = vec![1, 2, 3, 4];
    assert_eq!(apply_d4_transform(&b, 2, 3), vec![2, 4, 1, 3]);
}

#[test]
fn transform_flip_horizontal_2x2() {
    let b: Vec<u32> = vec![1, 2, 3, 4];
    assert_eq!(apply_d4_transform(&b, 2, 4), vec![2, 1, 4, 3]);
}

#[test]
fn transform_flip_vertical_2x2() {
    let b: Vec<u32> = vec![1, 2, 3, 4];
    assert_eq!(apply_d4_transform(&b, 2, 5), vec![3, 4, 1, 2]);
}

#[test]
fn transform_transpose_2x2() {
    let b: Vec<u32> = vec![1, 2, 3, 4];
    assert_eq!(apply_d4_transform(&b, 2, 6), vec![1, 3, 2, 4]);
}

#[test]
fn transform_anti_transpose_2x2() {
    let b: Vec<u32> = vec![1, 2, 3, 4];
    assert_eq!(apply_d4_transform(&b, 2, 7), vec![4, 2, 3, 1]);
}

#[test]
fn transform_every_id_has_exact_inverse() {
    // the two quarter turns undo one another; the rest are involutions
    let inverse: [u8; 8] = [0, 3, 2, 1, 4, 5, 6, 7];
    let b = block4();
    for id in 0u8..8 {
        let forward = apply_d4_transform(&b, 4, id);
        let back = apply_d4_transform(&forward, 4, inverse[id as usize]);
        assert_eq!(back, b, "transform {} not undone by {}", id, inverse[id as usize]);
    }
}

#[test]
fn transform_rotations_compose_to_identity() {
    let b = block4();
    let mut cur = b.clone();
    for _ in 0..4 {
        cur = apply_d4_transform(&cur, 4, 1);
    }
    assert_eq!(cur, b);
}
