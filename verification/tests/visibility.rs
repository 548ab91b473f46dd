use zap_engine::systems::visibility::{VisibilityInterpolation, VisibilityMask};

#[test]
fn new_mask_is_fully_visible() {
    let mask = VisibilityMask::new(4, 4);
    assert_eq!(mask.get(0, 0), 255);
    assert_eq!(mask.get(3, 3), 255);
}

#[test]
fn set_and_get() {
    let mut mask = VisibilityMask::new(4, 4);
    mask.set(1, 2, 128);
    assert_eq!(mask.get(1, 2), 128);
    assert_eq!(mask.get(0, 0), 255);
}

#[test]
fn out_of_bounds_returns_zero() {
    let mask = VisibilityMask::new(4, 4);
    assert_eq!(mask.get(4, 0), 0);
    assert_eq!(mask.get(0, 4), 0);
    assert_eq!(mask.get(100, 100), 0);
}

#[test]
fn clear_sets_all_hidden() {
    let mut mask = VisibilityMask::new(4, 4);
    mask.clear();
    for y in 0..4 {
        for x in 0..4 {
            assert_eq!(mask.get(x, y), 0);
        }
    }
}

#[test]
fn fill_rect() {
    let mut mask = VisibilityMask::new(8, 8);
    mask.clear();
    mask.set_rect(2, 2, 3, 3, 200);
    assert_eq!(mask.get(2, 2), 200);
    assert_eq!(mask.get(4, 4), 200);
    assert_eq!(mask.get(1, 1), 0);
    assert_eq!(mask.get(5, 5), 0);
}

#[test]
fn as_bytes_length() {
    let mask = VisibilityMask::new(16, 16);
    assert_eq!(mask.as_bytes().len(), 256);
    assert_eq!(mask.byte_count(), 256);
}

#[test]
fn interpolation_default_is_nearest() {
    let mask = VisibilityMask::new(4, 4);
    assert_eq!(mask.interpolation, VisibilityInterpolation::Nearest);
}

#[test]
fn set_outside_is_ignored() {
    let mut mask = VisibilityMask::new(3, 2);
    mask.set(3, 0, 7);
    mask.set(0, 2, 7);
    assert!(mask.as_bytes().iter().all(|&b| b == 255));
}

#[test]
fn set_rect_clips_at_edges() {
    let mut mask = VisibilityMask::new(4, 3);
    mask.clear();
    mask.set_rect(2, 1, 10, 10, 9);
    let expected: Vec<u8> = vec![0, 0, 0, 0, 0, 0, 9, 9, 0, 0, 9, 9];
    assert_eq!(mask.as_bytes(), expected.as_slice());
    mask.set_rect(5, 0, 2, 2, 1);
    assert_eq!(mask.as_bytes(), expected.as_slice());
}

#[test]
fn row_major_layout_and_reveal() {
    let mut mask = VisibilityMask::with_interpolation(3, 2, VisibilityInterpolation::Linear);
    assert_eq!(mask.cols(), 3);
    assert_eq!(mask.rows(), 2);
    mask.fill(10);
    mask.set(2, 1, 77);
    assert_eq!(mask.as_bytes()[5], 77);
    mask.reveal_all();
    assert_eq!(mask.get(2, 1), 255);
    assert_eq!(mask.interpolation, VisibilityInterpolation::Linear);
}

#[test]
fn shape_kept_through_operations() {
    let mut m = VisibilityMask::new(16, 16);
    assert_eq!(m.as_bytes().len(), 256);
    assert_eq!(m.byte_count(), 256);
    m.set(3, 3, 7);
    m.set(99, 3, 7);
    m.fill(9);
    m.set_rect(10, 10, 20, 20, 1);
    m.clear();
    m.reveal_all();
    assert_eq!(m.byte_count(), 256);
    assert_eq!(m.as_bytes().len(), 256);
    assert_eq!((m.cols(), m.rows()), (16, 16));
}
