use zap_engine::systems::effects::rng::Rng;
use zap_engine::systems::effects::segment_color::SegmentColor;

#[test]
fn rng_deterministic() {
    let mut rng1 = Rng::new(42);
    let mut rng2 = Rng::new(42);
    for _ in 0..10 {
        assert_eq!(rng1.next_int(1000), rng2.next_int(1000));
    }
}

#[test]
fn rng_zero_seed_handled() {
    let mut rng = Rng::new(0);
    // Should not panic or loop forever
    let _ = rng.next_int(100);
}

#[test]
fn rng_xorshift_values() {
    let mut rng = Rng::new(42);
    assert_eq!(rng.next_int(1000), 674);
    assert_eq!(rng.next_int(1000), 471);
    let mut zero = Rng::new(0);
    let mut one = Rng::new(1);
    assert_eq!(zero.next_int(100), 61);
    assert_eq!(one.next_int(100), 61);
}

#[test]
fn rng_clone_continues_same_sequence() {
    let mut rng = Rng::new(7);
    let _ = rng.next_int(5);
    let mut copy = rng.clone();
    for _ in 0..5 {
        assert_eq!(rng.next_int(97), copy.next_int(97));
    }
}

#[test]
fn segment_color_all_has_13_colors() {
    assert_eq!(SegmentColor::ALL.len(), 13);
}

#[test]
fn segment_color_random_is_valid() {
    let mut rng = Rng::new(42);
    for _ in 0..100 {
        let color = SegmentColor::random(&mut rng);
        assert!(SegmentColor::ALL.contains(&color));
    }
}

#[test]
fn segment_color_random_first_draw() {
    // xorshift64(42) % 13 == 5
    let mut rng = Rng::new(42);
    assert_eq!(SegmentColor::random(&mut rng), SegmentColor::GreenCyan);
}

#[test]
fn segment_color_wire_numbers_and_cells() {
    for (i, c) in SegmentColor::ALL.iter().enumerate() {
        assert_eq!(c.as_u8() as usize, i);
    }
    assert_eq!(SegmentColor::Red.atlas_cell(), (0, 5));
    assert_eq!(SegmentColor::SkyBlue.atlas_cell(), (3, 4));
    assert_eq!(SegmentColor::White.atlas_cell(), (3, 2));
}
