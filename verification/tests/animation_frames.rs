use zap_engine::components::animation::{advance_frame, is_finished};

#[test]
fn looping_animation_wraps_to_first_frame() {
    assert_eq!(advance_frame(0, 4, true), (1, true));
    assert_eq!(advance_frame(2, 4, true), (3, true));
    assert_eq!(advance_frame(3, 4, true), (0, true));
    let mut frame = 0;
    for _ in 0..4 {
        frame = advance_frame(frame, 4, true).0;
    }
    assert_eq!(frame, 0);
}

#[test]
fn non_looping_animation_holds_last_frame() {
    assert_eq!(advance_frame(0, 3, false), (1, true));
    assert_eq!(advance_frame(1, 3, false), (2, true));
    assert_eq!(advance_frame(2, 3, false), (2, false));
    assert!(is_finished(2, 3, false));
    assert!(!is_finished(1, 3, false));
}

#[test]
fn looping_animation_never_finishes() {
    assert!(!is_finished(3, 4, true));
    assert!(!is_finished(0, 1, true));
}

#[test]
fn single_frame_animation() {
    assert_eq!(advance_frame(0, 1, true), (0, true));
    assert_eq!(advance_frame(0, 1, false), (0, false));
    assert!(is_finished(0, 1, false));
    assert!(is_finished(0, 0, false));
}
