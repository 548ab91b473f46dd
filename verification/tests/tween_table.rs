use zap_engine::api::types::EntityId;
use zap_engine::extensions::tween::{complete, TweenCompletion, TweenId, TweenLoop, TweenTable};

#[test]
fn handles_count_up_from_zero() {
    let mut t: TweenTable<&str> = TweenTable::new();
    assert_eq!(t.add(EntityId(1), "a"), TweenId(0));
    assert_eq!(t.add(EntityId(2), "b"), TweenId(1));
    assert_eq!(t.add(EntityId(1), "c"), TweenId(2));
    assert_eq!(t.len(), 3);
    assert_eq!(t.position(TweenId(1)), Some(1));
    assert_eq!(t.key_at(2), (TweenId(2), EntityId(1)));
    assert_eq!(*t.tween_at(0), "a");
}

#[test]
fn remove_by_handle() {
    let mut t: TweenTable<u32> = TweenTable::new();
    let a = t.add(EntityId(1), 10);
    let b = t.add(EntityId(1), 20);
    assert!(t.remove(a));
    assert!(!t.remove(a));
    assert_eq!(t.position(a), None);
    assert_eq!(t.position(b), Some(0));
    assert!(!t.remove(TweenId(99)));
    assert_eq!(t.len(), 1);
}

#[test]
fn remove_entity_tweens() {
    let mut t: TweenTable<u32> = TweenTable::new();
    t.add(EntityId(1), 10);
    t.add(EntityId(2), 20);
    t.add(EntityId(1), 30);
    assert_eq!(t.len(), 3);
    t.remove_entity(EntityId(1));
    assert_eq!(t.len(), 1);
    assert_eq!(t.key_at(0), (TweenId(1), EntityId(2)));
    t.remove_entity(EntityId(2));
    assert!(t.is_empty());
}

#[test]
fn handles_are_not_reused_after_clear() {
    let mut t: TweenTable<u32> = TweenTable::default();
    t.add(EntityId(1), 1);
    t.push_completed(5);
    t.clear();
    assert!(t.is_empty());
    assert!(t.drain_completed().is_empty());
    assert_eq!(t.add(EntityId(1), 1), TweenId(1));
}

#[test]
fn tween_values_change_in_place() {
    let mut t: TweenTable<u32> = TweenTable::new();
    t.add(EntityId(4), 1);
    *t.tween_at_mut(0) += 41;
    assert_eq!(*t.tween_at(0), 42);
}

#[test]
fn completion_by_loop_mode() {
    assert_eq!(complete(TweenLoop::Once, true, Some(7)), TweenCompletion::Finish { event: Some(7) });
    assert_eq!(complete(TweenLoop::Once, false, None), TweenCompletion::Finish { event: None });
    assert_eq!(complete(TweenLoop::Loop, true, Some(7)), TweenCompletion::Restart { forward: true });
    assert_eq!(complete(TweenLoop::PingPong, true, None), TweenCompletion::Restart { forward: false });
    assert_eq!(complete(TweenLoop::PingPong, false, None), TweenCompletion::Restart { forward: true });
}

#[test]
fn completed_events_drain_in_order() {
    let mut t: TweenTable<u32> = TweenTable::new();
    t.push_completed(3);
    t.push_completed(1);
    assert_eq!(t.drain_completed(), vec![3, 1]);
    assert!(t.drain_completed().is_empty());
}

#[test]
fn retire_finished_removes_finished_and_records_events() {
    let mut t: TweenTable<u32> = TweenTable::new();
    t.add(EntityId(1), 10);
    t.add(EntityId(2), 20);
    t.add(EntityId(3), 30);
    t.add(EntityId(4), 40);
    assert_eq!(t.handle_counter(), 4);
    let outcomes = vec![
        Some(TweenCompletion::Finish { event: Some(5) }),
        None,
        Some(TweenCompletion::Restart { forward: false }),
        Some(TweenCompletion::Finish { event: None }),
    ];
    assert_eq!(t.retire_finished(&outcomes), 2);
    assert_eq!(t.len(), 2);
    assert_eq!(t.key_at(0), (TweenId(1), EntityId(2)));
    assert_eq!(t.key_at(1), (TweenId(2), EntityId(3)));
    assert_eq!(t.drain_completed(), vec![5]);
    assert_eq!(t.handle_counter(), 4);
}
