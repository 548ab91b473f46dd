use zap_engine::api::types::EntityId;
use zap_engine::scene::SceneIndex;

#[test]
fn spawn_then_get_finds_position() {
    let mut idx = SceneIndex::new();
    idx.spawn(EntityId(10));
    idx.spawn(EntityId(20));
    assert_eq!(idx.len(), 2);
    assert_eq!(idx.get(EntityId(10)), Some(0));
    assert_eq!(idx.get(EntityId(20)), Some(1));
    assert!(idx.contains(EntityId(20)));
    assert!(!idx.contains(EntityId(30)));
}

#[test]
fn despawn_swaps_last_into_place() {
    let mut idx = SceneIndex::with_capacity(8);
    idx.spawn(EntityId(1));
    idx.spawn(EntityId(2));
    idx.spawn(EntityId(3));
    assert_eq!(idx.despawn(EntityId(1)), Some(0));
    assert_eq!(idx.len(), 2);
    assert_eq!(idx.id_at(0), EntityId(3));
    assert_eq!(idx.get(EntityId(3)), Some(0));
    assert_eq!(idx.get(EntityId(2)), Some(1));
    assert_eq!(idx.get(EntityId(1)), None);
    assert_eq!(idx.despawn(EntityId(1)), None);
}

#[test]
fn despawn_undoes_spawn() {
    let mut idx = SceneIndex::new();
    idx.spawn(EntityId(5));
    idx.spawn(EntityId(6));
    assert_eq!(idx.despawn(EntityId(6)), Some(1));
    assert_eq!(idx.len(), 1);
    assert_eq!(idx.get(EntityId(5)), Some(0));
}

#[test]
fn retain_keeps_order_and_reindexes() {
    let mut idx = SceneIndex::new();
    for i in 1..=5 {
        idx.spawn(EntityId(i));
    }
    idx.retain(&vec![true, false, true, false, true]);
    assert_eq!(idx.len(), 3);
    assert_eq!(idx.id_at(0), EntityId(1));
    assert_eq!(idx.id_at(1), EntityId(3));
    assert_eq!(idx.id_at(2), EntityId(5));
    assert_eq!(idx.get(EntityId(5)), Some(2));
    assert_eq!(idx.get(EntityId(2)), None);
}

#[test]
fn clear_empties_index() {
    let mut idx = SceneIndex::new();
    idx.spawn(EntityId(1));
    idx.clear();
    assert!(idx.is_empty());
    assert_eq!(idx.get(EntityId(1)), None);
}
