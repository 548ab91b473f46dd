use zap_engine::api::types::EntityId;
use zap_engine::extensions::transform::Hierarchy;

#[test]
fn parent_child_relationship() {
    let mut graph = Hierarchy::new();
    let parent = EntityId(1);
    let child = EntityId(2);

    graph.register(parent);
    graph.register(child);
    graph.set_parent(child, Some(parent));

    assert_eq!(graph.get_parent(child), Some(parent));
    assert_eq!(graph.get_children(parent), Some([child].as_slice()));
}

#[test]
fn remove_orphans_children() {
    let mut graph = Hierarchy::new();
    let parent = EntityId(1);
    let child = EntityId(2);

    graph.register(parent);
    graph.register(child);
    graph.set_parent(child, Some(parent));

    graph.remove(parent);

    assert_eq!(graph.get_parent(child), None);
    assert!(graph.root_ids().contains(&child));
}

#[test]
fn reparenting_moves_child_between_lists() {
    let mut graph = Hierarchy::new();
    let (a, b, c) = (EntityId(1), EntityId(2), EntityId(3));
    graph.set_parent(c, Some(a));
    assert_eq!(graph.len(), 2);
    // Nodes created by `set_parent` are not registered as roots.
    assert!(graph.root_ids().is_empty());
    graph.set_parent(c, Some(b));
    assert_eq!(graph.get_children(a), Some(&[][..]));
    assert_eq!(graph.get_children(b), Some(&[c][..]));
    graph.set_parent(c, None);
    assert_eq!(graph.get_parent(c), None);
    assert_eq!(graph.root_ids(), &[c][..]);
    assert_eq!(graph.len(), 3);
    assert!(graph.is_dirty());
    graph.mark_clean();
    assert!(!graph.is_dirty());
}

#[test]
fn remove_unknown_only_marks_dirty() {
    let mut graph = Hierarchy::new();
    assert!(graph.is_empty());
    graph.remove(EntityId(9));
    assert!(graph.is_dirty());
    assert!(graph.get_children(EntityId(9)).is_none());
    graph.register(EntityId(9));
    graph.clear();
    assert!(graph.is_empty());
    assert!(!graph.contains(EntityId(9)));
}
