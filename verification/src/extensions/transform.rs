//! Transform hierarchy bookkeeping: which entity is whose parent, each
//! entity's children, the top-level entities, and whether the hierarchy
//! changed since the last propagation. Local transforms and the
//! propagation of world positions live with the scene's float data.
use vstd::prelude::*;
use std::collections::HashMap;
use crate::api::types::EntityId;
use crate::id_list::{without, lemma_without, contains_id, remove_id};

verus! {

broadcast use vstd::std_specs::hash::group_hash_axioms;

/// Parent and children of an entity in the hierarchy.
#[derive(Debug, Clone)]
pub struct HierarchyNode {
    pub parent: Option<EntityId>,
    pub children: Vec<EntityId>,
}

/// A node as plain values: (parent, children).
pub type NodeView = (Option<EntityId>, Seq<EntityId>);

pub open spec fn node_view(n: HierarchyNode) -> NodeView {
    (n.parent, n.children@)
}

/// The nodes as plain values, keyed by entity id.
pub open spec fn nodes_model(m: Map<u32, HierarchyNode>) -> Map<u32, NodeView> {
    Map::new(|k: u32| m.contains_key(k), |k: u32| node_view(m[k]))
}

pub open spec fn empty_node() -> NodeView {
    (None, Seq::empty())
}

/// The nodes with `id` present (a fresh node if it was missing).
pub open spec fn ensure_node(m: Map<u32, NodeView>, id: EntityId) -> Map<u32, NodeView> {
    if m.contains_key(id.0) {
        m
    } else {
        m.insert(id.0, empty_node())
    }
}

/// The roots with `id` appended unless already there.
pub open spec fn add_root(r: Seq<EntityId>, id: EntityId) -> Seq<EntityId> {
    if r.contains(id) {
        r
    } else {
        r.push(id)
    }
}

/// The nodes with `child` taken out of `key`'s children (if `key` is present).
pub open spec fn detach_child(m: Map<u32, NodeView>, key: u32, child: EntityId) -> Map<u32, NodeView> {
    if m.contains_key(key) {
        m.insert(key, (m[key].0, without(m[key].1, child)))
    } else {
        m
    }
}

/// Nodes after `set_parent(child, parent)`.
pub open spec fn set_parent_nodes(
    m: Map<u32, NodeView>,
    child: EntityId,
    parent: Option<EntityId>,
) -> Map<u32, NodeView> {
    let m1 = match parent {
        Some(p) => ensure_node(ensure_node(m, child), p),
        None => ensure_node(m, child),
    };
    let m2 = match m1[child.0].0 {
        Some(op) => detach_child(m1, op.0, child),
        None => m1,
    };
    let m3 = m2.insert(child.0, (parent, m2[child.0].1));
    match parent {
        Some(p) => if m3[p.0].1.contains(child) {
            m3
        } else {
            m3.insert(p.0, (m3[p.0].0, m3[p.0].1.push(child)))
        },
        None => m3,
    }
}

/// Roots after `set_parent(child, parent)`.
pub open spec fn set_parent_roots(r: Seq<EntityId>, child: EntityId, parent: Option<EntityId>) -> Seq<
    EntityId,
> {
    match parent {
        Some(_) => without(r, child),
        None => add_root(r, child),
    }
}

/// Nodes and roots after orphaning `ch` in order: each child that still has
/// a node loses its parent, and each child becomes a root.
pub open spec fn orphan_children(m: Map<u32, NodeView>, r: Seq<EntityId>, ch: Seq<EntityId>) -> (
    Map<u32, NodeView>,
    Seq<EntityId>,
)
    decreases ch.len(),
{
    if ch.len() == 0 {
        (m, r)
    } else {
        let prev = orphan_children(m, r, ch.drop_last());
        let c = ch.last();
        let m1 = if prev.0.contains_key(c.0) {
            prev.0.insert(c.0, (None, prev.0[c.0].1))
        } else {
            prev.0
        };
        (m1, add_root(prev.1, c))
    }
}

/// Nodes and roots after `remove(id)`.
pub open spec fn remove_model(m: Map<u32, NodeView>, r: Seq<EntityId>, id: EntityId) -> (
    Map<u32, NodeView>,
    Seq<EntityId>,
) {
    if !m.contains_key(id.0) {
        (m, r)
    } else {
        let node = m[id.0];
        let m1 = m.remove(id.0);
        let m2 = match node.0 {
            Some(p) => detach_child(m1, p.0, id),
            None => m1,
        };
        let after = orphan_children(m2, r, node.1);
        (after.0, without(after.1, id))
    }
}

/// Key of a node's parent (meaningful when it has one).
pub open spec fn parent_key(v: NodeView) -> u32 {
    match v.0 {
        Some(p) => p.0,
        None => 0,
    }
}

/// Key of an optional id (meaningful when it is present).
pub open spec fn opt_key(o: Option<EntityId>) -> u32 {
    match o {
        Some(p) => p.0,
        None => 0,
    }
}

/// Parent/child links agree: a node's parent exists and lists it as a
/// child, and every listed child exists and names the node as its parent.
pub open spec fn links_consistent(m: Map<u32, NodeView>) -> bool {
    &&& forall|k: u32|
        #[trigger] m.contains_key(k) && m[k].0 is Some ==> m.contains_key(parent_key(m[k]))
            && m[parent_key(m[k])].1.contains(EntityId(k))
    &&& forall|k: u32, c: EntityId|
        #[trigger] m.contains_key(k) && #[trigger] m[k].1.contains(c) ==> m.contains_key(c.0) && m[c.0].0
            == Some(EntityId(k))
}

/// What orphaning a list of children does: the domain stays, each listed
/// child that has a node loses its parent, every other node is unchanged,
/// and each listed child ends up among the roots.
pub proof fn lemma_orphan_children(m: Map<u32, NodeView>, r: Seq<EntityId>, ch: Seq<EntityId>)
    ensures
        orphan_children(m, r, ch).0.dom() == m.dom(),
        forall|k: u32|
            #[trigger] orphan_children(m, r, ch).0.contains_key(k) ==> orphan_children(m, r, ch).0[k]
                == if ch.contains(EntityId(k)) {
                (None::<EntityId>, m[k].1)
            } else {
                m[k]
            },
        forall|x: EntityId| #[trigger] ch.contains(x) ==> orphan_children(m, r, ch).1.contains(x),
        forall|x: EntityId| #[trigger] r.contains(x) ==> orphan_children(m, r, ch).1.contains(x),
    decreases ch.len(),
{
    if ch.len() > 0 {
        let rest = ch.drop_last();
        lemma_orphan_children(m, r, rest);
        let prev = orphan_children(m, r, rest);
        let c = ch.last();
        let res = orphan_children(m, r, ch);
        assert(res.0.dom() =~= m.dom());
        assert forall|k: u32| #[trigger] res.0.contains_key(k) implies res.0[k] == if ch.contains(
            EntityId(k),
        ) {
            (None::<EntityId>, m[k].1)
        } else {
            m[k]
        } by {
            if ch.contains(EntityId(k)) && !rest.contains(EntityId(k)) {
                let i = choose|i: int| 0 <= i < ch.len() && ch[i] == EntityId(k);
                if i < ch.len() - 1 {
                    assert(rest[i] == EntityId(k));
                }
            }
            if rest.contains(EntityId(k)) {
                let i = choose|i: int| 0 <= i < rest.len() && rest[i] == EntityId(k);
                assert(ch[i] == EntityId(k));
            }
        }
        assert forall|x: EntityId| #[trigger] ch.contains(x) implies res.1.contains(x) by {
            let i = choose|i: int| 0 <= i < ch.len() && ch[i] == x;
            if i < ch.len() - 1 {
                assert(rest[i] == x);
                assert(rest.contains(x));
                assert(prev.1.contains(x));
                let j = choose|j: int| 0 <= j < prev.1.len() && prev.1[j] == x;
                assert(add_root(prev.1, c)[j] == x);
            } else {
                if !prev.1.contains(c) {
                    assert(add_root(prev.1, c)[prev.1.len() as int] == c);
                }
            }
        }
        assert forall|x: EntityId| #[trigger] r.contains(x) implies res.1.contains(x) by {
            assert(prev.1.contains(x));
            let j = choose|j: int| 0 <= j < prev.1.len() && prev.1[j] == x;
            assert(add_root(prev.1, c)[j] == x);
        }
    }
}

/// Setting a parent links both ways: the child names the parent, the
/// parent lists the child, and the child is no longer a root.
pub proof fn lemma_set_parent_links(
    m: Map<u32, NodeView>,
    r: Seq<EntityId>,
    child: EntityId,
    parent: EntityId,
)
    ensures
        set_parent_nodes(m, child, Some(parent)).contains_key(child.0),
        set_parent_nodes(m, child, Some(parent))[child.0].0 == Some(parent),
        set_parent_nodes(m, child, Some(parent)).contains_key(parent.0),
        set_parent_nodes(m, child, Some(parent))[parent.0].1.contains(child),
        !set_parent_roots(r, child, Some(parent)).contains(child),
{
    lemma_without(r, child);
    let m1 = ensure_node(ensure_node(m, child), parent);
    let m2 = match m1[child.0].0 {
        Some(op) => detach_child(m1, op.0, child),
        None => m1,
    };
    let m3 = m2.insert(child.0, (Some(parent), m2[child.0].1));
    if !m3[parent.0].1.contains(child) {
        let s = m3[parent.0].1.push(child);
        assert(s[s.len() - 1] == child);
    }
}

/// Setting no parent makes the child a root with no parent.
pub proof fn lemma_unparent_makes_root(m: Map<u32, NodeView>, r: Seq<EntityId>, child: EntityId)
    ensures
        set_parent_nodes(m, child, None)[child.0].0 == None::<EntityId>,
        set_parent_roots(r, child, None).contains(child),
{
    if !r.contains(child) {
        assert(r.push(child)[r.len() as int] == child);
    }
}

/// Removing an entity orphans its children: each of them that remains has
/// no parent and is a root, and the entity itself is gone.
pub proof fn lemma_remove_orphans(m: Map<u32, NodeView>, r: Seq<EntityId>, id: EntityId, x: EntityId)
    requires
        m.contains_key(id.0),
        m[id.0].1.contains(x),
        x != id,
    ensures
        !remove_model(m, r, id).0.contains_key(id.0),
        !remove_model(m, r, id).1.contains(id),
        remove_model(m, r, id).0.contains_key(x.0) ==> remove_model(m, r, id).0[x.0].0
            == None::<EntityId>,
        remove_model(m, r, id).1.contains(x),
{
    let node = m[id.0];
    let m1 = m.remove(id.0);
    let m2 = match node.0 {
        Some(p) => detach_child(m1, p.0, id),
        None => m1,
    };
    lemma_orphan_children(m2, r, node.1);
    let after = orphan_children(m2, r, node.1);
    lemma_without(after.1, id);
    assert(EntityId(x.0) == x);
    assert(after.0.dom() == m2.dom());
    assert(!m2.contains_key(id.0));
}

/// Setting a parent changes the roots only in the child: with a parent the
/// child is no longer a root, without one it is; every other entity is a
/// root afterwards exactly when it was before.
pub proof fn lemma_set_parent_roots(r: Seq<EntityId>, child: EntityId, parent: Option<EntityId>)
    ensures
        parent is Some ==> !set_parent_roots(r, child, parent).contains(child),
        parent is None ==> set_parent_roots(r, child, parent).contains(child),
        forall|y: EntityId|
            y != child ==> (set_parent_roots(r, child, parent).contains(y) <==> r.contains(y)),
{
    lemma_without(r, child);
    if parent is None && !r.contains(child) {
        assert(r.push(child)[r.len() as int] == child);
        assert forall|y: EntityId| y != child implies (r.push(child).contains(y) <==> r.contains(y)) by {
            if r.push(child).contains(y) {
                let i = choose|i: int| 0 <= i < r.len() + 1 && r.push(child)[i] == y;
                assert(r[i] == y);
            }
            if r.contains(y) {
                let i = choose|i: int| 0 <= i < r.len() && r[i] == y;
                assert(r.push(child)[i] == y);
            }
        }
    }
}

/// Registering keeps parent/child links consistent.
pub proof fn lemma_register_keeps_links(m: Map<u32, NodeView>, id: EntityId)
    requires
        links_consistent(m),
    ensures
        links_consistent(ensure_node(m, id)),
{
    let m1 = ensure_node(m, id);
    assert forall|k: u32, c: EntityId| #[trigger] m1.contains_key(k) && #[trigger] m1[k].1.contains(c)
        implies m1.contains_key(c.0) && m1[c.0].0 == Some(EntityId(k)) by {
        if k == id.0 && !m.contains_key(id.0) {
            assert(m1[k].1 =~= Seq::<EntityId>::empty());
        } else {
            assert(m.contains_key(k) && m[k].1.contains(c));
        }
    }
}

/// Setting a parent keeps parent/child links consistent.
pub proof fn lemma_set_parent_keeps_links(m: Map<u32, NodeView>, child: EntityId, parent: Option<EntityId>)
    requires
        links_consistent(m),
    ensures
        links_consistent(set_parent_nodes(m, child, parent)),
{
    let m0 = ensure_node(m, child);
    lemma_register_keeps_links(m, child);
    let m1 = match parent {
        Some(p) => ensure_node(m0, p),
        None => m0,
    };
    match parent {
        Some(p) => lemma_register_keeps_links(m0, p),
        None => {},
    }
    assert(links_consistent(m1));
    let old_p = m1[child.0].0;
    let m2 = match old_p {
        Some(op) => detach_child(m1, op.0, child),
        None => m1,
    };
    let m3 = m2.insert(child.0, (parent, m2[child.0].1));
    let m4 = set_parent_nodes(m, child, parent);
    // Shape of each step.
    assert(m2.dom() == m1.dom());
    match old_p {
        Some(op) => {
            assert(m1.contains_key(op.0));
            lemma_without(m1[op.0].1, child);
        },
        None => {},
    }
    match parent {
        Some(p) => {
            assert(m4 == if m3[p.0].1.contains(child) {
                m3
            } else {
                m3.insert(p.0, (m3[p.0].0, m3[p.0].1.push(child)))
            });
        },
        None => {
            assert(m4 == m3);
        },
    }
    assert forall|k: u32| #[trigger] m4.contains_key(k) && m4[k].0 is Some implies m4.contains_key(
        parent_key(m4[k]),
    ) && m4[parent_key(m4[k])].1.contains(EntityId(k)) by {
        if k == child.0 {
            let p = parent->0;
            if !m3[p.0].1.contains(child) {
                let s2 = m3[p.0].1.push(child);
                assert(s2[s2.len() - 1] == child);
            }
        } else {
            assert(m1.contains_key(k) && m4[k].0 == m1[k].0);
            let q = parent_key(m1[k]);
            assert(m1.contains_key(q) && m1[q].1.contains(EntityId(k)));
            assert(m2[q].1.contains(EntityId(k)));
            assert(m3[q].1.contains(EntityId(k)));
            if m4[q].1 != m3[q].1 {
                let j = choose|j: int| 0 <= j < m3[q].1.len() && m3[q].1[j] == EntityId(k);
                assert(m4[q].1[j] == EntityId(k));
            }
        }
    }
    assert forall|k: u32, c: EntityId| #[trigger] m4.contains_key(k) && #[trigger] m4[k].1.contains(c)
        implies m4.contains_key(c.0) && m4[c.0].0 == Some(EntityId(k)) by {
        if c == child {
            if parent is Some && k == opt_key(parent) {
            } else {
                // `child` is listed only by its new parent.
                assert(m4[k].1 == m3[k].1);
                assert(m3[k].1 == m2[k].1);
                if old_p is Some && k == opt_key(old_p) {
                    assert(!m2[k].1.contains(child));
                } else {
                    assert(m2[k].1 == m1[k].1);
                    assert(m1[k].1.contains(child));
                    assert(m1[child.0].0 == Some(EntityId(k)));
                    assert(EntityId(k) == old_p->0);
                }
            }
        } else {
            assert(m3[k].1.contains(c)) by {
                if parent is Some && k == opt_key(parent) && !m3[k].1.contains(c) {
                    let j = choose|j: int| 0 <= j < m4[k].1.len() && m4[k].1[j] == c;
                    if !m3[k].1.contains(child) {
                        assert(j < m3[k].1.len());
                        assert(m3[k].1[j] == c);
                    }
                }
            }
            assert(m2[k].1.contains(c));
            assert(m1[k].1.contains(c));
            assert(m1.contains_key(c.0) && m1[c.0].0 == Some(EntityId(k)));
        }
    }
}

/// Removing an entity keeps parent/child links consistent.
pub proof fn lemma_remove_keeps_links(m: Map<u32, NodeView>, r: Seq<EntityId>, id: EntityId)
    requires
        links_consistent(m),
    ensures
        links_consistent(remove_model(m, r, id).0),
{
    if m.contains_key(id.0) {
        let node = m[id.0];
        let m1 = m.remove(id.0);
        let m2 = match node.0 {
            Some(p) => detach_child(m1, p.0, id),
            None => m1,
        };
        match node.0 {
            Some(p) => {
                if m1.contains_key(p.0) {
                    lemma_without(m1[p.0].1, id);
                }
            },
            None => {},
        }
        lemma_orphan_children(m2, r, node.1);
        let m3 = orphan_children(m2, r, node.1).0;
        assert(m3 == remove_model(m, r, id).0);
        assert forall|k: u32| #[trigger] m3.contains_key(k) && m3[k].0 is Some implies m3.contains_key(
            parent_key(m3[k]),
        ) && m3[parent_key(m3[k])].1.contains(EntityId(k)) by {
            assert(m2.contains_key(k));
            if node.1.contains(EntityId(k)) {
            } else {
                assert(m3[k] == m2[k]);
                assert(m1[k] == m[k]);
                let q = parent_key(m[k]);
                assert(m.contains_key(q) && m[q].1.contains(EntityId(k)));
                if q == id.0 {
                    assert(node.1.contains(EntityId(k)));
                }
                assert(m1.contains_key(q));
                assert(m2[q].1.contains(EntityId(k)));
                assert(m2.contains_key(q));
                assert(m3.contains_key(q));
                assert(m3[q].1 == m2[q].1);
            }
        }
        assert forall|k: u32, c: EntityId| #[trigger] m3.contains_key(k) && #[trigger] m3[k].1.contains(c)
            implies m3.contains_key(c.0) && m3[c.0].0 == Some(EntityId(k)) by {
            assert(m2.contains_key(k) && m3[k].1 == m2[k].1);
            assert(m1[k].1.contains(c)) by {
                if node.0 is Some && k == opt_key(node.0) {
                    assert(m2[k].1 == without(m1[k].1, id));
                }
            }
            assert(m[k].1.contains(c));
            assert(m.contains_key(c.0) && m[c.0].0 == Some(EntityId(k)));
            assert(c != id) by {
                if c == id {
                    assert(node.0 == Some(EntityId(k)));
                    assert(!m2[k].1.contains(id));
                }
            }
            assert(m1.contains_key(c.0));
            assert(!node.1.contains(c)) by {
                if node.1.contains(c) {
                    assert(m[c.0].0 == Some(id));
                }
            }
            assert(EntityId(c.0) == c);
        }
    }
}

proof fn lemma_model_insert(m: Map<u32, HierarchyNode>, k: u32, n: HierarchyNode)
    ensures
        nodes_model(m.insert(k, n)) == nodes_model(m).insert(k, node_view(n)),
{
    assert(nodes_model(m.insert(k, n)) =~= nodes_model(m).insert(k, node_view(n)));
}

proof fn lemma_model_remove(m: Map<u32, HierarchyNode>, k: u32)
    ensures
        nodes_model(m.remove(k)) == nodes_model(m).remove(k),
{
    assert(nodes_model(m.remove(k)) =~= nodes_model(m).remove(k));
}

/// Insert a fresh node for `id` unless it has one.
fn ensure_entry(nodes: &mut HashMap<u32, HierarchyNode>, id: EntityId)
    ensures
        nodes_model(final(nodes)@) == ensure_node(nodes_model(old(nodes)@), id),
{
    if !nodes.contains_key(&id.0) {
        let ghost before = nodes@;
        let fresh = HierarchyNode { parent: None, children: Vec::new() };
        proof {
            lemma_model_insert(before, id.0, fresh);
            assert(fresh.children@ =~= Seq::<EntityId>::empty());
        }
        nodes.insert(id.0, fresh);
    }
}

/// Take `child` out of `key`'s children (if `key` has a node).
fn detach_entry(nodes: &mut HashMap<u32, HierarchyNode>, key: u32, child: EntityId)
    ensures
        nodes_model(final(nodes)@) == detach_child(nodes_model(old(nodes)@), key, child),
{
    let ghost before = nodes@;
    match nodes.remove(&key) {
        Some(node) => {
            let mut node = node;
            remove_id(&mut node.children, child);
            let ghost removed = nodes@;
            nodes.insert(key, node);
            proof {
                lemma_model_remove(before, key);
                lemma_model_insert(removed, key, node);
                assert(nodes@ =~= before.insert(key, node));
                lemma_model_insert(before, key, node);
            }
        },
        None => {},
    }
}

/// Set the parent recorded in `key`'s node (which must exist).
fn set_entry_parent(nodes: &mut HashMap<u32, HierarchyNode>, key: u32, parent: Option<EntityId>)
    requires
        old(nodes)@.contains_key(key),
    ensures
        nodes_model(final(nodes)@) == nodes_model(old(nodes)@).insert(
            key,
            (parent, nodes_model(old(nodes)@)[key].1),
        ),
{
    let ghost before = nodes@;
    match nodes.remove(&key) {
        Some(node) => {
            let mut node = node;
            node.parent = parent;
            nodes.insert(key, node);
            proof {
                assert(nodes@ =~= before.insert(key, node));
                lemma_model_insert(before, key, node);
            }
        },
        None => {},
    }
}

/// Orphan `child`: clear its parent if it has a node.
fn clear_entry_parent(nodes: &mut HashMap<u32, HierarchyNode>, child: EntityId)
    ensures
        nodes_model(final(nodes)@) == if nodes_model(old(nodes)@).contains_key(child.0) {
            nodes_model(old(nodes)@).insert(child.0, (None, nodes_model(old(nodes)@)[child.0].1))
        } else {
            nodes_model(old(nodes)@)
        },
{
    if nodes.contains_key(&child.0) {
        set_entry_parent(nodes, child.0, None);
    }
}

/// Append `child` to `key`'s children unless listed (the node must exist).
fn attach_entry(nodes: &mut HashMap<u32, HierarchyNode>, key: u32, child: EntityId)
    requires
        old(nodes)@.contains_key(key),
    ensures
        nodes_model(final(nodes)@) == if nodes_model(old(nodes)@)[key].1.contains(child) {
            nodes_model(old(nodes)@)
        } else {
            nodes_model(old(nodes)@).insert(
                key,
                (nodes_model(old(nodes)@)[key].0, nodes_model(old(nodes)@)[key].1.push(child)),
            )
        },
{
    let ghost before = nodes@;
    match nodes.remove(&key) {
        Some(node) => {
            let mut node = node;
            if !contains_id(&node.children, child) {
                node.children.push(child);
            }
            nodes.insert(key, node);
            proof {
                assert(nodes@ =~= before.insert(key, node));
                lemma_model_insert(before, key, node);
                if nodes_model(before)[key].1.contains(child) {
                    assert(nodes_model(before).insert(key, node_view(node)) =~= nodes_model(before));
                }
            }
        },
        None => {},
    }
}

/// Append `id` to the roots unless listed.
fn add_root_entry(roots: &mut Vec<EntityId>, id: EntityId)
    ensures
        final(roots)@ == add_root(old(roots)@, id),
{
    if !contains_id(roots, id) {
        roots.push(id);
    }
}

/// Transform hierarchy graph: manages parent-child relationships.
///
/// Exists separately from the scene; games that need a hierarchy create
/// this alongside their scene.
#[derive(Debug)]
pub struct Hierarchy {
    nodes: HashMap<u32, HierarchyNode>,
    /// Entities with no parent (top-level).
    roots: Vec<EntityId>,
    /// Set when the hierarchy changes, cleared after propagation.
    dirty: bool,
}

impl Hierarchy {
    /// The nodes, keyed by entity id.
    pub closed spec fn nodes(&self) -> Map<u32, NodeView> {
        nodes_model(self.nodes@)
    }

    /// The top-level entities, in registration order.
    pub closed spec fn roots(&self) -> Seq<EntityId> {
        self.roots@
    }

    /// Whether the hierarchy changed since the last propagation.
    pub closed spec fn dirty_flag(&self) -> bool {
        self.dirty
    }

    pub fn new() -> (r: Self)
        ensures
            r.nodes() == Map::<u32, NodeView>::empty(),
            r.roots() == Seq::<EntityId>::empty(),
            !r.dirty_flag(),
    {
        let r = Hierarchy { nodes: HashMap::new(), roots: Vec::new(), dirty: false };
        assert(nodes_model(r.nodes@) =~= Map::<u32, NodeView>::empty());
        r
    }

    /// Register an entity in the hierarchy. It gets a node (if it had none)
    /// and is listed among the roots (if it was not).
    pub fn register(&mut self, id: EntityId)
        ensures
            final(self).nodes() == ensure_node(old(self).nodes(), id),
            final(self).roots() == add_root(old(self).roots(), id),
            final(self).dirty_flag(),
    {
        ensure_entry(&mut self.nodes, id);
        add_root_entry(&mut self.roots, id);
        self.dirty = true;
    }

    /// Set the parent of an entity. Pass `None` to make it a root.
    pub fn set_parent(&mut self, child: EntityId, parent: Option<EntityId>)
        ensures
            final(self).nodes() == set_parent_nodes(old(self).nodes(), child, parent),
            final(self).roots() == set_parent_roots(old(self).roots(), child, parent),
            parent is Some ==> !final(self).roots().contains(child),
            parent is None ==> final(self).roots().contains(child),
            forall|y: EntityId|
                y != child ==> (final(self).roots().contains(y) <==> old(self).roots().contains(y)),
            final(self).dirty_flag(),
    {
        ensure_entry(&mut self.nodes, child);
        match parent {
            Some(p) => ensure_entry(&mut self.nodes, p),
            None => {},
        }
        let ghost m1 = nodes_model(self.nodes@);
        assert(m1.contains_key(child.0));
        assert(self.nodes@.contains_key(child.0));
        let old_parent = match self.nodes.get(&child.0) {
            Some(n) => n.parent,
            None => None,
        };
        assert(old_parent == m1[child.0].0);
        match old_parent {
            Some(op) => detach_entry(&mut self.nodes, op.0, child),
            None => {},
        }
        let ghost m2 = nodes_model(self.nodes@);
        assert(m2.contains_key(child.0));
        set_entry_parent(&mut self.nodes, child.0, parent);
        match parent {
            Some(p) => {
                assert(nodes_model(self.nodes@).contains_key(p.0));
                assert(self.nodes@.contains_key(p.0));
                attach_entry(&mut self.nodes, p.0, child);
                remove_id(&mut self.roots, child);
            },
            None => {
                add_root_entry(&mut self.roots, child);
            },
        }
        proof {
            lemma_set_parent_roots(old(self).roots(), child, parent);
        }
        self.dirty = true;
    }

    /// Whether the entity has a node.
    pub fn contains(&self, id: EntityId) -> (r: bool)
        ensures
            r == self.nodes().contains_key(id.0),
    {
        self.nodes.contains_key(&id.0)
    }

    /// Get the parent of an entity.
    pub fn get_parent(&self, id: EntityId) -> (r: Option<EntityId>)
        ensures
            r == if self.nodes().contains_key(id.0) {
                self.nodes()[id.0].0
            } else {
                None
            },
    {
        match self.nodes.get(&id.0) {
            Some(n) => n.parent,
            None => None,
        }
    }

    /// Get the children of an entity.
    pub fn get_children(&self, id: EntityId) -> (r: Option<&[EntityId]>)
        ensures
            r is Some <==> self.nodes().contains_key(id.0),
            r matches Some(s) ==> s@ == self.nodes()[id.0].1,
    {
        match self.nodes.get(&id.0) {
            Some(n) => Some(n.children.as_slice()),
            None => None,
        }
    }

    /// The top-level entities, in order.
    pub fn root_ids(&self) -> (r: &[EntityId])
        ensures
            r@ == self.roots(),
    {
        self.roots.as_slice()
    }

    /// Remove an entity from the hierarchy. Its children become roots.
    pub fn remove(&mut self, id: EntityId)
        ensures
            (final(self).nodes(), final(self).roots()) == remove_model(
                old(self).nodes(),
                old(self).roots(),
                id,
            ),
            final(self).dirty_flag(),
    {
        let ghost m0 = nodes_model(self.nodes@);
        let ghost before = self.nodes@;
        match self.nodes.remove(&id.0) {
            Some(node) => {
                proof {
                    lemma_model_remove(before, id.0);
                }
                match node.parent {
                    Some(p) => detach_entry(&mut self.nodes, p.0, id),
                    None => {},
                }
                let ghost m2 = nodes_model(self.nodes@);
                let ghost r0 = self.roots@;
                let ghost ch = node.children@;
                let mut i: usize = 0;
                while i < node.children.len()
                    invariant
                        ch == node.children@,
                        i <= ch.len(),
                        (nodes_model(self.nodes@), self.roots@) == orphan_children(
                            m2,
                            r0,
                            ch.take(i as int),
                        ),
                    decreases ch.len() - i,
                {
                    proof {
                        assert(ch.take(i + 1).drop_last() =~= ch.take(i as int));
                        assert(ch.take(i + 1).last() == ch[i as int]);
                    }
                    let c = node.children[i];
                    clear_entry_parent(&mut self.nodes, c);
                    add_root_entry(&mut self.roots, c);
                    i = i + 1;
                }
                proof {
                    assert(ch.take(ch.len() as int) =~= ch);
                }
                remove_id(&mut self.roots, id);
            },
            None => {},
        }
        self.dirty = true;
    }

    /// Check if the hierarchy has pending changes.
    pub fn is_dirty(&self) -> (r: bool)
        ensures
            r == self.dirty_flag(),
    {
        self.dirty
    }

    /// Mark the hierarchy as needing propagation.
    pub fn mark_dirty(&mut self)
        ensures
            final(self).nodes() == old(self).nodes(),
            final(self).roots() == old(self).roots(),
            final(self).dirty_flag(),
    {
        self.dirty = true;
    }

    /// Record that the current hierarchy has been propagated.
    pub fn mark_clean(&mut self)
        ensures
            final(self).nodes() == old(self).nodes(),
            final(self).roots() == old(self).roots(),
            !final(self).dirty_flag(),
    {
        self.dirty = false;
    }

    /// Number of entities in the hierarchy.
    pub fn len(&self) -> (r: usize)
        ensures
            r == self.nodes().len(),
    {
        proof {
            assert(self.nodes().dom() =~= self.nodes@.dom());
        }
        self.nodes.len()
    }

    /// Whether the hierarchy is empty.
    pub fn is_empty(&self) -> (r: bool)
        ensures
            r == (self.nodes().len() == 0),
    {
        proof {
            assert(self.nodes().dom() =~= self.nodes@.dom());
        }
        self.nodes.len() == 0
    }

    /// Clear all hierarchy data.
    pub fn clear(&mut self)
        ensures
            final(self).nodes() == Map::<u32, NodeView>::empty(),
            final(self).roots() == Seq::<EntityId>::empty(),
            !final(self).dirty_flag(),
    {
        *self = Hierarchy::new();
    }
}

} // verus!
