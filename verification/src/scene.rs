//! Entity index of a scene: the ids of the scene's entities in storage
//! order, and a map from id to storage position for O(1) lookups.
//!
//! The scene keeps its entities in a vector parallel to `ids`; every
//! operation here says where the scene's own vector changes (which slot a
//! despawn swap-removes, which slots a retain keeps), so both stay aligned.
use vstd::prelude::*;
use std::collections::HashMap;
use crate::api::types::EntityId;

verus! {

broadcast use vstd::std_specs::hash::group_hash_axioms;

/// Id → position map that a scan of `ids` from the front builds (a later
/// entity with the same id replaces an earlier one).
pub open spec fn index_of_ids(ids: Seq<EntityId>) -> Map<u32, usize>
    decreases ids.len(),
{
    if ids.len() == 0 {
        Map::empty()
    } else {
        index_of_ids(ids.drop_last()).insert(ids.last().0, (ids.len() - 1) as usize)
    }
}

/// The entities that `keep` marks, in their original order.
pub open spec fn kept_ids(ids: Seq<EntityId>, keep: Seq<bool>) -> Seq<EntityId>
    decreases ids.len(),
{
    if ids.len() == 0 || keep.len() == 0 {
        Seq::empty()
    } else {
        let rest = kept_ids(ids.drop_last(), keep.drop_last());
        if keep.last() {
            rest.push(ids.last())
        } else {
            rest
        }
    }
}

/// Every position the map gives holds an entity with that id.
pub open spec fn index_sound(ids: Seq<EntityId>, index: Map<u32, usize>) -> bool {
    forall|k: u32|
        #[trigger] index.contains_key(k) ==> index[k] < ids.len() && ids[index[k] as int].0 == k
}

/// No two entities share an id.
pub open spec fn ids_distinct(ids: Seq<EntityId>) -> bool {
    forall|i: int, j: int| 0 <= i < j < ids.len() ==> (#[trigger] ids[i]).0 != (#[trigger] ids[j]).0
}

/// The map finds every entity at its position and holds nothing else.
pub open spec fn index_exact(ids: Seq<EntityId>, index: Map<u32, usize>) -> bool {
    &&& index_sound(ids, index)
    &&& ids_distinct(ids)
    &&& forall|i: int|
        0 <= i < ids.len() ==> #[trigger] index.contains_key(ids[i].0) && index[ids[i].0] == i
}

/// Ids after a despawn of the entity at `idx` (swap-remove).
pub open spec fn swap_removed(ids: Seq<EntityId>, idx: int) -> Seq<EntityId> {
    ids.update(idx, ids.last()).drop_last()
}

/// Index after a despawn of id `k` found at `idx`.
pub open spec fn index_after_despawn(
    ids: Seq<EntityId>,
    index: Map<u32, usize>,
    k: u32,
    idx: int,
) -> Map<u32, usize> {
    if idx < ids.len() - 1 {
        index.remove(k).insert(ids.last().0, idx as usize)
    } else {
        index.remove(k)
    }
}

/// Entity index of a scene.
pub struct SceneIndex {
    ids: Vec<EntityId>,
    id_index: HashMap<u32, usize>,
}

impl SceneIndex {
    #[verifier::type_invariant]
    spec fn inv(self) -> bool {
        index_sound(self.ids@, self.id_index@)
    }

    /// Entity ids in storage order.
    pub closed spec fn ids(&self) -> Seq<EntityId> {
        self.ids@
    }

    /// Id → storage position.
    pub closed spec fn index(&self) -> Map<u32, usize> {
        self.id_index@
    }

    /// An empty index.
    pub fn new() -> (r: Self)
        ensures
            r.ids() == Seq::<EntityId>::empty(),
            r.index() == Map::<u32, usize>::empty(),
    {
        SceneIndex { ids: Vec::new(), id_index: HashMap::new() }
    }

    /// An empty index with room for `capacity` entities.
    pub fn with_capacity(capacity: usize) -> (r: Self)
        ensures
            r.ids() == Seq::<EntityId>::empty(),
            r.index() == Map::<u32, usize>::empty(),
    {
        SceneIndex { ids: Vec::with_capacity(capacity), id_index: HashMap::with_capacity(capacity) }
    }

    /// Record an entity appended to the scene's storage.
    pub fn spawn(&mut self, id: EntityId)
        ensures
            final(self).ids() == old(self).ids().push(id),
            final(self).index() == old(self).index().insert(id.0, old(self).ids().len() as usize),
            index_exact(old(self).ids(), old(self).index()) && !old(self).index().contains_key(id.0)
                ==> index_exact(final(self).ids(), final(self).index()),
    {
        proof { use_type_invariant(&*self); }
        let idx = self.ids.len();
        let mut taken = SceneIndex::new();
        std::mem::swap(&mut taken, self);
        let SceneIndex { ids: mut ids, id_index: mut index } = taken;
        ids.push(id);
        index.insert(id.0, idx);
        proof {
            assert forall|k: u32| #[trigger] index@.contains_key(k) implies index@[k] < ids@.len()
                && ids@[index@[k] as int].0 == k by {
                if k != id.0 {
                    assert(old(self).id_index@.contains_key(k));
                }
            }
        }
        *self = SceneIndex { ids, id_index: index };
    }

    /// Remove the entity with this id, if the index knows it. Returns the
    /// storage position the scene must swap-remove.
    pub fn despawn(&mut self, id: EntityId) -> (r: Option<usize>)
        ensures
            old(self).index().contains_key(id.0) ==> {
                let idx = old(self).index()[id.0] as int;
                &&& r == Some(idx as usize)
                &&& final(self).ids() == swap_removed(old(self).ids(), idx)
                &&& final(self).index() == index_after_despawn(
                    old(self).ids(),
                    old(self).index(),
                    id.0,
                    idx,
                )
            },
            !old(self).index().contains_key(id.0) ==> r is None && final(self).ids() == old(
                self,
            ).ids() && final(self).index() == old(self).index(),
            index_exact(old(self).ids(), old(self).index()) ==> index_exact(
                final(self).ids(),
                final(self).index(),
            ),
    {
        proof { use_type_invariant(&*self); }
        let found = match self.id_index.get(&id.0) {
            Some(i) => Some(*i),
            None => None,
        };
        match found {
            None => None,
            Some(idx) => {
                let ghost old_ids = self.ids@;
                let ghost old_index = self.id_index@;
                let mut taken = SceneIndex::new();
                std::mem::swap(&mut taken, self);
                let SceneIndex { ids: mut ids, id_index: mut index } = taken;
                index.remove(&id.0);
                ids.swap_remove(idx);
                if idx < ids.len() {
                    let swapped_id = ids[idx];
                    index.insert(swapped_id.0, idx);
                }
                proof {
                    assert(ids@ == swap_removed(old_ids, idx as int));
                    assert(index@ == index_after_despawn(old_ids, old_index, id.0, idx as int));
                    lemma_despawn_sound(old_ids, old_index, id.0, idx as int);
                    lemma_despawn_exact(old_ids, old_index, id.0, idx as int);
                }
                *self = SceneIndex { ids, id_index: index };
                Some(idx)
            },
        }
    }

    /// Storage position of the entity with this id. O(1).
    pub fn get(&self, id: EntityId) -> (r: Option<usize>)
        ensures
            r == (if self.index().contains_key(id.0) {
                Some(self.index()[id.0])
            } else {
                None
            }),
            r matches Some(i) ==> i < self.ids().len() && self.ids()[i as int] == id,
    {
        proof { use_type_invariant(self); }
        match self.id_index.get(&id.0) {
            Some(i) => Some(*i),
            None => None,
        }
    }

    /// Whether an entity with this id is indexed. O(1).
    pub fn contains(&self, id: EntityId) -> (r: bool)
        ensures
            r == self.index().contains_key(id.0),
    {
        self.id_index.contains_key(&id.0)
    }

    /// Keep the entities that `keep` marks (in order) and rebuild the map.
    pub fn retain(&mut self, keep: &Vec<bool>)
        requires
            keep@.len() == old(self).ids().len(),
        ensures
            final(self).ids() == kept_ids(old(self).ids(), keep@),
            final(self).index() == index_of_ids(final(self).ids()),
            ids_distinct(old(self).ids()) ==> index_exact(final(self).ids(), final(self).index()),
    {
        proof { use_type_invariant(&*self); }
        let n = self.ids.len();
        let mut kept: Vec<EntityId> = Vec::new();
        let mut i: usize = 0;
        while i < n
            invariant
                n == self.ids@.len(),
                keep@.len() == n,
                i <= n,
                kept@ == kept_ids(self.ids@.take(i as int), keep@.take(i as int)),
            decreases n - i,
        {
            proof {
                assert(self.ids@.take(i + 1).drop_last() =~= self.ids@.take(i as int));
                assert(keep@.take(i + 1).drop_last() =~= keep@.take(i as int));
            }
            if keep[i] {
                kept.push(self.ids[i]);
            }
            i = i + 1;
        }
        proof {
            assert(self.ids@.take(n as int) =~= self.ids@);
            assert(keep@.take(n as int) =~= keep@);
            lemma_kept_distinct(self.ids@, keep@);
        }
        let index = build_index(&kept);
        let kept_len = kept.len();
        proof {
            assert(kept@.len() == kept_len);
            if ids_distinct(old(self).ids()) {
                lemma_index_of_distinct_exact(kept@);
            }
        }
        *self = SceneIndex { ids: kept, id_index: index };
    }

    /// Number of entities.
    pub fn len(&self) -> (r: usize)
        ensures
            r == self.ids().len(),
    {
        self.ids.len()
    }

    /// Whether there are no entities.
    pub fn is_empty(&self) -> (r: bool)
        ensures
            r == (self.ids().len() == 0),
    {
        self.ids.len() == 0
    }

    /// Forget all entities.
    pub fn clear(&mut self)
        ensures
            final(self).ids() == Seq::<EntityId>::empty(),
            final(self).index() == Map::<u32, usize>::empty(),
    {
        *self = SceneIndex::new();
    }

    /// Id of the entity at a storage position.
    pub fn id_at(&self, i: usize) -> (r: EntityId)
        requires
            i < self.ids().len(),
        ensures
            r == self.ids()[i as int],
    {
        self.ids[i]
    }
}

/// Build the id → position map by scanning `ids` from the front.
fn build_index(ids: &Vec<EntityId>) -> (r: HashMap<u32, usize>)
    ensures
        r@ == index_of_ids(ids@),
        index_sound(ids@, r@),
{
    let mut index: HashMap<u32, usize> = HashMap::new();
    let mut i: usize = 0;
    while i < ids.len()
        invariant
            i <= ids@.len(),
            index@ == index_of_ids(ids@.take(i as int)),
        decreases ids@.len() - i,
    {
        proof {
            assert(ids@.take(i + 1).drop_last() =~= ids@.take(i as int));
        }
        index.insert(ids[i].0, i);
        i = i + 1;
    }
    proof {
        assert(ids@.take(ids@.len() as int) =~= ids@);
        lemma_index_of_ids_sound(ids@);
    }
    index
}

/// The scan-built map is sound.
pub proof fn lemma_index_of_ids_sound(ids: Seq<EntityId>)
    requires
        ids.len() <= usize::MAX,
    ensures
        index_sound(ids, index_of_ids(ids)),
        forall|i: int| 0 <= i < ids.len() ==> #[trigger] index_of_ids(ids).contains_key(ids[i].0),
        forall|k: u32| #[trigger] index_of_ids(ids).contains_key(k) ==> exists|i: int| 0 <= i < ids.len() && ids[i].0 == k,
    decreases ids.len(),
{
    if ids.len() > 0 {
        let rest = ids.drop_last();
        lemma_index_of_ids_sound(rest);
        let m = index_of_ids(ids);
        assert(m == index_of_ids(rest).insert(ids.last().0, (ids.len() - 1) as usize));
        assert forall|k: u32| #[trigger] m.contains_key(k) implies m[k] < ids.len() && ids[m[k] as int].0 == k by {
            if k != ids.last().0 {
                assert(index_of_ids(rest).contains_key(k));
                assert(ids[m[k] as int] == rest[m[k] as int]);
            }
        }
        assert forall|i: int| 0 <= i < ids.len() implies #[trigger] m.contains_key(ids[i].0) by {
            if i < ids.len() - 1 {
                assert(rest[i] == ids[i]);
            }
        }
        assert forall|k: u32| #[trigger] m.contains_key(k) implies exists|i: int| 0 <= i < ids.len() && ids[i].0 == k by {
            if k != ids.last().0 {
                assert(index_of_ids(rest).contains_key(k));
                let i = choose|i: int| 0 <= i < rest.len() && rest[i].0 == k;
                assert(ids[i] == rest[i]);
            } else {
                assert(ids[ids.len() - 1].0 == k);
            }
        }
    }
}

/// For distinct ids, the scan-built map is exact.
pub proof fn lemma_index_of_distinct_exact(ids: Seq<EntityId>)
    requires
        ids_distinct(ids),
        ids.len() <= usize::MAX,
    ensures
        index_exact(ids, index_of_ids(ids)),
{
    lemma_index_of_ids_sound(ids);
    let m = index_of_ids(ids);
    assert forall|i: int| 0 <= i < ids.len() implies #[trigger] m.contains_key(ids[i].0) && m[ids[i].0] == i by {
        assert(m.contains_key(ids[i].0));
        let j = m[ids[i].0] as int;
        assert(ids[j].0 == ids[i].0);
        if j != i {
            if j < i {
                assert((ids[j]).0 != (ids[i]).0);
            } else {
                assert((ids[i]).0 != (ids[j]).0);
            }
        }
    }
}

proof fn lemma_despawn_sound(ids: Seq<EntityId>, index: Map<u32, usize>, k: u32, idx: int)
    requires
        index_sound(ids, index),
        index.contains_key(k),
        idx == index[k],
    ensures
        index_sound(swap_removed(ids, idx), index_after_despawn(ids, index, k, idx)),
{
    let ids2 = swap_removed(ids, idx);
    let m2 = index_after_despawn(ids, index, k, idx);
    assert forall|j: u32| #[trigger] m2.contains_key(j) implies m2[j] < ids2.len() && ids2[m2[j] as int].0 == j by {
        if idx < ids.len() - 1 && j == ids.last().0 {
        } else {
            assert(index.contains_key(j) && j != k);
            let p = index[j] as int;
            if p == ids.len() - 1 {
                assert(ids[p].0 == ids.last().0);
            }
            assert(p != idx);
        }
    }
}

proof fn lemma_despawn_exact(ids: Seq<EntityId>, index: Map<u32, usize>, k: u32, idx: int)
    requires
        index_sound(ids, index),
        index.contains_key(k),
        idx == index[k],
    ensures
        index_exact(ids, index) ==> index_exact(
            swap_removed(ids, idx),
            index_after_despawn(ids, index, k, idx),
        ),
{
    if index_exact(ids, index) {
        lemma_despawn_sound(ids, index, k, idx);
        let ids2 = swap_removed(ids, idx);
        let m2 = index_after_despawn(ids, index, k, idx);
        let last = ids.len() - 1;
        assert forall|i: int, j: int| 0 <= i < j < ids2.len() implies (#[trigger] ids2[i]).0 != (#[trigger] ids2[j]).0 by {
            let oi = if i == idx { last } else { i };
            let oj = if j == idx { last } else { j };
            assert(ids2[i] == ids[oi] && ids2[j] == ids[oj]);
            assert(oi != oj);
            if oi < oj {
                assert(ids[oi].0 != ids[oj].0);
            } else {
                assert(ids[oj].0 != ids[oi].0);
            }
        }
        assert forall|i: int| 0 <= i < ids2.len() implies #[trigger] m2.contains_key(ids2[i].0) && m2[ids2[i].0] == i by {
            if i == idx {
                assert(ids2[i] == ids[last]);
            } else {
                assert(ids2[i] == ids[i]);
                assert(index.contains_key(ids[i].0));
                assert(index[ids[i].0] == i);
                assert(ids[i].0 != k);
                if idx < last {
                    assert(ids[last].0 != ids[i].0);
                }
            }
        }
    }
}

proof fn lemma_kept_distinct(ids: Seq<EntityId>, keep: Seq<bool>)
    requires
        ids.len() == keep.len(),
    ensures
        ids_distinct(ids) ==> ids_distinct(kept_ids(ids, keep)),
        forall|x: EntityId| kept_ids(ids, keep).contains(x) ==> ids.contains(x),
    decreases ids.len(),
{
    if ids.len() > 0 {
        let r = kept_ids(ids.drop_last(), keep.drop_last());
        lemma_kept_distinct(ids.drop_last(), keep.drop_last());
        assert(kept_ids(ids, keep) == if keep.last() {
            r.push(ids.last())
        } else {
            r
        });
        assert forall|x: EntityId| kept_ids(ids, keep).contains(x) implies ids.contains(x) by {
            if r.contains(x) {
                assert(ids.drop_last().contains(x));
                let i = choose|i: int| 0 <= i < ids.drop_last().len() && ids.drop_last()[i] == x;
                assert(ids[i] == x);
            } else {
                assert(ids[ids.len() - 1] == x);
            }
        }
        if ids_distinct(ids) {
            assert(ids_distinct(ids.drop_last()));
            if keep.last() {
                let kk = kept_ids(ids, keep);
                assert(kk == r.push(ids.last()));
                assert forall|i: int, j: int| 0 <= i < j < kk.len() implies (#[trigger] kk[i]).0 != (#[trigger] kk[j]).0 by {
                    if j == kk.len() - 1 {
                        assert(kk[i] == r[i]);
                        assert(r.contains(kk[i]));
                        assert(ids.drop_last().contains(kk[i]));
                        let p = choose|p: int| 0 <= p < ids.drop_last().len() && ids.drop_last()[p] == kk[i];
                        assert(ids[p] == kk[i]);
                        assert(ids[p].0 != ids[ids.len() - 1].0);
                    } else {
                        assert(kk[i] == r[i] && kk[j] == r[j]);
                    }
                }
            }
        }
    }
}

/// Despawning an entity right after spawning it (with an id the index did
/// not know) restores the index exactly.
pub proof fn lemma_despawn_undoes_spawn(ids: Seq<EntityId>, index: Map<u32, usize>, id: EntityId)
    requires
        index_sound(ids, index),
        !index.contains_key(id.0),
        ids.len() < usize::MAX,
    ensures
        ({
            let ids1 = ids.push(id);
            let index1 = index.insert(id.0, ids.len() as usize);
            &&& index1.contains_key(id.0)
            &&& swap_removed(ids1, index1[id.0] as int) == ids
            &&& index_after_despawn(ids1, index1, id.0, index1[id.0] as int) == index
        }),
{
    let ids1 = ids.push(id);
    let index1 = index.insert(id.0, ids.len() as usize);
    assert(index1.contains_key(id.0));
    assert(index1[id.0] == ids.len() as usize);
    assert(ids1.update(ids.len() as int, ids1.last()).drop_last() =~= ids);
    assert(swap_removed(ids1, ids.len() as int) =~= ids);
    assert(index1.remove(id.0) =~= index);
}

} // verus!
