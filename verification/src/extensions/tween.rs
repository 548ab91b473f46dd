//! Tween bookkeeping: handles for tweens, the table of running tweens with
//! the entity each one animates, the events of tweens that completed, and
//! what a tween does when it reaches its end. The interpolation itself is
//! float work done by the caller on the tween values the table stores.
use vstd::prelude::*;
use crate::api::types::EntityId;

verus! {

/// What happens when a tween completes.
#[derive(Debug, Clone, Copy, PartialEq, Eq, Default, Structural)]
pub enum TweenLoop {
    /// Stop and remove the tween.
    #[default]
    Once,
    /// Restart from the beginning.
    Loop,
    /// Reverse direction (ping-pong).
    PingPong,
}

/// Handle to a tween for later reference.
#[derive(Debug, Clone, Copy, PartialEq, Eq, Hash, Structural)]
pub struct TweenId(pub u32);

/// What a tween does once it has run its full duration.
#[derive(Debug, Clone, Copy, PartialEq, Eq, Structural)]
pub enum TweenCompletion {
    /// The tween is removed; `event` is reported as completed, if any.
    Finish { event: Option<u32> },
    /// The tween starts over, running forward when `forward` holds.
    Restart { forward: bool },
}

/// Completion of a tween with loop mode `mode`, running forward when
/// `forward` holds, that reports `on_complete` when it finishes.
pub open spec fn completion(mode: TweenLoop, forward: bool, on_complete: Option<u32>) -> TweenCompletion {
    match mode {
        TweenLoop::Once => TweenCompletion::Finish { event: on_complete },
        TweenLoop::Loop => TweenCompletion::Restart { forward },
        TweenLoop::PingPong => TweenCompletion::Restart { forward: !forward },
    }
}

/// Decide what a tween that reached its end does next.
pub fn complete(mode: TweenLoop, forward: bool, on_complete: Option<u32>) -> (r: TweenCompletion)
    ensures
        r == completion(mode, forward, on_complete),
{
    match mode {
        TweenLoop::Once => TweenCompletion::Finish { event: on_complete },
        TweenLoop::Loop => TweenCompletion::Restart { forward },
        TweenLoop::PingPong => TweenCompletion::Restart { forward: !forward },
    }
}

/// Only a once-tween finishes; a looping tween restarts in the same
/// direction; a ping-pong tween reverses, so after two completions it runs
/// in its first direction again.
pub proof fn lemma_completion(mode: TweenLoop, forward: bool, on_complete: Option<u32>)
    ensures
        (completion(mode, forward, on_complete) is Finish) <==> mode == TweenLoop::Once,
        mode == TweenLoop::Once ==> completion(mode, forward, on_complete)->event == on_complete,
        mode == TweenLoop::Loop ==> completion(mode, forward, on_complete)->forward == forward,
        mode == TweenLoop::PingPong ==> completion(mode, forward, on_complete)->forward == !forward,
        mode == TweenLoop::PingPong ==> completion(
            mode,
            completion(mode, forward, on_complete)->forward,
            on_complete,
        ) == (TweenCompletion::Restart { forward }),
{
}

/// Position of the entry with handle `id` (the last one, were there
/// several), or -1 when there is none.
pub open spec fn index_of<T>(entries: Seq<(TweenId, EntityId, T)>, id: TweenId) -> int
    decreases entries.len(),
{
    if entries.len() == 0 {
        -1
    } else if entries.last().0 == id {
        entries.len() - 1
    } else {
        index_of(entries.drop_last(), id)
    }
}

/// Handles strictly increase along the entries, so no two entries share one.
pub open spec fn handles_increasing<T>(entries: Seq<(TweenId, EntityId, T)>) -> bool {
    forall|i: int, j: int|
        0 <= i < j < entries.len() ==> (#[trigger] entries[i]).0.0 < (#[trigger] entries[j]).0.0
}

/// Every handle is below `next`.
pub open spec fn handles_below<T>(entries: Seq<(TweenId, EntityId, T)>, next: u32) -> bool {
    forall|i: int| 0 <= i < entries.len() ==> (#[trigger] entries[i]).0.0 < next
}

/// The entries that do not animate `entity`, order kept.
pub open spec fn without_entity<T>(entries: Seq<(TweenId, EntityId, T)>, entity: EntityId) -> Seq<
    (TweenId, EntityId, T),
>
    decreases entries.len(),
{
    if entries.len() == 0 {
        entries
    } else if entries.last().1 == entity {
        without_entity(entries.drop_last(), entity)
    } else {
        without_entity(entries.drop_last(), entity).push(entries.last())
    }
}

/// `index_of` finds an entry with the handle, or there is none.
pub proof fn lemma_index_of<T>(entries: Seq<(TweenId, EntityId, T)>, id: TweenId)
    ensures
        -1 <= index_of(entries, id) < entries.len(),
        index_of(entries, id) >= 0 ==> entries[index_of(entries, id)].0 == id,
        index_of(entries, id) == -1 ==> forall|i: int|
            0 <= i < entries.len() ==> (#[trigger] entries[i]).0 != id,
    decreases entries.len(),
{
    if entries.len() > 0 {
        lemma_index_of(entries.drop_last(), id);
        assert forall|i: int| 0 <= i < entries.len() - 1 implies #[trigger] entries[i]
            == entries.drop_last()[i] by {}
    }
}

/// With increasing handles, the entry at position `k` is the one found
/// for its handle.
pub proof fn lemma_index_of_increasing<T>(entries: Seq<(TweenId, EntityId, T)>, k: int)
    requires
        handles_increasing(entries),
        0 <= k < entries.len(),
    ensures
        index_of(entries, entries[k].0) == k,
    decreases entries.len(),
{
    if k < entries.len() - 1 {
        let d = entries.drop_last();
        assert(d[k] == entries[k]);
        assert(handles_increasing(d)) by {
            assert forall|i: int, j: int| 0 <= i < j < d.len() implies (#[trigger] d[i]).0.0 < (
            #[trigger] d[j]).0.0 by {
                assert(d[i] == entries[i] && d[j] == entries[j]);
            }
        }
        assert(entries[k].0.0 < entries[entries.len() - 1].0.0);
        lemma_index_of_increasing(d, k);
    }
}

/// Every entry kept by `without_entity` comes from the entries and does not
/// animate the entity; an entry for another entity is kept.
pub proof fn lemma_without_entity<T>(entries: Seq<(TweenId, EntityId, T)>, entity: EntityId)
    ensures
        without_entity(entries, entity).len() <= entries.len(),
        forall|i: int|
            0 <= i < without_entity(entries, entity).len() ==> (#[trigger] without_entity(
                entries,
                entity,
            )[i]).1 != entity,
        forall|i: int|
            0 <= i < without_entity(entries, entity).len() ==> exists|j: int|
                0 <= j < entries.len() && entries[j] == #[trigger] without_entity(entries, entity)[i],
        forall|j: int|
            0 <= j < entries.len() && (#[trigger] entries[j]).1 != entity ==> without_entity(
                entries,
                entity,
            ).contains(entries[j]),
    decreases entries.len(),
{
    if entries.len() > 0 {
        let d = entries.drop_last();
        lemma_without_entity(d, entity);
        let w = without_entity(entries, entity);
        let wd = without_entity(d, entity);
        assert forall|i: int| 0 <= i < w.len() implies exists|j: int|
            0 <= j < entries.len() && entries[j] == #[trigger] w[i] by {
            if i < wd.len() {
                assert(w[i] == wd[i]);
                let j = choose|j: int| 0 <= j < d.len() && d[j] == #[trigger] wd[i];
                assert(entries[j] == d[j]);
            } else {
                assert(entries[entries.len() - 1] == w[i]);
            }
        }
        assert forall|i: int| 0 <= i < w.len() implies (#[trigger] w[i]).1 != entity by {
            if i < wd.len() {
                assert(w[i] == wd[i]);
            }
        }
        assert forall|j: int| 0 <= j < entries.len() && (#[trigger] entries[j]).1 != entity implies w.contains(
            entries[j],
        ) by {
            if j < entries.len() - 1 {
                assert(entries[j] == d[j]);
                assert(wd.contains(d[j]));
                let i = choose|i: int| 0 <= i < wd.len() && wd[i] == d[j];
                assert(w[i] == wd[i]);
            } else {
                assert(w[w.len() - 1] == entries[j]);
            }
        }
    }
}

/// Dropping the entries of an entity keeps the handles increasing and below
/// the same bound.
proof fn lemma_without_entity_keyed<T>(entries: Seq<(TweenId, EntityId, T)>, entity: EntityId, next: u32)
    requires
        handles_increasing(entries),
        handles_below(entries, next),
    ensures
        handles_increasing(without_entity(entries, entity)),
        handles_below(without_entity(entries, entity), next),
    decreases entries.len(),
{
    if entries.len() > 0 {
        let d = entries.drop_last();
        assert(handles_increasing(d)) by {
            assert forall|i: int, j: int| 0 <= i < j < d.len() implies (#[trigger] d[i]).0.0 < (
            #[trigger] d[j]).0.0 by {
                assert(d[i] == entries[i] && d[j] == entries[j]);
            }
        }
        assert(handles_below(d, next)) by {
            assert forall|i: int| 0 <= i < d.len() implies (#[trigger] d[i]).0.0 < next by {
                assert(d[i] == entries[i]);
            }
        }
        lemma_without_entity_keyed(d, entity, next);
        lemma_without_entity(d, entity);
        let wd = without_entity(d, entity);
        let w = without_entity(entries, entity);
        if entries.last().1 != entity {
            assert forall|i: int, j: int| 0 <= i < j < w.len() implies (#[trigger] w[i]).0.0 < (
            #[trigger] w[j]).0.0 by {
                assert(w[i] == wd[i]);
                if j < wd.len() {
                    assert(w[j] == wd[j]);
                } else {
                    let k = choose|k: int| 0 <= k < d.len() && d[k] == #[trigger] wd[i];
                    assert(entries[k] == d[k]);
                }
            }
            assert forall|i: int| 0 <= i < w.len() implies (#[trigger] w[i]).0.0 < next by {
                if i < wd.len() {
                    assert(w[i] == wd[i]);
                }
            }
        }
    }
}

/// Removing a tween right after adding it gives back the entries as they
/// were: the new handle is found at the end, and only there.
pub proof fn lemma_remove_undoes_add<T>(
    entries: Seq<(TweenId, EntityId, T)>,
    next: u32,
    entity: EntityId,
    tween: T,
)
    requires
        handles_below(entries, next),
    ensures
        index_of(entries.push((TweenId(next), entity, tween)), TweenId(next)) == entries.len(),
        entries.push((TweenId(next), entity, tween)).remove(entries.len() as int) == entries,
{
    assert(entries.push((TweenId(next), entity, tween)).drop_last() =~= entries);
    assert(entries.push((TweenId(next), entity, tween)).remove(entries.len() as int) =~= entries);
}

/// Whether an outcome says the tween finished.
pub open spec fn is_finish(o: Option<TweenCompletion>) -> bool {
    o matches Some(TweenCompletion::Finish { .. })
}

/// The entries whose outcome is not a finish, order kept.
pub open spec fn unfinished<T>(entries: Seq<(TweenId, EntityId, T)>, outcomes: Seq<
    Option<TweenCompletion>,
>) -> Seq<(TweenId, EntityId, T)>
    decreases entries.len(),
{
    if entries.len() == 0 || outcomes.len() == 0 {
        Seq::empty()
    } else if is_finish(outcomes.last()) {
        unfinished(entries.drop_last(), outcomes.drop_last())
    } else {
        unfinished(entries.drop_last(), outcomes.drop_last()).push(entries.last())
    }
}

/// The events of the finishing outcomes, in order.
pub open spec fn finish_events(outcomes: Seq<Option<TweenCompletion>>) -> Seq<u32>
    decreases outcomes.len(),
{
    if outcomes.len() == 0 {
        Seq::empty()
    } else {
        match outcomes.last() {
            Some(TweenCompletion::Finish { event: Some(e) }) => finish_events(outcomes.drop_last()).push(e),
            _ => finish_events(outcomes.drop_last()),
        }
    }
}

/// Number of finishing outcomes.
pub open spec fn finish_count(outcomes: Seq<Option<TweenCompletion>>) -> nat
    decreases outcomes.len(),
{
    if outcomes.len() == 0 {
        0
    } else {
        finish_count(outcomes.drop_last()) + if is_finish(outcomes.last()) {
            1nat
        } else {
            0nat
        }
    }
}

/// The events recorded for a tick's outcomes are made outcome by outcome:
/// none for no outcomes; for a single outcome, its event when it finishes
/// with one and nothing otherwise; and the events of two runs of outcomes
/// one after the other are the first run's events followed by the second's.
/// Likewise the number of finished tweens adds up over runs.
pub proof fn lemma_finish_events(
    a: Seq<Option<TweenCompletion>>,
    b: Seq<Option<TweenCompletion>>,
    o: Option<TweenCompletion>,
    e: u32,
)
    ensures
        finish_events(Seq::empty()) == Seq::<u32>::empty(),
        finish_events(seq![Some(TweenCompletion::Finish { event: Some(e) })]) == seq![e],
        !(o matches Some(TweenCompletion::Finish { event: Some(_) })) ==> finish_events(seq![o])
            == Seq::<u32>::empty(),
        finish_events(a + b) == finish_events(a) + finish_events(b),
        finish_count(a + b) == finish_count(a) + finish_count(b),
        finish_count(seq![o]) == (if is_finish(o) { 1nat } else { 0nat }),
    decreases b.len(),
{
    let one = seq![Some(TweenCompletion::Finish { event: Some(e) })];
    assert(one.drop_last() =~= Seq::<Option<TweenCompletion>>::empty());
    assert(seq![o].drop_last() =~= Seq::<Option<TweenCompletion>>::empty());
    assert(one.len() == 1 && one.last() == Some(TweenCompletion::Finish { event: Some(e) }));
    assert(finish_events(one.drop_last()) == Seq::<u32>::empty());
    assert(finish_events(one) =~= seq![e]);
    assert(seq![o].len() == 1 && seq![o].last() == o);
    assert(finish_count(seq![o].drop_last()) == 0);
    assert(finish_events(seq![o].drop_last()) == Seq::<u32>::empty());
    if b.len() == 0 {
        assert(a + b =~= a);
        assert(finish_events(a) + finish_events(b) =~= finish_events(a));
    } else {
        let bd = b.drop_last();
        lemma_finish_events(a, bd, o, e);
        assert((a + b).drop_last() =~= a + bd);
        assert((a + b).last() == b.last());
        match b.last() {
            Some(TweenCompletion::Finish { event: Some(x) }) => {
                assert(finish_events(a) + finish_events(bd).push(x) =~= (finish_events(a)
                    + finish_events(bd)).push(x));
            },
            _ => {},
        }
    }
}

/// Every entry kept by `unfinished` comes from the entries, at a position
/// whose outcome is not a finish; every such entry is kept; and the kept
/// entries plus the finished ones make up all of them.
pub proof fn lemma_unfinished<T>(
    entries: Seq<(TweenId, EntityId, T)>,
    outcomes: Seq<Option<TweenCompletion>>,
)
    requires
        outcomes.len() == entries.len(),
    ensures
        unfinished(entries, outcomes).len() + finish_count(outcomes) == entries.len(),
        forall|i: int|
            0 <= i < unfinished(entries, outcomes).len() ==> exists|j: int|
                0 <= j < entries.len() && !is_finish(outcomes[j]) && entries[j]
                    == #[trigger] unfinished(entries, outcomes)[i],
        forall|j: int|
            0 <= j < entries.len() && !is_finish(#[trigger] outcomes[j]) ==> unfinished(
                entries,
                outcomes,
            ).contains(entries[j]),
    decreases entries.len(),
{
    if entries.len() > 0 {
        let d = entries.drop_last();
        let od = outcomes.drop_last();
        lemma_unfinished(d, od);
        let w = unfinished(entries, outcomes);
        let wd = unfinished(d, od);
        assert forall|i: int| 0 <= i < w.len() implies exists|j: int|
            0 <= j < entries.len() && !is_finish(outcomes[j]) && entries[j] == #[trigger] w[i] by {
            if i < wd.len() {
                assert(w[i] == wd[i]);
                let j = choose|j: int| 0 <= j < d.len() && !is_finish(od[j]) && d[j] == #[trigger] wd[i];
                assert(entries[j] == d[j] && outcomes[j] == od[j]);
            } else {
                assert(entries[entries.len() - 1] == w[i]);
            }
        }
        assert forall|j: int| 0 <= j < entries.len() && !is_finish(#[trigger] outcomes[j]) implies w.contains(
            entries[j],
        ) by {
            if j < entries.len() - 1 {
                assert(entries[j] == d[j] && outcomes[j] == od[j]);
                assert(wd.contains(d[j]));
                let i = choose|i: int| 0 <= i < wd.len() && wd[i] == d[j];
                assert(w[i] == wd[i]);
            } else {
                assert(w[w.len() - 1] == entries[j]);
            }
        }
    }
}

/// Dropping the finished entries keeps the handles increasing and below the
/// same bound.
proof fn lemma_unfinished_keyed<T>(
    entries: Seq<(TweenId, EntityId, T)>,
    outcomes: Seq<Option<TweenCompletion>>,
    next: u32,
)
    requires
        outcomes.len() == entries.len(),
        handles_increasing(entries),
        handles_below(entries, next),
    ensures
        handles_increasing(unfinished(entries, outcomes)),
        handles_below(unfinished(entries, outcomes), next),
    decreases entries.len(),
{
    if entries.len() > 0 {
        let d = entries.drop_last();
        let od = outcomes.drop_last();
        assert(handles_increasing(d)) by {
            assert forall|i: int, j: int| 0 <= i < j < d.len() implies (#[trigger] d[i]).0.0 < (
            #[trigger] d[j]).0.0 by {
                assert(d[i] == entries[i] && d[j] == entries[j]);
            }
        }
        assert(handles_below(d, next)) by {
            assert forall|i: int| 0 <= i < d.len() implies (#[trigger] d[i]).0.0 < next by {
                assert(d[i] == entries[i]);
            }
        }
        lemma_unfinished_keyed(d, od, next);
        lemma_unfinished(d, od);
        let wd = unfinished(d, od);
        let w = unfinished(entries, outcomes);
        if !is_finish(outcomes.last()) {
            assert forall|i: int, j: int| 0 <= i < j < w.len() implies (#[trigger] w[i]).0.0 < (
            #[trigger] w[j]).0.0 by {
                assert(w[i] == wd[i]);
                if j < wd.len() {
                    assert(w[j] == wd[j]);
                } else {
                    let k = choose|k: int| 0 <= k < d.len() && !is_finish(od[k]) && d[k] == #[trigger] wd[i];
                    assert(entries[k] == d[k]);
                }
            }
            assert forall|i: int| 0 <= i < w.len() implies (#[trigger] w[i]).0.0 < next by {
                if i < wd.len() {
                    assert(w[i] == wd[i]);
                }
            }
        }
    }
}

/// The running tweens, each with its handle and the entity it animates, in
/// the order they were added, and the events of tweens that completed.
pub struct TweenTable<T> {
    entries: Vec<(TweenId, EntityId, T)>,
    next_id: u32,
    completed_events: Vec<u32>,
}

impl<T> TweenTable<T> {
    /// Handles increase along the entries and stay below the next one.
    pub open spec fn wf(&self) -> bool {
        handles_increasing(self.entries()) && handles_below(self.entries(), self.next_handle())
    }

    /// The entries (handle, entity, tween), oldest first.
    pub closed spec fn entries(&self) -> Seq<(TweenId, EntityId, T)> {
        self.entries@
    }

    /// The handle the next added tween gets.
    pub closed spec fn next_handle(&self) -> u32 {
        self.next_id
    }

    /// Completion events not yet drained, oldest first.
    pub closed spec fn completed(&self) -> Seq<u32> {
        self.completed_events@
    }

    /// An empty table whose first handle is 0.
    pub fn new() -> (r: Self)
        ensures
            r.wf(),
            r.entries() == Seq::<(TweenId, EntityId, T)>::empty(),
            r.next_handle() == 0,
            r.completed() == Seq::<u32>::empty(),
    {
        TweenTable { entries: Vec::new(), next_id: 0, completed_events: Vec::new() }
    }

    /// Add a tween for `entity`; returns its handle, which no entry had.
    pub fn add(&mut self, entity: EntityId, tween: T) -> (r: TweenId)
        requires
            old(self).wf(),
            old(self).next_handle() < u32::MAX,
        ensures
            final(self).wf(),
            r == TweenId(old(self).next_handle()),
            index_of(old(self).entries(), r) == -1,
            final(self).entries() == old(self).entries().push((r, entity, tween)),
            final(self).next_handle() == old(self).next_handle() + 1,
            final(self).completed() == old(self).completed(),
    {
        let id = TweenId(self.next_id);
        proof {
            lemma_index_of(self.entries@, id);
            if index_of(self.entries@, id) >= 0 {
                assert(self.entries@[index_of(self.entries@, id)].0.0 < self.next_id);
            }
        }
        self.next_id = self.next_id + 1;
        self.entries.push((id, entity, tween));
        id
    }

    /// Position of the entry with handle `id`, if any.
    pub fn position(&self, id: TweenId) -> (r: Option<usize>)
        ensures
            match r {
                Some(k) => k as int == index_of(self.entries(), id) && k < self.entries().len(),
                None => index_of(self.entries(), id) == -1,
            },
    {
        let n = self.entries.len();
        let mut found: Option<usize> = None;
        let mut i: usize = 0;
        while i < n
            invariant
                n == self.entries@.len(),
                i <= n,
                match found {
                    Some(k) => k as int == index_of(self.entries@.take(i as int), id) && k < i,
                    None => index_of(self.entries@.take(i as int), id) == -1,
                },
            decreases n - i,
        {
            proof {
                assert(self.entries@.take(i + 1).drop_last() =~= self.entries@.take(i as int));
            }
            if self.entries[i].0.0 == id.0 {
                found = Some(i);
            }
            i = i + 1;
        }
        proof {
            assert(self.entries@.take(n as int) =~= self.entries@);
        }
        found
    }

    /// Remove the tween with handle `id`; returns whether there was one.
    pub fn remove(&mut self, id: TweenId) -> (r: bool)
        requires
            old(self).wf(),
        ensures
            final(self).wf(),
            r == (index_of(old(self).entries(), id) >= 0),
            r ==> final(self).entries() == old(self).entries().remove(
                index_of(old(self).entries(), id),
            ),
            !r ==> final(self).entries() == old(self).entries(),
            index_of(final(self).entries(), id) == -1,
            final(self).next_handle() == old(self).next_handle(),
            final(self).completed() == old(self).completed(),
    {
        match self.position(id) {
            Some(k) => {
                let ghost before = self.entries@;
                proof {
                    lemma_index_of(before, id);
                }
                self.entries.remove(k);
                proof {
                    let after = self.entries@;
                    assert(after == before.remove(k as int));
                    assert forall|i: int| 0 <= i < after.len() implies (#[trigger] after[i]).0 != id by {
                        if i < k {
                            assert(after[i] == before[i]);
                        } else {
                            assert(after[i] == before[i + 1]);
                        }
                    }
                    lemma_index_of(after, id);
                    if index_of(after, id) >= 0 {
                        assert(after[index_of(after, id)].0 == id);
                    }
                }
                true
            },
            None => {
                proof {
                    lemma_index_of(self.entries@, id);
                }
                false
            },
        }
    }

    /// Remove every tween that animates `entity`, keeping the others in order.
    pub fn remove_entity(&mut self, entity: EntityId)
        requires
            old(self).wf(),
        ensures
            final(self).wf(),
            final(self).entries() == without_entity(old(self).entries(), entity),
            forall|i: int|
                0 <= i < final(self).entries().len() ==> (#[trigger] final(self).entries()[i]).1
                    != entity,
            final(self).next_handle() == old(self).next_handle(),
            final(self).completed() == old(self).completed(),
    {
        let ghost before = self.entries@;
        let ghost next = self.next_id;
        let mut taken: Vec<(TweenId, EntityId, T)> = Vec::new();
        std::mem::swap(&mut taken, &mut self.entries);
        let mut kept: Vec<(TweenId, EntityId, T)> = Vec::new();
        for e in it: taken.into_iter()
            invariant
                it.seq() == before,
                kept@ == without_entity(before.take(it.index() as int), entity),
        {
            proof {
                assert(before.take(it.index() + 1).drop_last() =~= before.take(it.index() as int));
            }
            if e.1.0 != entity.0 {
                kept.push(e);
            }
        }
        proof {
            assert(before.take(before.len() as int) =~= before);
            lemma_without_entity_keyed(before, entity, next);
            lemma_without_entity(before, entity);
        }
        self.entries = kept;
    }

    /// Handle and entity of the entry at position `i`.
    pub fn key_at(&self, i: usize) -> (r: (TweenId, EntityId))
        requires
            i < self.entries().len(),
        ensures
            r == (self.entries()[i as int].0, self.entries()[i as int].1),
    {
        (self.entries[i].0, self.entries[i].1)
    }

    /// The tween at position `i`.
    pub fn tween_at(&self, i: usize) -> (r: &T)
        requires
            i < self.entries().len(),
        ensures
            *r == self.entries()[i as int].2,
    {
        &self.entries[i].2
    }

    /// The tween at position `i`, to be changed in place.
    pub fn tween_at_mut(&mut self, i: usize) -> (r: &mut T)
        requires
            old(self).wf(),
            i < old(self).entries().len(),
        ensures
            final(self).wf(),
            *r == old(self).entries()[i as int].2,
            final(self).entries() == old(self).entries().update(
                i as int,
                (old(self).entries()[i as int].0, old(self).entries()[i as int].1, *final(r)),
            ),
            final(self).next_handle() == old(self).next_handle(),
            final(self).completed() == old(self).completed(),
    {
        &mut self.entries[i].2
    }

    /// Record the completion event of a finished tween.
    pub fn push_completed(&mut self, event: u32)
        requires
            old(self).wf(),
        ensures
            final(self).wf(),
            final(self).entries() == old(self).entries(),
            final(self).next_handle() == old(self).next_handle(),
            final(self).completed() == old(self).completed().push(event),
    {
        self.completed_events.push(event);
    }

    /// Take the recorded completion events, oldest first.
    pub fn drain_completed(&mut self) -> (r: Vec<u32>)
        requires
            old(self).wf(),
        ensures
            final(self).wf(),
            r@ == old(self).completed(),
            final(self).completed() == Seq::<u32>::empty(),
            final(self).entries() == old(self).entries(),
            final(self).next_handle() == old(self).next_handle(),
    {
        let mut taken: Vec<u32> = Vec::new();
        std::mem::swap(&mut taken, &mut self.completed_events);
        taken
    }

    /// The handle the next added tween gets.
    pub fn handle_counter(&self) -> (r: u32)
        ensures
            r == self.next_handle(),
    {
        self.next_id
    }

    /// Apply the outcomes of one tick, one per entry in order: every entry
    /// whose outcome is a finish leaves the table and its event, if any, is
    /// recorded; the others stay in order. Returns how many finished.
    pub fn retire_finished(&mut self, outcomes: &Vec<Option<TweenCompletion>>) -> (r: usize)
        requires
            old(self).wf(),
            outcomes@.len() == old(self).entries().len(),
        ensures
            final(self).wf(),
            final(self).entries() == unfinished(old(self).entries(), outcomes@),
            final(self).completed() == old(self).completed() + finish_events(outcomes@),
            final(self).next_handle() == old(self).next_handle(),
            r == finish_count(outcomes@),
    {
        let ghost before = self.entries@;
        let ghost done0 = self.completed_events@;
        let ghost next = self.next_id;
        let mut taken: Vec<(TweenId, EntityId, T)> = Vec::new();
        std::mem::swap(&mut taken, &mut self.entries);
        let mut kept: Vec<(TweenId, EntityId, T)> = Vec::new();
        let mut count: usize = 0;
        let mut k: usize = 0;
        let n = outcomes.len();
        for e in it: taken.into_iter()
            invariant
                it.seq() == before,
                n == outcomes@.len(),
                outcomes@.len() == before.len(),
                k == it.index(),
                kept@ == unfinished(before.take(k as int), outcomes@.take(k as int)),
                self.completed_events@ == done0 + finish_events(outcomes@.take(k as int)),
                count == finish_count(outcomes@.take(k as int)),
                count <= k,
                self.next_id == next,
        {
            proof {
                assert(before.take(k + 1).drop_last() =~= before.take(k as int));
                assert(outcomes@.take(k + 1).drop_last() =~= outcomes@.take(k as int));
            }
            assert(k < n);
            match outcomes[k] {
                Some(TweenCompletion::Finish { event }) => {
                    match event {
                        Some(ev) => {
                            self.completed_events.push(ev);
                            proof {
                                assert(done0 + finish_events(outcomes@.take(k as int)).push(ev)
                                    =~= done0 + finish_events(outcomes@.take(k + 1)));
                            }
                        },
                        None => {},
                    }
                    count = count + 1;
                },
                _ => {
                    kept.push(e);
                },
            }
            k = k + 1;
        }
        proof {
            assert(before.take(before.len() as int) =~= before);
            assert(outcomes@.take(before.len() as int) =~= outcomes@);
            lemma_unfinished_keyed(before, outcomes@, next);
        }
        self.entries = kept;
        count
    }

    /// Number of running tweens.
    pub fn len(&self) -> (r: usize)
        ensures
            r == self.entries().len(),
    {
        self.entries.len()
    }

    /// Whether no tween runs.
    pub fn is_empty(&self) -> (r: bool)
        ensures
            r == (self.entries().len() == 0),
    {
        self.entries.len() == 0
    }

    /// Drop every tween and every recorded event; handles keep counting.
    pub fn clear(&mut self)
        requires
            old(self).wf(),
        ensures
            final(self).wf(),
            final(self).entries() == Seq::<(TweenId, EntityId, T)>::empty(),
            final(self).completed() == Seq::<u32>::empty(),
            final(self).next_handle() == old(self).next_handle(),
    {
        self.entries = Vec::new();
        self.completed_events = Vec::new();
    }
}

impl<T> Default for TweenTable<T> {
    fn default() -> (r: Self)
        ensures
            r.wf(),
            r.entries() == Seq::<(TweenId, EntityId, T)>::empty(),
            r.next_handle() == 0,
            r.completed() == Seq::<u32>::empty(),
    {
        Self::new()
    }
}

} // verus!
