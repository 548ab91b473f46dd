//! Small verified helpers for lists of entity ids: membership and removal
//! of every occurrence of an id (what `Vec::retain(|e| e != id)` does).
use vstd::prelude::*;
use crate::api::types::EntityId;

verus! {

/// `s` with every occurrence of `x` removed, order kept.
pub open spec fn without(s: Seq<EntityId>, x: EntityId) -> Seq<EntityId>
    decreases s.len(),
{
    if s.len() == 0 {
        s
    } else if s.last() == x {
        without(s.drop_last(), x)
    } else {
        without(s.drop_last(), x).push(s.last())
    }
}

/// Removing `x` keeps exactly the other elements.
pub proof fn lemma_without(s: Seq<EntityId>, x: EntityId)
    ensures
        !without(s, x).contains(x),
        forall|y: EntityId| y != x ==> (without(s, x).contains(y) <==> s.contains(y)),
        without(s, x).len() <= s.len(),
        !s.contains(x) ==> without(s, x) == s,
    decreases s.len(),
{
    if s.len() > 0 {
        let r = s.drop_last();
        lemma_without(r, x);
        let w = without(s, x);
        let wr = without(r, x);
        assert(w == if s.last() == x { wr } else { wr.push(s.last()) });
        assert forall|y: EntityId| y != x implies (w.contains(y) <==> s.contains(y)) by {
            if s.contains(y) {
                let i = choose|i: int| 0 <= i < s.len() && s[i] == y;
                if i < s.len() - 1 {
                    assert(r[i] == y);
                    assert(r.contains(y));
                    assert(wr.contains(y));
                    let j = choose|j: int| 0 <= j < wr.len() && wr[j] == y;
                    if s.last() != x {
                        assert(w[j] == y);
                    }
                } else {
                    assert(w[w.len() - 1] == y);
                }
            }
            if w.contains(y) {
                let j = choose|j: int| 0 <= j < w.len() && w[j] == y;
                if s.last() == x || j < wr.len() {
                    assert(wr[j] == y);
                    assert(wr.contains(y));
                    assert(r.contains(y));
                    let i = choose|i: int| 0 <= i < r.len() && r[i] == y;
                    assert(s[i] == y);
                } else {
                    assert(s[s.len() - 1] == y);
                }
            }
        }
        if s.last() != x {
            let w = without(s, x);
            assert(w == without(r, x).push(s.last()));
            assert forall|i: int| 0 <= i < w.len() implies w[i] != x by {
                if i < w.len() - 1 {
                    assert(w[i] == without(r, x)[i]);
                }
            }
        }
        if !s.contains(x) {
            assert(!r.contains(x)) by {
                if r.contains(x) {
                    let i = choose|i: int| 0 <= i < r.len() && r[i] == x;
                    assert(s[i] == x);
                }
            }
            assert(s[s.len() - 1] != x);
            assert(r.push(s.last()) =~= s);
        }
    }
}

/// Whether `v` holds `x`.
pub fn contains_id(v: &Vec<EntityId>, x: EntityId) -> (r: bool)
    ensures
        r == v@.contains(x),
{
    let mut i: usize = 0;
    while i < v.len()
        invariant
            i <= v@.len(),
            forall|j: int| 0 <= j < i ==> v@[j] != x,
        decreases v@.len() - i,
    {
        if v[i] == x {
            return true;
        }
        i = i + 1;
    }
    proof {
        if v@.contains(x) {
            let j = choose|j: int| 0 <= j < v@.len() && v@[j] == x;
            assert(v@[j] != x);
        }
    }
    false
}

/// Remove every occurrence of `x` from `v`, keeping the order of the rest.
pub fn remove_id(v: &mut Vec<EntityId>, x: EntityId)
    ensures
        final(v)@ == without(old(v)@, x),
{
    let mut out: Vec<EntityId> = Vec::new();
    let mut i: usize = 0;
    while i < v.len()
        invariant
            i <= v@.len(),
            v@ == old(v)@,
            out@ == without(v@.take(i as int), x),
        decreases v@.len() - i,
    {
        proof {
            assert(v@.take(i + 1).drop_last() =~= v@.take(i as int));
            assert(v@.take(i + 1).last() == v@[i as int]);
        }
        if v[i] != x {
            out.push(v[i]);
        }
        i = i + 1;
    }
    proof {
        assert(v@.take(v@.len() as int) =~= v@);
    }
    *v = out;
}

} // verus!
