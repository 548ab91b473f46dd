//! Render batching: orders sprite instances by (layer, atlas) and cuts the
//! ordered sequence into batches, one per (layer, atlas) pair, for layered
//! N-atlas rendering.
use vstd::prelude::*;
use crate::components::layer::{RenderLayer, layer_index};

verus! {

/// Describes a contiguous batch of instances sharing the same layer AND atlas.
/// One batch per (layer, atlas) pair enables N-atlas rendering.
#[derive(Debug, Clone, Copy, PartialEq, Eq, Structural)]
pub struct LayerBatch {
    /// Which render layer this batch belongs to.
    pub layer: RenderLayer,
    /// Start index (inclusive) in the render buffer.
    pub start: u32,
    /// End index (exclusive) in the render buffer.
    pub end: u32,
    /// Which atlas this batch uses (index into manifest's atlas list).
    pub atlas_id: u32,
}

impl LayerBatch {
    /// Floats per LayerBatch in the protocol wire format.
    pub const FLOATS: usize = 4;
}

/// Sort key of a sprite instance: its layer and its atlas.
pub type SortKey = (RenderLayer, u32);

/// Draw order on keys: layers back-to-front, then atlases ascending.
pub open spec fn key_lt(a: SortKey, b: SortKey) -> bool {
    ||| layer_index(a.0) < layer_index(b.0)
    ||| (layer_index(a.0) == layer_index(b.0) && a.1 < b.1)
}

/// Entry `i` is drawn before entry `j`: smaller key, or equal key and
/// earlier in the input (the order is stable).
pub open spec fn precedes(keys: Seq<SortKey>, i: int, j: int) -> bool {
    key_lt(keys[i], keys[j]) || (keys[i] == keys[j] && i < j)
}

/// `order` lists each entry index `0..keys.len()` exactly once.
pub open spec fn is_permutation(order: Seq<usize>, n: int) -> bool {
    &&& order.len() == n
    &&& forall|p: int| 0 <= p < n ==> #[trigger] order[p] < n
    &&& forall|p: int, q: int| 0 <= p < q < n ==> #[trigger] order[p] != #[trigger] order[q]
}

/// `order` lists the entries in draw order.
pub open spec fn is_draw_order(keys: Seq<SortKey>, order: Seq<usize>) -> bool {
    forall|p: int, q: int|
        0 <= p < q < order.len() ==> precedes(keys, #[trigger] order[p] as int, #[trigger] order[q] as int)
}

/// The keys in the order given.
pub open spec fn ordered_keys(keys: Seq<SortKey>, order: Seq<usize>) -> Seq<SortKey> {
    Seq::new(order.len(), |p: int| keys[order[p] as int])
}

/// Key of a batch.
pub open spec fn batch_key(b: LayerBatch) -> SortKey {
    (b.layer, b.atlas_id)
}

/// `batches` cuts `sk` into maximal runs of equal keys, in order: the
/// batches are non-empty, adjacent, cover `0..sk.len()`, every entry of a
/// batch has the batch's key, and neighbouring batches have different keys.
pub open spec fn batches_cover(sk: Seq<SortKey>, batches: Seq<LayerBatch>) -> bool {
    &&& (sk.len() == 0 <==> batches.len() == 0)
    &&& batches.len() > 0 ==> batches[0].start == 0 && batches.last().end == sk.len()
    &&& forall|k: int|
        0 <= k < batches.len() ==> (#[trigger] batches[k]).start < batches[k].end <= sk.len()
    &&& forall|k: int, p: int|
        0 <= k < batches.len() && batches[k].start <= p < batches[k].end ==> #[trigger] sk[p]
            == batch_key(#[trigger] batches[k])
    &&& forall|k: int|
        0 <= k < batches.len() - 1 ==> (#[trigger] batches[k + 1]).start == batches[k].end
            && batch_key(batches[k + 1]) != batch_key(batches[k])
}

/// Number of entries that use atlas 0.
pub open spec fn atlas_zero_count(sk: Seq<SortKey>) -> nat
    decreases sk.len(),
{
    if sk.len() == 0 {
        0
    } else {
        atlas_zero_count(sk.drop_last()) + if sk.last().1 == 0 {
            1nat
        } else {
            0nat
        }
    }
}

/// Result of planning a frame's sprite rendering.
#[derive(Debug, Clone)]
pub struct RenderPlan {
    /// Entry indices in draw order.
    pub order: Vec<usize>,
    /// One batch per (layer, atlas) run of the ordered entries.
    pub batches: Vec<LayerBatch>,
    /// Number of instances that use atlas 0 (for renderers without batch support).
    pub atlas_split: u32,
}

fn key_less(a: SortKey, b: SortKey) -> (r: bool)
    ensures
        r == key_lt(a, b),
{
    let la = a.0.as_u8();
    let lb = b.0.as_u8();
    la < lb || (la == lb && a.1 < b.1)
}

fn key_equal(a: SortKey, b: SortKey) -> (r: bool)
    ensures
        r == (a == b),
{
    let la = a.0.as_u8();
    let lb = b.0.as_u8();
    proof {
        crate::components::layer::lemma_index_round_trip(0, a.0, b.0);
    }
    la == lb && a.1 == b.1
}

/// Keys ordered by `key_lt` form a strict total order.
proof fn lemma_key_order(a: SortKey, b: SortKey, c: SortKey)
    ensures
        !key_lt(a, a),
        key_lt(a, b) ==> !key_lt(b, a),
        key_lt(a, b) && key_lt(b, c) ==> key_lt(a, c),
        !key_lt(a, b) && !key_lt(b, a) ==> a == b,
{
    crate::components::layer::lemma_index_round_trip(0, a.0, b.0);
}

/// `precedes` is a strict total order on entry indices.
proof fn lemma_precedes(keys: Seq<SortKey>, i: int, j: int, k: int)
    ensures
        !precedes(keys, i, i),
        precedes(keys, i, j) ==> !precedes(keys, j, i),
        precedes(keys, i, j) && precedes(keys, j, k) ==> precedes(keys, i, k),
        i != j ==> precedes(keys, i, j) || precedes(keys, j, i),
{
    lemma_key_order(keys[i], keys[j], keys[k]);
    lemma_key_order(keys[i], keys[i], keys[i]);
    lemma_key_order(keys[j], keys[i], keys[k]);
}

/// Entry `i` is drawn before entry `j`.
fn draws_before(keys: &Vec<SortKey>, i: usize, j: usize) -> (r: bool)
    requires
        i < keys@.len(),
        j < keys@.len(),
    ensures
        r == precedes(keys@, i as int, j as int),
{
    key_less(keys[i], keys[j]) || (key_equal(keys[i], keys[j]) && i < j)
}

/// Every element of `s` is an entry index of `keys`.
pub open spec fn indices_of(keys: Seq<SortKey>, s: Seq<usize>) -> bool {
    forall|p: int| 0 <= p < s.len() ==> #[trigger] s[p] < keys.len()
}

/// Merge two runs that are each in draw order and share no entry into one
/// run in draw order holding the entries of both.
fn merge_runs(keys: &Vec<SortKey>, a: Vec<usize>, b: Vec<usize>) -> (out: Vec<usize>)
    requires
        indices_of(keys@, a@),
        indices_of(keys@, b@),
        is_draw_order(keys@, a@),
        is_draw_order(keys@, b@),
        forall|p: int, q: int|
            0 <= p < a@.len() && 0 <= q < b@.len() ==> #[trigger] a@[p] != #[trigger] b@[q],
        a@.len() + b@.len() <= usize::MAX,
    ensures
        out@.len() == a@.len() + b@.len(),
        indices_of(keys@, out@),
        is_draw_order(keys@, out@),
        forall|x: usize| #[trigger] out@.contains(x) <==> (a@.contains(x) || b@.contains(x)),
{
    let mut out: Vec<usize> = Vec::with_capacity(a.len() + b.len());
    let mut i: usize = 0;
    let mut j: usize = 0;
    while i < a.len() || j < b.len()
        invariant
            indices_of(keys@, a@),
            indices_of(keys@, b@),
            is_draw_order(keys@, a@),
            is_draw_order(keys@, b@),
            forall|p: int, q: int|
                0 <= p < a@.len() && 0 <= q < b@.len() ==> #[trigger] a@[p] != #[trigger] b@[q],
            i <= a@.len(),
            j <= b@.len(),
            out@.len() == i + j,
            indices_of(keys@, out@),
            is_draw_order(keys@, out@),
            forall|x: usize|
                #[trigger] out@.contains(x) <==> (a@.take(i as int).contains(x) || b@.take(
                    j as int,
                ).contains(x)),
            out@.len() > 0 && i < a@.len() ==> precedes(
                keys@,
                out@.last() as int,
                a@[i as int] as int,
            ),
            out@.len() > 0 && j < b@.len() ==> precedes(
                keys@,
                out@.last() as int,
                b@[j as int] as int,
            ),
        decreases a@.len() + b@.len() - i - j,
    {
        let take_a = if i < a.len() && j < b.len() {
            draws_before(keys, a[i], b[j])
        } else {
            i < a.len()
        };
        let ghost old_out = out@;
        let x: usize = if take_a {
            a[i]
        } else {
            b[j]
        };
        proof {
            if !take_a && i < a@.len() {
                lemma_precedes(keys@, a@[i as int] as int, b@[j as int] as int, 0);
            }
            // Everything already merged is drawn before `x`.
            assert forall|p: int| 0 <= p < old_out.len() implies precedes(
                keys@,
                #[trigger] old_out[p] as int,
                x as int,
            ) by {
                if p < old_out.len() - 1 {
                    lemma_precedes(
                        keys@,
                        old_out[p] as int,
                        old_out[old_out.len() - 1] as int,
                        x as int,
                    );
                }
            }
        }
        out.push(x);
        proof {
            assert forall|p: int, q: int| 0 <= p < q < out@.len() implies precedes(
                keys@,
                #[trigger] out@[p] as int,
                #[trigger] out@[q] as int,
            ) by {
                if q < old_out.len() {
                    assert(out@[p] == old_out[p] && out@[q] == old_out[q]);
                } else {
                    assert(out@[p] == old_out[p]);
                }
            }
            assert(out@ == old_out.push(x));
            if take_a {
                assert(a@.take(i + 1) =~= a@.take(i as int).push(x));
                assert forall|y: usize| #[trigger] out@.contains(y) <==> (a@.take(i + 1).contains(y)
                    || b@.take(j as int).contains(y)) by {
                    vstd::seq_lib::lemma_seq_contains_after_push(old_out, x, y);
                    vstd::seq_lib::lemma_seq_contains_after_push(a@.take(i as int), x, y);
                }
            } else {
                assert(b@.take(j + 1) =~= b@.take(j as int).push(x));
                assert forall|y: usize| #[trigger] out@.contains(y) <==> (a@.take(i as int).contains(y)
                    || b@.take(j + 1).contains(y)) by {
                    vstd::seq_lib::lemma_seq_contains_after_push(old_out, x, y);
                    vstd::seq_lib::lemma_seq_contains_after_push(b@.take(j as int), x, y);
                }
            }
        }
        if take_a {
            i = i + 1;
        } else {
            j = j + 1;
        }
    }
    proof {
        assert(a@.take(a@.len() as int) =~= a@);
        assert(b@.take(b@.len() as int) =~= b@);
    }
    out
}

/// Stable merge sort of distinct entry indices into draw order.
fn sort_run(keys: &Vec<SortKey>, items: Vec<usize>) -> (out: Vec<usize>)
    requires
        indices_of(keys@, items@),
        forall|p: int, q: int|
            0 <= p < q < items@.len() ==> #[trigger] items@[p] != #[trigger] items@[q],
    ensures
        out@.len() == items@.len(),
        indices_of(keys@, out@),
        is_draw_order(keys@, out@),
        forall|x: usize| #[trigger] out@.contains(x) <==> items@.contains(x),
    decreases items@.len(),
{
    if items.len() <= 1 {
        return items;
    }
    let ghost all = items@;
    let mid = items.len() / 2;
    let mut left = items;
    let right = left.split_off(mid);
    proof {
        assert(left@ =~= all.subrange(0, mid as int));
        assert(right@ =~= all.subrange(mid as int, all.len() as int));
        assert forall|p: int, q: int| 0 <= p < q < right@.len() implies #[trigger] right@[p]
            != #[trigger] right@[q] by {
            assert(right@[p] == all[mid + p] && right@[q] == all[mid + q]);
        }
    }
    let sl = sort_run(keys, left);
    let sr = sort_run(keys, right);
    proof {
        assert forall|p: int, q: int| 0 <= p < sl@.len() && 0 <= q < sr@.len() implies #[trigger] sl@[p]
            != #[trigger] sr@[q] by {
            assert(sl@.contains(sl@[p]));
            assert(sr@.contains(sr@[q]));
            let u = choose|u: int| 0 <= u < left@.len() && left@[u] == sl@[p];
            let v = choose|v: int| 0 <= v < right@.len() && right@[v] == sr@[q];
            assert(left@[u] == all[u]);
            assert(right@[v] == all[mid + v]);
        }
    }
    let out = merge_runs(keys, sl, sr);
    proof {
        assert forall|x: usize| #[trigger] out@.contains(x) <==> all.contains(x) by {
            if all.contains(x) {
                let k = choose|k: int| 0 <= k < all.len() && all[k] == x;
                if k < mid {
                    assert(left@[k] == x);
                    assert(left@.contains(x));
                } else {
                    assert(right@[k - mid] == x);
                    assert(right@.contains(x));
                }
            }
            if left@.contains(x) {
                let k = choose|k: int| 0 <= k < left@.len() && left@[k] == x;
                assert(all[k] == x);
            }
            if right@.contains(x) {
                let k = choose|k: int| 0 <= k < right@.len() && right@[k] == x;
                assert(all[mid + k] == x);
            }
        }
    }
    out
}

/// Stable sort of the entry indices by key.
fn sort_entries(keys: &Vec<SortKey>) -> (order: Vec<usize>)
    ensures
        is_permutation(order@, keys@.len() as int),
        is_draw_order(keys@, order@),
{
    let n = keys.len();
    let mut items: Vec<usize> = Vec::with_capacity(n);
    let mut i: usize = 0;
    while i < n
        invariant
            n == keys@.len(),
            i <= n,
            items@.len() == i,
            forall|p: int| 0 <= p < i ==> #[trigger] items@[p] == p,
        decreases n - i,
    {
        items.push(i);
        i = i + 1;
    }
    let order = sort_run(keys, items);
    proof {
        assert forall|p: int, q: int| 0 <= p < q < n implies #[trigger] order@[p]
            != #[trigger] order@[q] by {
            lemma_precedes(keys@, order@[p] as int, order@[q] as int, 0);
        }
    }
    order
}

/// Plan a frame's sprite rendering from the sort keys of the visible
/// (active, sprite-carrying) entities, in scene order: the entry indices in
/// draw order (layers back-to-front, atlases ascending within a layer, scene
/// order among equal keys), one batch per (layer, atlas) run of that order,
/// and the number of atlas-0 instances.
pub fn plan_render_batches(keys: &Vec<SortKey>) -> (r: RenderPlan)
    requires
        keys@.len() <= u32::MAX,
    ensures
        is_permutation(r.order@, keys@.len() as int),
        is_draw_order(keys@, r.order@),
        batches_cover(ordered_keys(keys@, r.order@), r.batches@),
        forall|k1: int, k2: int|
            0 <= k1 < k2 < r.batches@.len() ==> key_lt(
                batch_key(#[trigger] r.batches@[k1]),
                batch_key(#[trigger] r.batches@[k2]),
            ),
        r.atlas_split == atlas_zero_count(ordered_keys(keys@, r.order@)),
{
    let order = sort_entries(keys);
    let n = order.len();
    let ghost sk = ordered_keys(keys@, order@);
    let mut batches: Vec<LayerBatch> = Vec::new();
    let mut atlas_split: u32 = 0;
    if n == 0 {
        assert(sk.len() == 0);
        assert(sk =~= Seq::<SortKey>::empty());
        return RenderPlan { order, batches, atlas_split };
    }
    let mut cur: SortKey = keys[order[0]];
    let mut start: usize = 0;
    if cur.1 == 0 {
        atlas_split = 1;
    }
    proof {
        assert(sk.take(1).drop_last() =~= Seq::<SortKey>::empty());
        assert(sk.take(1).last() == sk[0]);
        assert(atlas_zero_count(sk.take(1).drop_last()) == 0);
    }
    let mut p: usize = 1;
    while p < n
        invariant
            n == order@.len(),
            n == keys@.len(),
            n <= u32::MAX,
            sk == ordered_keys(keys@, order@),
            is_permutation(order@, n as int),
            is_draw_order(keys@, order@),
            1 <= p <= n,
            start < p,
            cur == sk[start as int],
            forall|q: int| start <= q < p ==> #[trigger] sk[q] == cur,
            batches_cover(sk.take(start as int), batches@),
            batches@.len() > 0 ==> batch_key(batches@.last()) != cur,
            atlas_split == atlas_zero_count(sk.take(p as int)),
        decreases n - p,
    {
        let kp = keys[order[p]];
        let ghost prev = batches@;
        if !key_equal(kp, cur) {
            batches.push(LayerBatch { layer: cur.0, start: start as u32, end: p as u32, atlas_id: cur.1 });
            proof {
                let t = sk.take(p as int);
                assert forall|k: int, q: int|
                    0 <= k < batches@.len() && batches@[k].start <= q < batches@[k].end implies #[trigger] t[q]
                        == batch_key(#[trigger] batches@[k]) by {
                    if k < prev.len() {
                        assert(sk.take(start as int)[q] == batch_key(prev[k]));
                    }
                }
            }
            cur = kp;
            start = p;
        }
        proof {
            assert(sk.take(p + 1).drop_last() =~= sk.take(p as int));
            assert(sk.take(p + 1).last() == sk[p as int]);
            lemma_zero_count_le(sk.take(p as int));
            assert(atlas_split <= p);
        }
        if kp.1 == 0 {
            atlas_split = atlas_split + 1;
        }
        p = p + 1;
    }
    let ghost prev = batches@;
    batches.push(LayerBatch { layer: cur.0, start: start as u32, end: n as u32, atlas_id: cur.1 });
    proof {
        assert(sk.take(n as int) =~= sk);
        assert forall|k: int, q: int|
            0 <= k < batches@.len() && batches@[k].start <= q < batches@[k].end implies #[trigger] sk[q]
                == batch_key(#[trigger] batches@[k]) by {
            if k < prev.len() {
                assert(sk.take(start as int)[q] == batch_key(prev[k]));
            }
        }
        lemma_batches_increasing(sk, batches@);
    }
    RenderPlan { order, batches, atlas_split }
}

proof fn lemma_zero_count_le(sk: Seq<SortKey>)
    ensures
        atlas_zero_count(sk) <= sk.len(),
    decreases sk.len(),
{
    if sk.len() > 0 {
        lemma_zero_count_le(sk.drop_last());
    }
}

/// Batches cut from a sorted key sequence have strictly increasing keys, so
/// every (layer, atlas) pair gets at most one batch.
proof fn lemma_batches_increasing(sk: Seq<SortKey>, batches: Seq<LayerBatch>)
    requires
        batches_cover(sk, batches),
        forall|p: int, q: int| 0 <= p < q < sk.len() ==> #[trigger] sk[p] == #[trigger] sk[q] || key_lt(sk[p], sk[q]),
    ensures
        forall|k1: int, k2: int|
            0 <= k1 < k2 < batches.len() ==> key_lt(
                batch_key(#[trigger] batches[k1]),
                batch_key(#[trigger] batches[k2]),
            ),
{
    assert forall|k1: int, k2: int| 0 <= k1 < k2 < batches.len() implies key_lt(
        batch_key(#[trigger] batches[k1]),
        batch_key(#[trigger] batches[k2]),
    ) by {
        lemma_batch_starts_increase(sk, batches, k1, k2);
        let p = batches[k1].start as int;
        let q = batches[k2].start as int;
        let e = batches[k1].end as int;
        assert(sk[p] == batch_key(batches[k1]));
        assert(sk[q] == batch_key(batches[k2]));
        assert(batches[k1 + 1].start == e);
        assert(sk[e - 1] == batch_key(batches[k1]));
        assert(sk[e] == batch_key(batches[k1 + 1]));
        lemma_key_order(sk[e - 1], sk[e], sk[q]);
        if e < q {
            assert(sk[e] == sk[q] || key_lt(sk[e], sk[q]));
        }
        assert(sk[e - 1] == sk[e] || key_lt(sk[e - 1], sk[e]));
        lemma_key_order(sk[e - 1], sk[e], sk[e - 1]);
    }
}

proof fn lemma_batch_starts_increase(sk: Seq<SortKey>, batches: Seq<LayerBatch>, k1: int, k2: int)
    requires
        batches_cover(sk, batches),
        0 <= k1 < k2 < batches.len(),
    ensures
        batches[k1].end <= batches[k2].start,
    decreases k2 - k1,
{
    assert(batches[k2 - 1 + 1].start == batches[k2 - 1].end);
    if k2 - 1 > k1 {
        lemma_batch_starts_increase(sk, batches, k1, k2 - 1);
        assert(batches[k2 - 1].start < batches[k2 - 1].end);
    }
}

/// What one batch of a cover says: it is a non-empty range inside the keys,
/// every entry in it has the batch's key, the first batch starts at 0, the
/// last ends at the end, and the next batch starts where it ends with a
/// different key.
pub proof fn lemma_batch_facts(sk: Seq<SortKey>, batches: Seq<LayerBatch>, k: int)
    requires
        batches_cover(sk, batches),
        0 <= k < batches.len(),
    ensures
        batches[k].start < batches[k].end <= sk.len(),
        forall|p: int| batches[k].start <= p < batches[k].end ==> #[trigger] sk[p] == batch_key(batches[k]),
        k == 0 ==> batches[k].start == 0,
        k == batches.len() - 1 ==> batches[k].end == sk.len(),
        k + 1 < batches.len() ==> batches[k + 1].start == batches[k].end && batch_key(batches[k + 1])
            != batch_key(batches[k]),
{
    assert(batches[k].start < batches[k].end <= sk.len());
    if k + 1 < batches.len() {
        assert(batches[k + 1].start == batches[k].end);
    }
}

/// Every entry of a cover lies in exactly one batch: the one returned, which
/// has the entry's key.
pub proof fn lemma_batch_of(sk: Seq<SortKey>, batches: Seq<LayerBatch>, p: int) -> (k: int)
    requires
        batches_cover(sk, batches),
        0 <= p < sk.len(),
    ensures
        0 <= k < batches.len(),
        batches[k].start <= p < batches[k].end,
        sk[p] == batch_key(batches[k]),
        forall|j: int| 0 <= j < batches.len() && j != k ==> !(#[trigger] batches[j].start <= p < batches[j].end),
{
    let k = find_batch(sk, batches, p, 0);
    assert forall|j: int| 0 <= j < batches.len() && j != k implies !(#[trigger] batches[j].start <= p
        < batches[j].end) by {
        if j < k {
            lemma_batch_ends_before(sk, batches, j, k);
        } else {
            lemma_batch_ends_before(sk, batches, k, j);
        }
    }
    k
}

/// A batch ends no later than any later batch starts.
proof fn lemma_batch_ends_before(sk: Seq<SortKey>, batches: Seq<LayerBatch>, i: int, j: int)
    requires
        batches_cover(sk, batches),
        0 <= i < j < batches.len(),
    ensures
        batches[i].end <= batches[j].start,
    decreases j - i,
{
    assert(batches[i + 1].start == batches[i].end);
    if i + 1 < j {
        assert(batches[i + 1].start < batches[i + 1].end);
        lemma_batch_ends_before(sk, batches, i + 1, j);
    }
}

/// The batch holding entry `p`, searching from batch `j` on.
proof fn find_batch(sk: Seq<SortKey>, batches: Seq<LayerBatch>, p: int, j: int) -> (k: int)
    requires
        batches_cover(sk, batches),
        0 <= p < sk.len(),
        0 <= j < batches.len(),
        batches[j].start <= p,
    ensures
        j <= k < batches.len(),
        batches[k].start <= p < batches[k].end,
        sk[p] == batch_key(batches[k]),
    decreases batches.len() - j,
{
    if p < batches[j].end {
        j
    } else {
        if j + 1 < batches.len() {
            assert(batches[j + 1].start == batches[j].end);
            find_batch(sk, batches, p, j + 1)
        } else {
            assert(batches[j].end == sk.len());
            j
        }
    }
}

} // verus!
