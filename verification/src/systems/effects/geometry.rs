//! Triangle-strip to triangle-list conversion for effects meshes.
use vstd::prelude::*;

verus! {

/// Vertices (by strip position) of triangle `t` of a strip: even triangles
/// keep the strip's winding, odd ones swap their first two vertices so every
/// triangle has the same orientation.
pub open spec fn triangle_vertex(t: int, j: int) -> int {
    if j == 0 {
        if t % 2 == 0 {
            t
        } else {
            t + 1
        }
    } else if j == 1 {
        if t % 2 == 0 {
            t + 1
        } else {
            t
        }
    } else {
        t + 2
    }
}

/// Record `v` (of `k` values) of the strip.
pub open spec fn vertex_record<T>(strip: Seq<T>, k: int, v: int) -> Seq<T> {
    strip.subrange(v * k, v * k + k)
}

/// The first `t` triangles of the strip as a list: each triangle's three
/// vertex records in turn.
pub open spec fn triangle_list<T>(strip: Seq<T>, k: int, t: int) -> Seq<T>
    decreases t,
{
    if t <= 0 {
        Seq::empty()
    } else {
        triangle_list(strip, k, t - 1) + vertex_record(strip, k, triangle_vertex(t - 1, 0))
            + vertex_record(strip, k, triangle_vertex(t - 1, 1)) + vertex_record(
            strip,
            k,
            triangle_vertex(t - 1, 2),
        )
    }
}

/// Number of values the triangle list of a strip takes.
pub open spec fn triangle_list_len(len: int, k: int) -> int {
    if len / k < 3 {
        0
    } else {
        3 * (len / k - 2) * k
    }
}

proof fn lemma_record_in_bounds(len: int, k: int, v: int)
    requires
        k > 0,
        len >= 0,
        0 <= v < len / k,
    ensures
        0 <= v * k,
        v * k + k <= len,
{
    assert(0 <= v * k) by (nonlinear_arith)
        requires 0 <= v, k > 0;
    assert(v * k + k <= (len / k) * k) by (nonlinear_arith)
        requires v < len / k, k > 0;
    assert((len / k) * k <= len) by (nonlinear_arith)
        requires k > 0, len >= 0;
}

proof fn lemma_list_len<T>(strip: Seq<T>, k: int, t: int)
    requires
        k > 0,
        0 <= t,
        t + 2 <= (strip.len() as int) / k,
    ensures
        triangle_list(strip, k, t).len() == 3 * t * k,
    decreases t,
{
    if t > 0 {
        lemma_list_len(strip, k, t - 1);
        let tt = t - 1;
        lemma_record_in_bounds(strip.len() as int, k, triangle_vertex(tt, 0));
        lemma_record_in_bounds(strip.len() as int, k, triangle_vertex(tt, 1));
        lemma_record_in_bounds(strip.len() as int, k, triangle_vertex(tt, 2));
        assert(vertex_record(strip, k, triangle_vertex(tt, 0)).len() == k);
        assert(vertex_record(strip, k, triangle_vertex(tt, 1)).len() == k);
        assert(vertex_record(strip, k, triangle_vertex(tt, 2)).len() == k);
        assert(triangle_list(strip, k, t) == triangle_list(strip, k, tt) + vertex_record(
            strip,
            k,
            triangle_vertex(tt, 0),
        ) + vertex_record(strip, k, triangle_vertex(tt, 1)) + vertex_record(
            strip,
            k,
            triangle_vertex(tt, 2),
        ));
        assert(3 * t * k == 3 * (t - 1) * k + 3 * k) by (nonlinear_arith);
    } else {
        assert(3 * t * k == 0) by (nonlinear_arith)
            requires t == 0;
    }
}

/// Value `j` of record `v` of a sequence of `k`-value records.
pub open spec fn record_value<T>(s: Seq<T>, k: int, v: int, j: int) -> T {
    s[v * k + j]
}

/// Strip vertex used as corner `q % 3` of triangle `q / 3`: triangle `t`
/// uses strip vertices `t, t + 1, t + 2` when `t` is even and
/// `t + 1, t, t + 2` when it is odd, so all triangles have one orientation.
pub open spec fn corner_source(q: int) -> int {
    let t = q / 3;
    let m = q % 3;
    if m == 2 {
        t + 2
    } else if (m == 0) == (t % 2 == 0) {
        t
    } else {
        t + 1
    }
}

/// Value `j` of corner `m` of triangle `t` in the list is value `j` of the
/// strip vertex that corner uses.
proof fn lemma_triangle_list_at<T>(strip: Seq<T>, k: int, n: int, t: int, m: int, j: int)
    requires
        k > 0,
        0 <= t < n,
        n + 2 <= (strip.len() as int) / k,
        0 <= m < 3,
        0 <= j < k,
    ensures
        triangle_list(strip, k, n)[(3 * t + m) * k + j] == strip[triangle_vertex(t, m) * k + j],
    decreases n,
{
    let pre = triangle_list(strip, k, n - 1);
    lemma_list_len(strip, k, n - 1);
    let tt = n - 1;
    lemma_record_in_bounds(strip.len() as int, k, triangle_vertex(tt, 0));
    lemma_record_in_bounds(strip.len() as int, k, triangle_vertex(tt, 1));
    lemma_record_in_bounds(strip.len() as int, k, triangle_vertex(tt, 2));
    let r0 = vertex_record(strip, k, triangle_vertex(tt, 0));
    let r1 = vertex_record(strip, k, triangle_vertex(tt, 1));
    let r2 = vertex_record(strip, k, triangle_vertex(tt, 2));
    assert(r0.len() == k && r1.len() == k && r2.len() == k);
    assert(triangle_list(strip, k, n) == pre + r0 + r1 + r2);
    let idx = (3 * t + m) * k + j;
    if t < n - 1 {
        lemma_triangle_list_at(strip, k, n - 1, t, m, j);
        assert(idx < 3 * (n - 1) * k) by (nonlinear_arith)
            requires 0 <= t < n - 1, 0 <= m < 3, 0 <= j < k, idx == (3 * t + m) * k + j;
        assert(0 <= idx) by (nonlinear_arith)
            requires 0 <= t, 0 <= m, 0 <= j, k > 0, idx == (3 * t + m) * k + j;
        assert((pre + r0 + r1 + r2)[idx] == pre[idx]);
    } else {
        assert(idx == 3 * (n - 1) * k + m * k + j) by (nonlinear_arith)
            requires t == n - 1, idx == (3 * t + m) * k + j;
        let v = triangle_vertex(tt, m);
        if m == 0 {
            assert(idx == pre.len() + j);
            assert((pre + r0 + r1 + r2)[idx] == r0[j]);
        } else if m == 1 {
            assert(idx == pre.len() + k + j);
            assert((pre + r0 + r1 + r2)[idx] == r1[j]);
        } else {
            assert(m * k == 2 * k) by (nonlinear_arith)
                requires m == 2;
            assert(idx == pre.len() + 2 * k + j);
            assert((pre + r0 + r1 + r2)[idx] == r2[j]);
        }
    }
}

/// Convert triangle strip vertices (`floats_per_vert` values per vertex) to
/// a triangle list. A strip of `n >= 3` vertices gives `n - 2` triangles;
/// a shorter one gives nothing.
pub fn strip_to_triangles<T: Copy>(strip_verts: &[T], floats_per_vert: usize) -> (out: Vec<T>)
    requires
        floats_per_vert > 0,
        triangle_list_len(strip_verts@.len() as int, floats_per_vert as int) <= usize::MAX,
    ensures
        out@.len() == triangle_list_len(strip_verts@.len() as int, floats_per_vert as int),
        out@ == if (strip_verts@.len() as int) / (floats_per_vert as int) < 3 {
            Seq::<T>::empty()
        } else {
            triangle_list(
                strip_verts@,
                floats_per_vert as int,
                (strip_verts@.len() as int) / (floats_per_vert as int) - 2,
            )
        },
        forall|q: int, j: int|
            0 <= q < 3 * ((strip_verts@.len() as int) / (floats_per_vert as int) - 2) && 0 <= j
                < floats_per_vert ==> #[trigger] record_value(out@, floats_per_vert as int, q, j)
                == record_value(strip_verts@, floats_per_vert as int, corner_source(q), j),
{
    let k = floats_per_vert;
    let num_verts = strip_verts.len() / k;
    if num_verts < 3 {
        return Vec::new();
    }
    let num_tris = num_verts - 2;
    proof {
        lemma_list_len(strip_verts@, k as int, num_tris as int);
    }
    let mut out: Vec<T> = Vec::new();
    let mut i: usize = 0;
    while i < num_tris
        invariant
            k == floats_per_vert,
            k > 0,
            num_verts == (strip_verts@.len() as int) / (k as int),
            num_tris == num_verts - 2,
            num_verts >= 3,
            i <= num_tris,
            out@ == triangle_list(strip_verts@, k as int, i as int),
        decreases num_tris - i,
    {
        let (a, b, c) = if i % 2 == 0 {
            (i, i + 1, i + 2)
        } else {
            (i + 1, i, i + 2)
        };
        assert(a == triangle_vertex(i as int, 0) && b == triangle_vertex(i as int, 1) && c
            == triangle_vertex(i as int, 2));
        push_record(&mut out, strip_verts, k, a);
        push_record(&mut out, strip_verts, k, b);
        push_record(&mut out, strip_verts, k, c);
        i = i + 1;
    }
    proof {
        assert forall|q: int, j: int|
            0 <= q < 3 * (num_verts - 2) && 0 <= j < k implies #[trigger] record_value(
            out@,
            k as int,
            q,
            j,
        ) == record_value(strip_verts@, k as int, corner_source(q), j) by {
            let t = q / 3;
            let m = q % 3;
            assert(q == 3 * t + m);
            assert(0 <= t < num_tris);
            lemma_triangle_list_at(strip_verts@, k as int, num_tris as int, t, m, j);
            assert(triangle_vertex(t, m) == corner_source(q));
        }
    }
    out
}

/// Append vertex record `v` of the strip.
fn push_record<T: Copy>(out: &mut Vec<T>, strip: &[T], k: usize, v: usize)
    requires
        k > 0,
        v < (strip@.len() as int) / (k as int),
    ensures
        final(out)@ == old(out)@ + vertex_record(strip@, k as int, v as int),
{
    let n = strip.len();
    proof {
        lemma_record_in_bounds(strip@.len() as int, k as int, v as int);
    }
    let base = v * k;
    let mut m: usize = 0;
    while m < k
        invariant
            base == v * k,
            base + k <= strip@.len(),
            n == strip@.len(),
            m <= k,
            out@ == old(out)@ + strip@.subrange(base as int, base + m),
        decreases k - m,
    {
        out.push(strip[base + m]);
        proof {
            assert(strip@.subrange(base as int, base + m + 1) =~= strip@.subrange(base as int, base + m).push(
                strip@[base + m],
            ));
        }
        m = m + 1;
    }
}

} // verus!
