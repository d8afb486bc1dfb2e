use vstd::layout::size_of;
use vstd::prelude::*;

verus! {

/// The triangles of an index list, three indices each.
pub open spec fn triangles_of(indices: Seq<u32>) -> Seq<(u32, u32, u32)> {
    Seq::new(indices.len() / 3, |t: int| (indices[3 * t], indices[3 * t + 1], indices[3 * t + 2]))
}

/// Every index of `indices` is below `vertex_count`.
pub open spec fn indices_below(indices: Seq<u32>, vertex_count: int) -> bool {
    forall|i: int| 0 <= i < indices.len() ==> (#[trigger] indices[i]) < vertex_count
}

/// The index list that `meshopt::optimize_vertex_cache_in_place` makes of `indices` for a
/// mesh of `vertex_count` vertices.
pub uninterp spec fn vertex_cache_order(indices: Seq<u32>, vertex_count: usize) -> Seq<u32>;

/// Reordering of the triangles of an index list for the vertex cache, in place, through
/// `meshopt::optimize_vertex_cache_in_place`. The claim, from the outside source: the new
/// list is [`vertex_cache_order`] of the old one and the vertex count (the greedy scoring
/// reads nothing but the indices, the vertex count and a fixed table); it keeps its length
/// and holds the same triangles, each with its indices in the same order; only the order of
/// the triangles changes. Which order that is, is not stated.
#[verifier::external_body]
fn optimize_vertex_cache_in_place(indices: &mut Vec<u32>, vertex_count: usize)
    requires
        old(indices)@.len() % 3 == 0,
        indices_below(old(indices)@, vertex_count as int),
    ensures
        final(indices)@ == vertex_cache_order(old(indices)@, vertex_count),
        final(indices)@.len() == old(indices)@.len(),
        triangles_of(final(indices)@).to_multiset() == triangles_of(old(indices)@).to_multiset(),
{
    meshopt::optimize_vertex_cache_in_place(indices, vertex_count);
}

/// Reorders the triangles of an index list so that they reuse recently used vertices.
pub fn optimize_vertex_cache(indices: &mut Vec<u32>, vertex_count: usize)
    requires
        old(indices)@.len() % 3 == 0,
        indices_below(old(indices)@, vertex_count as int),
    ensures
        final(indices)@ == vertex_cache_order(old(indices)@, vertex_count),
        final(indices)@.len() == old(indices)@.len(),
        triangles_of(final(indices)@).to_multiset() == triangles_of(old(indices)@).to_multiset(),
{
    optimize_vertex_cache_in_place(indices, vertex_count);
}

/// Reordering triangles keeps every index below the vertex count: an index list that names
/// only existing vertices still does after [`optimize_vertex_cache`].
pub proof fn lemma_reordered_triangles_stay_in_range(before: Seq<u32>, after: Seq<u32>, vertex_count: int)
    requires
        before.len() % 3 == 0,
        after.len() == before.len(),
        indices_below(before, vertex_count),
        triangles_of(after).to_multiset() == triangles_of(before).to_multiset(),
    ensures
        indices_below(after, vertex_count),
{
    let ta = triangles_of(after);
    let tb = triangles_of(before);
    ta.to_multiset_ensures();
    tb.to_multiset_ensures();
    assert forall|i: int| 0 <= i < after.len() implies (#[trigger] after[i]) < vertex_count by {
        let t = i / 3;
        let c = i % 3;
        assert(i == 3 * t + c && 0 <= c < 3 && 0 <= t < after.len() / 3) by (nonlinear_arith)
            requires
                0 <= i < after.len(),
                t == i / 3,
                c == i % 3,
                after.len() % 3 == 0,
        ;
        assert(ta.contains(ta[t]));
        assert(ta.to_multiset().count(ta[t]) > 0);
        assert(tb.to_multiset().count(ta[t]) > 0);
        assert(tb.contains(ta[t]));
        let u = choose|u: int| 0 <= u < tb.len() && tb[u] == ta[t];
        assert(0 <= 3 * u && 3 * u + 2 < before.len()) by (nonlinear_arith)
            requires
                0 <= u < before.len() / 3,
                before.len() % 3 == 0,
        ;
        assert(before[3 * u] < vertex_count && before[3 * u + 1] < vertex_count && before[3 * u + 2] < vertex_count);
    }
}

/// Some index of `indices` names vertex `j`.
pub open spec fn names_vertex(indices: Seq<u32>, j: int) -> bool {
    exists|i: int| 0 <= i < indices.len() && #[trigger] indices[i] == j
}

/// The distinct values of `indices`, in the order in which they first occur.
pub open spec fn first_use_order(indices: Seq<u32>) -> Seq<u32>
    decreases indices.len(),
{
    if indices.len() == 0 {
        Seq::empty()
    } else {
        let earlier = first_use_order(indices.drop_last());
        if earlier.contains(indices.last()) {
            earlier
        } else {
            earlier.push(indices.last())
        }
    }
}

/// The first-use order of an index list holds every value of the list, once, and nothing
/// else.
pub proof fn lemma_first_use_order(indices: Seq<u32>)
    ensures
        first_use_order(indices).no_duplicates(),
        forall|i: int| 0 <= i < indices.len() ==> first_use_order(indices).contains(#[trigger] indices[i]),
        forall|j: int|
            0 <= j < first_use_order(indices).len() ==> indices.contains(#[trigger] first_use_order(indices)[j]),
    decreases indices.len(),
{
    if indices.len() > 0 {
        let rest = indices.drop_last();
        lemma_first_use_order(rest);
        let earlier = first_use_order(rest);
        let x = indices.last();
        let order = first_use_order(indices);
        assert forall|i: int| 0 <= i < indices.len() implies order.contains(#[trigger] indices[i]) by {
            if i < indices.len() - 1 {
                assert(indices[i] == rest[i]);
                let k = choose|k: int| 0 <= k < earlier.len() && earlier[k] == rest[i];
                assert(order[k] == indices[i]);
            } else if !earlier.contains(x) {
                assert(order[earlier.len() as int] == x);
            }
        }
        assert forall|j: int| 0 <= j < order.len() implies indices.contains(#[trigger] order[j]) by {
            if j < earlier.len() {
                assert(order[j] == earlier[j]);
                let k = choose|k: int| 0 <= k < rest.len() && rest[k] == earlier[j];
                assert(indices[k] == order[j]);
            } else {
                assert(order[j] == x);
                assert(indices[indices.len() - 1] == x);
            }
        }
    }
}

/// A list of distinct values below `n` holds at most `n` of them.
proof fn lemma_distinct_below_len(s: Seq<u32>, n: int)
    requires
        0 <= n,
        s.no_duplicates(),
        forall|i: int| 0 <= i < s.len() ==> (#[trigger] s[i]) < n,
    ensures
        s.len() <= n,
    decreases n,
{
    if n == 0 {
        if s.len() > 0 {
            assert(s[0] < n);
        }
    } else if n > 0x1_0000_0000 {
        lemma_distinct_below_len(s, 0x1_0000_0000);
    } else if s.contains((n - 1) as u32) {
        let k = choose|k: int| 0 <= k < s.len() && s[k] == (n - 1) as u32;
        let t = s.remove(k);
        assert forall|i: int| 0 <= i < t.len() implies (#[trigger] t[i]) < n - 1 by {
            if i < k {
                assert(t[i] == s[i]);
            } else {
                assert(t[i] == s[i + 1]);
            }
        }
        assert forall|i: int, j: int| 0 <= i < t.len() && 0 <= j < t.len() && i != j implies t[i] != t[j] by {
            let si = if i < k { i } else { i + 1 };
            let sj = if j < k { j } else { j + 1 };
            assert(t[i] == s[si] && t[j] == s[sj]);
        }
        lemma_distinct_below_len(t, n - 1);
    } else {
        assert forall|i: int| 0 <= i < s.len() implies (#[trigger] s[i]) < n - 1 by {
            assert(s[i] != (n - 1) as u32);
        }
        lemma_distinct_below_len(s, n - 1);
    }
}

/// A vertex buffer reordered by first use, through `meshopt::optimize_vertex_fetch`, which
/// also rewrites the indices in place. The claim, from the outside source: the new buffer
/// holds the vertices that the indices name, each once, in the order in which the indices
/// first name them ([`first_use_order`]); each index is rewritten to the place of its
/// vertex in that order. The vertices are copied byte for byte, hence `Copy`.
#[verifier::external_body]
fn optimize_vertex_fetch_in_place<V: Copy + Default>(indices: &mut Vec<u32>, vertices: &Vec<V>) -> (reordered: Vec<V>)
    requires
        0 < size_of::<V>() <= 256,
        indices_below(old(indices)@, vertices@.len() as int),
    ensures
        reordered@ == first_use_order(old(indices)@).map_values(|v: u32| vertices@[v as int]),
        final(indices)@.len() == old(indices)@.len(),
        forall|i: int|
            0 <= i < old(indices)@.len() ==> (#[trigger] final(indices)@[i]) < first_use_order(old(indices)@).len()
                && first_use_order(old(indices)@)[final(indices)@[i] as int] == old(indices)@[i],
{
    meshopt::optimize_vertex_fetch(indices, vertices)
}

/// Reorders a vertex buffer so that vertices come in the order the indices first use them,
/// dropping the vertices no index uses, and rewrites the indices to match.
pub fn optimize_vertex_fetch<V: Copy + Default>(indices: &mut Vec<u32>, vertices: &Vec<V>) -> (reordered: Vec<V>)
    requires
        0 < size_of::<V>() <= 256,
        indices_below(old(indices)@, vertices@.len() as int),
    ensures
        reordered@ == first_use_order(old(indices)@).map_values(|v: u32| vertices@[v as int]),
        final(indices)@.len() == old(indices)@.len(),
        forall|i: int|
            0 <= i < old(indices)@.len() ==> (#[trigger] final(indices)@[i]) < first_use_order(old(indices)@).len()
                && first_use_order(old(indices)@)[final(indices)@[i] as int] == old(indices)@[i],
        reordered@.len() <= vertices@.len(),
        forall|i: int|
            0 <= i < old(indices)@.len() ==> (#[trigger] final(indices)@[i]) < reordered@.len()
                && reordered@[final(indices)@[i] as int] == vertices@[old(indices)@[i] as int],
        forall|j: int| 0 <= j < reordered@.len() ==> #[trigger] names_vertex(final(indices)@, j),
{
    let ghost before = indices@;
    let reordered = optimize_vertex_fetch_in_place(indices, vertices);
    proof {
        let order = first_use_order(before);
        lemma_first_use_order(before);
        assert forall|j: int| 0 <= j < order.len() implies (#[trigger] order[j]) < vertices@.len() by {
            let k = choose|k: int| 0 <= k < before.len() && before[k] == order[j];
        }
        lemma_distinct_below_len(order, vertices@.len() as int);
        assert forall|j: int| 0 <= j < reordered@.len() implies #[trigger] names_vertex(indices@, j) by {
            let k = choose|k: int| 0 <= k < before.len() && before[k] == order[j];
            assert(order[indices@[k] as int] == order[j]);
            assert(indices@[k] == j);
        }
    }
    reordered
}

/// `remap` is the first-use remap table of `indices`, cut to the number of vertices that
/// they name: place `v` holds the position of vertex `v` in [`first_use_order`], or
/// `u32::MAX` where no index names `v`.
pub open spec fn first_use_remap(remap: Seq<u32>, indices: Seq<u32>) -> bool {
    let order = first_use_order(indices);
    &&& remap.len() == order.len()
    &&& forall|v: int|
        0 <= v < remap.len() ==> if order.contains(v as u32) {
            (#[trigger] remap[v]) < order.len() && order[remap[v] as int] == v as u32
        } else {
            remap[v] == u32::MAX
        }
}

/// The vertex remap table of first use, through `meshopt::optimize_vertex_fetch_remap`. The
/// claim, from the outside source: it numbers the vertices in the order in which the
/// indices first name them, marks the others with `u32::MAX`, and is cut to as many places
/// as vertices are named ([`first_use_remap`]).
#[verifier::external_body]
fn vertex_fetch_remap(indices: &[u32], vertex_count: usize) -> (remap: Vec<u32>)
    requires
        indices_below(indices@, vertex_count as int),
    ensures
        first_use_remap(remap@, indices@),
{
    meshopt::optimize_vertex_fetch_remap(indices, vertex_count)
}

/// Each index looked up in a remap table, through `meshopt::remap_index_buffer`. The claim,
/// from the outside source: the result has one entry per index, the table's entry for it.
/// The outside function asserts that no entry it looks up is `u32::MAX`.
#[verifier::external_body]
fn remap_index_buffer_raw(indices: &[u32], remap: &[u32]) -> (remapped: Vec<u32>)
    requires
        forall|i: int|
            0 <= i < indices@.len() ==> (#[trigger] indices@[i]) < remap@.len() && remap@[indices@[i] as int] != u32::MAX,
    ensures
        remapped@.len() == indices@.len(),
        forall|i: int| 0 <= i < indices@.len() ==> #[trigger] remapped@[i] == remap@[indices@[i] as int],
{
    meshopt::remap_index_buffer(Some(indices), remap.len(), remap)
}

/// The table that renumbers the vertices of a mesh in the order in which its indices first
/// use them (see [`first_use_remap`]).
pub fn optimize_vertex_fetch_remap(indices: &[u32], vertex_count: usize) -> (remap: Vec<u32>)
    requires
        indices_below(indices@, vertex_count as int),
    ensures
        first_use_remap(remap@, indices@),
{
    vertex_fetch_remap(indices, vertex_count)
}

/// Each index looked up in `remap`, or `None` where an index lies past the end of the
/// table or its entry is `u32::MAX`, the mark of an unused vertex.
pub fn remap_indices(indices: &[u32], remap: &[u32]) -> (remapped: Option<Vec<u32>>)
    ensures
        remapped is Some <==> forall|i: int|
            0 <= i < indices@.len() ==> (#[trigger] indices@[i]) < remap@.len() && remap@[indices@[i] as int] != u32::MAX,
        remapped matches Some(r) ==> r@.len() == indices@.len() && forall|i: int|
            0 <= i < indices@.len() ==> #[trigger] r@[i] == remap@[indices@[i] as int],
{
    let mut i: usize = 0;
    while i < indices.len()
        invariant
            i <= indices@.len(),
            forall|q: int| 0 <= q < i ==> (#[trigger] indices@[q]) < remap@.len() && remap@[indices@[q] as int] != u32::MAX,
        decreases indices.len() - i,
    {
        if indices[i] as usize >= remap.len() || remap[indices[i] as usize] == u32::MAX {
            return None;
        }
        i += 1;
    }
    Some(remap_index_buffer_raw(indices, remap))
}

/// Vertex `i` of a mesh of `n` vertices lands at place `remap[i]`, and no later vertex
/// lands there too.
pub open spec fn lands_last(remap: Seq<u32>, n: int, i: int) -> bool {
    &&& remap[i] != u32::MAX
    &&& forall|j: int| i < j < n ==> remap[j] != remap[i]
}

/// Some vertex of a mesh of `n` vertices has `p` as its table entry, which is not the
/// mark `u32::MAX`.
pub open spec fn reached(remap: Seq<u32>, n: int, p: int) -> bool {
    exists|i: int| 0 <= i < n && remap[i] != u32::MAX && remap[i] == p
}

/// A vertex buffer moved through a remap table, through `meshopt::remap_vertex_buffer`
/// with as many places as vertices. The claim, from the outside source: the result has one
/// place per vertex, and every vertex whose table entry is not `u32::MAX` is copied to the
/// place its entry names, a later vertex overwriting an earlier one; the places that no
/// vertex reaches hold what `V::default()` gives, which fills the buffer first. The
/// vertices are copied byte for byte, hence `Copy`.
#[verifier::external_body]
fn remap_vertex_buffer_raw<V: Copy + Default>(vertices: &Vec<V>, remap: &[u32]) -> (remapped: Vec<V>)
    requires
        0 < size_of::<V>() <= 256,
        vertices@.len() <= remap@.len(),
        forall|i: int|
            0 <= i < vertices@.len() ==> (#[trigger] remap@[i]) == u32::MAX || remap@[i] < vertices@.len(),
    ensures
        remapped@.len() == vertices@.len(),
        forall|i: int|
            0 <= i < vertices@.len() && lands_last(remap@, vertices@.len() as int, i) ==> remapped@[#[trigger] remap@[i] as int]
                == vertices@[i],
        forall|p: int|
            0 <= p < vertices@.len() && !reached(remap@, vertices@.len() as int, p) ==> call_ensures(
                V::default,
                (),
                #[trigger] remapped@[p],
            ),
{
    meshopt::remap_vertex_buffer(vertices, vertices.len(), remap)
}

/// A vertex buffer moved through a remap table: each vertex goes to the place its entry
/// names, unless the entry is `u32::MAX`; the other places hold `V::default()`. `None` where the table is shorter than the
/// buffer or names a place past its end.
pub fn remap_vertices<V: Copy + Default>(vertices: &Vec<V>, remap: &[u32]) -> (remapped: Option<Vec<V>>)
    requires
        0 < size_of::<V>() <= 256,
    ensures
        remapped is Some <==> (vertices@.len() <= remap@.len() && forall|i: int|
            0 <= i < vertices@.len() ==> (#[trigger] remap@[i]) == u32::MAX || remap@[i] < vertices@.len()),
        remapped matches Some(r) ==> {
            &&& r@.len() == vertices@.len()
            &&& forall|i: int|
                0 <= i < vertices@.len() && lands_last(remap@, vertices@.len() as int, i) ==> r@[#[trigger] remap@[i]
                    as int] == vertices@[i]
            &&& forall|p: int|
                0 <= p < vertices@.len() && !reached(remap@, vertices@.len() as int, p) ==> call_ensures(
                    V::default,
                    (),
                    #[trigger] r@[p],
                )
        },
{
    if remap.len() < vertices.len() {
        return None;
    }
    let mut i: usize = 0;
    while i < vertices.len()
        invariant
            i <= vertices@.len() <= remap@.len(),
            forall|q: int| 0 <= q < i ==> (#[trigger] remap@[q]) == u32::MAX || remap@[q] < vertices@.len(),
        decreases vertices.len() - i,
    {
        if remap[i] != u32::MAX && remap[i] as usize >= vertices.len() {
            return None;
        }
        i += 1;
    }
    Some(remap_vertex_buffer_raw(vertices, remap))
}

/// Looking every index up in the first-use remap table numbers the vertices as
/// [`optimize_vertex_fetch`] does: each new index is the place of the old one in the
/// first-use order.
pub proof fn lemma_remap_numbers_by_first_use(indices: Seq<u32>, remap: Seq<u32>, remapped: Seq<u32>)
    requires
        first_use_remap(remap, indices),
        remapped.len() == indices.len(),
        forall|i: int| 0 <= i < indices.len() ==> (#[trigger] indices[i]) < remap.len(),
        forall|i: int| 0 <= i < indices.len() ==> #[trigger] remapped[i] == remap[indices[i] as int],
    ensures
        forall|i: int|
            0 <= i < indices.len() ==> (#[trigger] remapped[i]) < first_use_order(indices).len()
                && first_use_order(indices)[remapped[i] as int] == indices[i],
{
    lemma_first_use_order(indices);
    assert forall|i: int| 0 <= i < indices.len() implies (#[trigger] remapped[i]) < first_use_order(indices).len()
        && first_use_order(indices)[remapped[i] as int] == indices[i] by {
        let v = indices[i] as int;
        assert(first_use_order(indices).contains(indices[i]));
        assert(v as u32 == indices[i]);
        assert(remap[v] < first_use_order(indices).len());
    }
}

/// The triangles a mesh draws, as the vertices of each triangle.
pub open spec fn drawn_triangles<V>(indices: Seq<u32>, vertices: Seq<V>) -> Seq<(V, V, V)> {
    triangles_of(indices).map_values(|t: (u32, u32, u32)| (vertices[t.0 as int], vertices[t.1 as int], vertices[t.2 as int]))
}

proof fn lemma_map_keeps_multiset<A, B>(s1: Seq<A>, s2: Seq<A>, f: spec_fn(A) -> B)
    requires
        s1.to_multiset() == s2.to_multiset(),
    ensures
        s1.map_values(f).to_multiset() == s2.map_values(f).to_multiset(),
    decreases s1.len(),
{
    s1.to_multiset_ensures();
    s2.to_multiset_ensures();
    if s1.len() == 0 {
        assert(s2.len() == 0);
        assert(s1.map_values(f) =~= s2.map_values(f));
    } else {
        let x = s1.last();
        let rest = s1.drop_last();
        assert(rest.push(x) =~= s1);
        rest.to_multiset_ensures();
        assert(s1.to_multiset() =~= rest.to_multiset().insert(x));
        assert(s1.to_multiset().count(x) > 0);
        assert(s2.contains(x));
        let i = choose|i: int| 0 <= i < s2.len() && s2[i] == x;
        let s2r = s2.remove(i);
        assert(s2r.to_multiset() =~= s2.to_multiset().remove(x));
        assert(rest.to_multiset() =~= s2r.to_multiset());
        lemma_map_keeps_multiset(rest, s2r, f);
        let m1 = s1.map_values(f);
        let mr = rest.map_values(f);
        assert(mr.push(f(x)) =~= m1);
        mr.to_multiset_ensures();
        assert(m1.to_multiset() =~= mr.to_multiset().insert(f(x)));
        let m2 = s2.map_values(f);
        let m2r = s2r.map_values(f);
        assert(m2.remove(i) =~= m2r);
        m2.to_multiset_ensures();
        assert(m2r.to_multiset() =~= m2.to_multiset().remove(f(x)));
        assert(m2.to_multiset().count(f(x)) > 0) by {
            assert(m2[i] == f(x));
            assert(m2.contains(f(x)));
        }
        assert(m2.to_multiset() =~= m2r.to_multiset().insert(f(x)));
    }
}

/// Ordering the triangles for the vertex cache and then the vertices for fetching keeps
/// the triangles the mesh draws: the same triangles of vertices, each as many times.
pub proof fn lemma_optimizations_keep_drawn_triangles<V>(
    before: Seq<u32>,
    vertices: Seq<V>,
    cached: Seq<u32>,
    fetched: Seq<u32>,
    reordered: Seq<V>,
)
    requires
        before.len() % 3 == 0,
        cached.len() == before.len(),
        triangles_of(cached).to_multiset() == triangles_of(before).to_multiset(),
        fetched.len() == cached.len(),
        forall|i: int|
            0 <= i < cached.len() ==> (#[trigger] fetched[i]) < reordered.len() && reordered[fetched[i] as int]
                == vertices[cached[i] as int],
    ensures
        drawn_triangles(fetched, reordered).to_multiset() == drawn_triangles(before, vertices).to_multiset(),
{
    let f = |t: (u32, u32, u32)| (vertices[t.0 as int], vertices[t.1 as int], vertices[t.2 as int]);
    lemma_map_keeps_multiset(triangles_of(cached), triangles_of(before), f);
    assert(drawn_triangles(before, vertices) == triangles_of(before).map_values(f));
    let a = drawn_triangles(fetched, reordered);
    let b = drawn_triangles(cached, vertices);
    assert forall|t: int| 0 <= t < a.len() implies a[t] == b[t] by {
        assert(0 <= 3 * t && 3 * t + 2 < cached.len()) by (nonlinear_arith)
            requires
                0 <= t < cached.len() / 3,
        ;
        assert(fetched[3 * t] < reordered.len());
        assert(fetched[3 * t + 1] < reordered.len());
        assert(fetched[3 * t + 2] < reordered.len());
    }
    assert(a =~= b);
    assert(b == triangles_of(cached).map_values(f));
}

/// Moving the vertices and the indices of a mesh through its first-use remap table keeps
/// the triangles it draws, in order, when the indices use every vertex (the table then has
/// a place for each): the new indices over the new vertices draw what the old indices drew
/// over the old vertices.
pub proof fn lemma_first_use_remap_keeps_drawn_triangles<V>(
    indices: Seq<u32>,
    vertices: Seq<V>,
    remap: Seq<u32>,
    new_indices: Seq<u32>,
    new_vertices: Seq<V>,
)
    requires
        vertices.len() <= u32::MAX,
        indices_below(indices, vertices.len() as int),
        first_use_remap(remap, indices),
        remap.len() == vertices.len(),
        new_indices.len() == indices.len(),
        forall|i: int| 0 <= i < indices.len() ==> #[trigger] new_indices[i] == remap[indices[i] as int],
        new_vertices.len() == vertices.len(),
        forall|i: int|
            0 <= i < vertices.len() && lands_last(remap, vertices.len() as int, i) ==> new_vertices[#[trigger] remap[i]
                as int] == vertices[i],
    ensures
        indices_below(new_indices, new_vertices.len() as int),
        drawn_triangles(new_indices, new_vertices) == drawn_triangles(indices, vertices),
{
    let n = vertices.len() as int;
    let order = first_use_order(indices);
    lemma_first_use_order(indices);
    assert forall|k: int| 0 <= k < indices.len() implies (#[trigger] new_indices[k]) < n
        && new_vertices[new_indices[k] as int] == vertices[indices[k] as int] by {
        let v = indices[k] as int;
        assert(order.contains(indices[k]));
        assert(v as u32 == indices[k]);
        assert(remap[v] < order.len() && order[remap[v] as int] == indices[k]);
        assert forall|j: int| v < j < n implies remap[j] != remap[v] by {
            if remap[j] == remap[v] {
                if !order.contains(j as u32) {
                    assert(remap[j] == u32::MAX);
                }
                assert(order[remap[j] as int] == j as u32);
            }
        }
        assert(lands_last(remap, n, v));
    }
    let a = drawn_triangles(new_indices, new_vertices);
    let b = drawn_triangles(indices, vertices);
    assert forall|t: int| 0 <= t < a.len() implies a[t] == b[t] by {
        assert(0 <= 3 * t && 3 * t + 2 < indices.len()) by (nonlinear_arith)
            requires
                0 <= t < indices.len() / 3,
        ;
        assert(new_indices[3 * t] < n);
        assert(new_indices[3 * t + 1] < n);
        assert(new_indices[3 * t + 2] < n);
    }
    assert(a =~= b);
}

/// The whole preparation of a mesh whose indices use every vertex keeps the triangles it
/// draws: renumbering by first use ([`optimize_vertex_fetch_remap`], [`remap_indices`],
/// [`remap_vertices`]), then ordering the triangles for the vertex cache and the vertices
/// for fetching, leaves the same triangles of vertices, each as many times.
pub proof fn lemma_mesh_preparation_keeps_drawn_triangles<V>(
    indices: Seq<u32>,
    vertices: Seq<V>,
    remap: Seq<u32>,
    remapped_indices: Seq<u32>,
    remapped_vertices: Seq<V>,
    cached: Seq<u32>,
    fetched: Seq<u32>,
    reordered: Seq<V>,
)
    requires
        indices.len() % 3 == 0,
        vertices.len() <= u32::MAX,
        indices_below(indices, vertices.len() as int),
        first_use_remap(remap, indices),
        remap.len() == vertices.len(),
        remapped_indices.len() == indices.len(),
        forall|i: int| 0 <= i < indices.len() ==> #[trigger] remapped_indices[i] == remap[indices[i] as int],
        remapped_vertices.len() == vertices.len(),
        forall|i: int|
            0 <= i < vertices.len() && lands_last(remap, vertices.len() as int, i) ==> remapped_vertices[#[trigger] remap[i]
                as int] == vertices[i],
        cached.len() == remapped_indices.len(),
        triangles_of(cached).to_multiset() == triangles_of(remapped_indices).to_multiset(),
        fetched.len() == cached.len(),
        forall|i: int|
            0 <= i < cached.len() ==> (#[trigger] fetched[i]) < reordered.len() && reordered[fetched[i] as int]
                == remapped_vertices[cached[i] as int],
    ensures
        drawn_triangles(fetched, reordered).to_multiset() == drawn_triangles(indices, vertices).to_multiset(),
{
    lemma_first_use_remap_keeps_drawn_triangles(indices, vertices, remap, remapped_indices, remapped_vertices);
    lemma_optimizations_keep_drawn_triangles(remapped_indices, remapped_vertices, cached, fetched, reordered);
}

/// The place of each index in the first-use order of its list.
pub open spec fn first_use_positions(indices: Seq<u32>) -> Seq<u32> {
    Seq::new(indices.len(), |i: int| first_use_order(indices).index_of(indices[i]) as u32)
}

/// An index list whose every entry names its place in the first-use order is the list of
/// first-use positions.
proof fn lemma_first_use_positions(indices: Seq<u32>, renumbered: Seq<u32>)
    requires
        renumbered.len() == indices.len(),
        forall|i: int|
            0 <= i < indices.len() ==> (#[trigger] renumbered[i]) < first_use_order(indices).len()
                && first_use_order(indices)[renumbered[i] as int] == indices[i],
    ensures
        renumbered == first_use_positions(indices),
{
    let order = first_use_order(indices);
    lemma_first_use_order(indices);
    assert forall|i: int| 0 <= i < indices.len() implies renumbered[i] == first_use_positions(indices)[i] by {
        assert(order[renumbered[i] as int] == indices[i]);
        assert(order.contains(indices[i]));
        let j = order.index_of(indices[i]);
        assert(0 <= j < order.len() && order[j] == indices[i]);
        assert(j == renumbered[i] as int);
    }
    assert(renumbered =~= first_use_positions(indices));
}

/// Where the indices use every vertex, the first-use remap table sends each vertex to its
/// place in the first-use order, and no other vertex goes there.
proof fn lemma_used_vertex_lands(indices: Seq<u32>, remap: Seq<u32>, p: int)
    requires
        first_use_remap(remap, indices),
        remap.len() <= u32::MAX,
        indices_below(indices, remap.len() as int),
        0 <= p < remap.len(),
    ensures
        (first_use_order(indices)[p] as int) < remap.len(),
        remap[first_use_order(indices)[p] as int] == p,
        lands_last(remap, remap.len() as int, first_use_order(indices)[p] as int),
{
    let order = first_use_order(indices);
    let n = remap.len() as int;
    lemma_first_use_order(indices);
    let v = order[p] as int;
    let k = choose|k: int| 0 <= k < indices.len() && indices[k] == order[p];
    assert(v < n);
    assert(order.contains(v as u32)) by {
        assert(order[p] == v as u32);
    }
    assert(order[remap[v] as int] == order[p]);
    assert(remap[v] == p);
    assert forall|j: int| v < j < n implies remap[j] != remap[v] by {
        if remap[j] == remap[v] {
            if !order.contains(j as u32) {
                assert(remap[j] == u32::MAX);
            }
            assert(order[remap[j] as int] == j as u32);
        }
    }
}

/// A mesh renumbered by first use and then ordered for the vertex cache and for fetching.
pub struct PreparedMesh<V> {
    /// The vertex buffer renumbered by first use, before the two orderings.
    pub remapped_vertices: Vec<V>,
    /// The final index list.
    pub indices: Vec<u32>,
    /// The final vertex buffer.
    pub vertices: Vec<V>,
}

/// A triangle list over `vertex_count` vertices, each index naming one of them, that uses
/// every vertex and whose vertex count fits a 32-bit index.
pub open spec fn preparable(indices: Seq<u32>, vertex_count: int) -> bool {
    &&& indices.len() % 3 == 0
    &&& vertex_count <= u32::MAX
    &&& indices_below(indices, vertex_count)
    &&& first_use_order(indices).len() == vertex_count
}

/// Prepares a mesh for drawing: renumbers its vertices by first use
/// ([`optimize_vertex_fetch_remap`], [`remap_indices`], [`remap_vertices`]), orders its
/// triangles for the vertex cache and its vertices for fetching. `None` where the mesh is
/// not [`preparable`]. The prepared mesh draws the same triangles, each as many times.
pub fn prepare_mesh<V: Copy + Default>(indices: &Vec<u32>, vertices: &Vec<V>) -> (prepared: Option<PreparedMesh<V>>)
    requires
        0 < size_of::<V>() <= 256,
    ensures
        prepared is Some <==> preparable(indices@, vertices@.len() as int),
        prepared matches Some(p) ==> {
            let cached = vertex_cache_order(first_use_positions(indices@), vertices.len());
            &&& p.remapped_vertices@ == first_use_order(indices@).map_values(|v: u32| vertices@[v as int])
            &&& p.indices@ == first_use_positions(cached)
            &&& p.vertices@ == first_use_order(cached).map_values(|v: u32| p.remapped_vertices@[v as int])
            &&& drawn_triangles(p.indices@, p.vertices@).to_multiset() == drawn_triangles(
                indices@,
                vertices@,
            ).to_multiset()
        },
{
    let n = vertices.len();
    if indices.len() % 3 != 0 || n > 0xFFFF_FFFF {
        return None;
    }
    let mut i: usize = 0;
    while i < indices.len()
        invariant
            i <= indices@.len(),
            n == vertices@.len(),
            forall|q: int| 0 <= q < i ==> (#[trigger] indices@[q]) < n,
        decreases indices.len() - i,
    {
        if indices[i] as usize >= n {
            assert(indices@[i as int] >= n);
            return None;
        }
        i += 1;
    }
    let remap = optimize_vertex_fetch_remap(indices.as_slice(), n);
    if remap.len() != n {
        return None;
    }
    let ghost order = first_use_order(indices@);
    proof {
        lemma_first_use_order(indices@);
        assert forall|q: int| 0 <= q < indices@.len() implies (#[trigger] indices@[q]) < remap@.len()
            && remap@[indices@[q] as int] != u32::MAX by {
            let v = indices@[q] as int;
            assert(order.contains(indices@[q]));
            assert(v as u32 == indices@[q]);
            assert(remap@[v] < order.len());
        }
        assert forall|q: int| 0 <= q < n implies (#[trigger] remap@[q]) == u32::MAX || remap@[q] < n by {
            if order.contains(q as u32) {
                assert(remap@[q] < order.len());
            }
        }
    }
    let renumbered = match remap_indices(indices.as_slice(), remap.as_slice()) {
        Some(r) => r,
        None => {
            return None;
        },
    };
    let remapped_vertices = match remap_vertices(vertices, remap.as_slice()) {
        Some(r) => r,
        None => {
            return None;
        },
    };
    proof {
        assert forall|q: int| 0 <= q < indices@.len() implies (#[trigger] renumbered@[q]) < order.len()
            && order[renumbered@[q] as int] == indices@[q] by {
            let v = indices@[q] as int;
            assert(order.contains(indices@[q]));
            assert(v as u32 == indices@[q]);
        }
        lemma_first_use_positions(indices@, renumbered@);
        assert forall|q: int| 0 <= q < n implies remapped_vertices@[q] == vertices@[order[q] as int] by {
            lemma_used_vertex_lands(indices@, remap@, q);
            let v = order[q] as int;
            assert(remapped_vertices@[remap@[v] as int] == vertices@[v]);
        }
        assert(remapped_vertices@ =~= order.map_values(|v: u32| vertices@[v as int]));
        assert(indices_below(renumbered@, n as int));
    }
    let mut cached = renumbered;
    optimize_vertex_cache(&mut cached, n);
    proof {
        lemma_reordered_triangles_stay_in_range(renumbered@, cached@, n as int);
    }
    let ghost cached_view = cached@;
    let mut fetched = cached;
    let reordered = optimize_vertex_fetch(&mut fetched, &remapped_vertices);
    proof {
        lemma_first_use_positions(cached_view, fetched@);

        lemma_mesh_preparation_keeps_drawn_triangles(
            indices@,
            vertices@,
            remap@,
            renumbered@,
            remapped_vertices@,
            cached_view,
            fetched@,
            reordered@,
        );
    }
    Some(PreparedMesh { remapped_vertices, indices: fetched, vertices: reordered })
}

} // verus!
