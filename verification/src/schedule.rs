//! Execution planning: a topological order of a graph's nodes by Kahn's
//! algorithm, or the proof that none exists.

use vstd::prelude::*;
use crate::text::{lemma_seq_less_transitive, seq_less, str_less};

verus! {

/// Every edge joins two of the `n` vertices.
pub open spec fn edges_in_range(n: nat, edges: Seq<(usize, usize)>) -> bool {
    forall|k: int| 0 <= k < edges.len() ==> (#[trigger] edges[k]).0 < n && edges[k].1 < n
}

/// `ord` lists each of the `n` vertices once, and every edge runs forward in it.
pub open spec fn is_topo_order(n: nat, edges: Seq<(usize, usize)>, ord: Seq<usize>) -> bool {
    &&& ord.len() == n
    &&& ord.no_duplicates()
    &&& forall|i: int| 0 <= i < ord.len() ==> #[trigger] ord[i] < n
    &&& forall|v: usize| v < n ==> #[trigger] ord.contains(v)
    &&& forall|k: int, i: int, j: int|
        #![trigger edges[k], ord[i], ord[j]]
        0 <= k < edges.len() && 0 <= i < ord.len() && 0 <= j < ord.len() && ord[i] == edges[k].0
            && ord[j] == edges[k].1 ==> i < j
}

/// The graph is acyclic: some order runs every edge forward.
pub open spec fn has_topo_order(n: nat, edges: Seq<(usize, usize)>) -> bool {
    exists|ord: Seq<usize>| is_topo_order(n, edges, ord)
}

/// The number of edges into `v` whose source is not in `done`.
pub open spec fn in_count(edges: Seq<(usize, usize)>, v: usize, done: Set<usize>) -> nat
    decreases edges.len(),
{
    if edges.len() == 0 {
        0
    } else {
        in_count(edges.drop_last(), v, done) + if edges.last().1 == v && !done.contains(
            edges.last().0,
        ) {
            1nat
        } else {
            0nat
        }
    }
}

/// The targets of the edges out of `u`, in edge order.
pub open spec fn adjacent(edges: Seq<(usize, usize)>, u: usize) -> Seq<usize>
    decreases edges.len(),
{
    if edges.len() == 0 {
        Seq::empty()
    } else if edges.last().0 == u {
        adjacent(edges.drop_last(), u).push(edges.last().1)
    } else {
        adjacent(edges.drop_last(), u)
    }
}

/// The number of times `v` occurs in `s`.
pub open spec fn occ(s: Seq<usize>, v: usize) -> nat
    decreases s.len(),
{
    if s.len() == 0 {
        0
    } else {
        occ(s.drop_last(), v) + if s.last() == v {
            1nat
        } else {
            0nat
        }
    }
}

proof fn lemma_occ_push(s: Seq<usize>, x: usize, v: usize)
    ensures
        occ(s.push(x), v) == occ(s, v) + if x == v {
            1nat
        } else {
            0nat
        },
{
    assert(s.push(x).drop_last() =~= s);
}

proof fn lemma_occ_front(x: usize, t: Seq<usize>, v: usize)
    ensures
        occ(seq![x] + t, v) == occ(t, v) + if x == v {
            1nat
        } else {
            0nat
        },
    decreases t.len(),
{
    if t.len() == 0 {
        assert(seq![x] + t =~= seq![x]);
        assert(seq![x].drop_last() =~= Seq::<usize>::empty());
        assert(seq![x].last() == x);
        assert(occ(Seq::<usize>::empty(), v) == 0);
    } else {
        lemma_occ_front(x, t.drop_last(), v);
        assert((seq![x] + t).drop_last() =~= seq![x] + t.drop_last());
        assert((seq![x] + t).last() == t.last());
    }
}

proof fn lemma_occ_suffix(s: Seq<usize>, k: int, v: usize)
    requires
        0 <= k < s.len(),
    ensures
        occ(s.subrange(k, s.len() as int), v) == occ(s.subrange(k + 1, s.len() as int), v) + if s[k]
            == v {
            1nat
        } else {
            0nat
        },
{
    assert(s.subrange(k, s.len() as int) =~= seq![s[k]] + s.subrange(k + 1, s.len() as int));
    lemma_occ_front(s[k], s.subrange(k + 1, s.len() as int), v);
}

proof fn lemma_occ_positive(s: Seq<usize>, v: usize)
    requires
        occ(s, v) > 0,
    ensures
        s.contains(v),
    decreases s.len(),
{
    if s.last() != v {
        lemma_occ_positive(s.drop_last(), v);
        let i = choose|i: int| 0 <= i < s.drop_last().len() && s.drop_last()[i] == v;
        assert(s[i] == v);
    } else {
        assert(s[s.len() - 1] == v);
    }
}

proof fn lemma_adjacent_witness(edges: Seq<(usize, usize)>, u: usize, j: int)
    requires
        0 <= j < adjacent(edges, u).len(),
    ensures
        exists|e: int| 0 <= e < edges.len() && (#[trigger] edges[e]).0 == u && edges[e].1 == adjacent(edges, u)[j],
    decreases edges.len(),
{
    let t = edges.drop_last();
    if edges.last().0 == u && j == adjacent(t, u).len() {
        assert(edges[edges.len() - 1] == edges.last());
    } else {
        lemma_adjacent_witness(t, u, j);
        let e = choose|e: int| 0 <= e < t.len() && (#[trigger] t[e]).0 == u && t[e].1 == adjacent(t, u)[j];
        assert(edges[e] == t[e]);
    }
}

/// Marking `u` done removes from the count of `v` exactly the edges `u -> v`.
proof fn lemma_in_count_mark(edges: Seq<(usize, usize)>, v: usize, done: Set<usize>, u: usize)
    requires
        !done.contains(u),
    ensures
        in_count(edges, v, done) == in_count(edges, v, done.insert(u)) + occ(adjacent(edges, u), v),
    decreases edges.len(),
{
    if edges.len() > 0 {
        lemma_in_count_mark(edges.drop_last(), v, done, u);
        if edges.last().0 == u {
            lemma_occ_push(adjacent(edges.drop_last(), u), edges.last().1, v);
        }
    }
}

/// The count is positive exactly when some edge into `v` has its source outside `done`.
proof fn lemma_in_count_witness(edges: Seq<(usize, usize)>, v: usize, done: Set<usize>)
    ensures
        in_count(edges, v, done) > 0 <==> exists|k: int|
            0 <= k < edges.len() && (#[trigger] edges[k]).1 == v && !done.contains(edges[k].0),
    decreases edges.len(),
{
    if edges.len() > 0 {
        let t = edges.drop_last();
        lemma_in_count_witness(t, v, done);
        if exists|k: int| 0 <= k < t.len() && (#[trigger] t[k]).1 == v && !done.contains(t[k].0) {
            let k = choose|k: int| 0 <= k < t.len() && (#[trigger] t[k]).1 == v && !done.contains(t[k].0);
            assert(edges[k] == t[k]);
        }
        if exists|k: int| 0 <= k < edges.len() && (#[trigger] edges[k]).1 == v && !done.contains(edges[k].0) {
            let k = choose|k: int| 0 <= k < edges.len() && (#[trigger] edges[k]).1 == v && !done.contains(edges[k].0);
            if k < t.len() {
                assert(t[k] == edges[k]);
            }
        }
    }
}

proof fn lemma_in_count_bound(edges: Seq<(usize, usize)>, v: usize, done: Set<usize>)
    ensures
        in_count(edges, v, done) <= edges.len(),
    decreases edges.len(),
{
    if edges.len() > 0 {
        lemma_in_count_bound(edges.drop_last(), v, done);
    }
}

/// The values below `n` form a set of `n` elements.
proof fn lemma_below_set(n: nat)
    requires
        n <= usize::MAX + 1,
    ensures
        Set::new(|v: usize| v < n).finite(),
        Set::new(|v: usize| v < n).len() == n,
    decreases n,
{
    if n == 0 {
        assert(Set::new(|v: usize| v < n) =~= Set::<usize>::empty());
    } else {
        lemma_below_set((n - 1) as nat);
        let m = (n - 1) as usize;
        assert(Set::new(|v: usize| v < n) =~= Set::new(|v: usize| v < (n - 1) as nat).insert(m));
    }
}

/// A sequence without duplicates whose elements are below `n` has at most `n` elements,
/// and exactly `n` only if it holds every value below `n`.
proof fn lemma_distinct_below(s: Seq<usize>, n: nat)
    requires
        n <= usize::MAX + 1,
        s.no_duplicates(),
        forall|i: int| 0 <= i < s.len() ==> #[trigger] s[i] < n,
    ensures
        s.len() <= n,
        s.len() == n ==> forall|v: usize| v < n ==> #[trigger] s.contains(v),
        (forall|v: usize| v < n ==> #[trigger] s.contains(v)) ==> s.len() == n,
{
    let r = Set::new(|v: usize| v < n);
    lemma_below_set(n);
    s.unique_seq_to_set();
    assert(s.to_set().subset_of(r));
    vstd::set_lib::lemma_len_subset(s.to_set(), r);
    if forall|v: usize| v < n ==> #[trigger] s.contains(v) {
        assert(r.subset_of(s.to_set()));
        vstd::set_lib::lemma_len_subset(r, s.to_set());
    }
    if s.len() == n {
        vstd::set_lib::lemma_subset_equality(s.to_set(), r);
        assert forall|v: usize| v < n implies #[trigger] s.contains(v) by {
            assert(r.contains(v));
            assert(s.to_set().contains(v));
        }
    }
}

/// No element of `s` has a smaller id than an element before it.
pub open spec fn sorted_by_id(ids: Seq<Seq<char>>, s: Seq<usize>) -> bool {
    forall|a: int, b: int| 0 <= a < b < s.len() ==> !seq_less(ids[s[b] as int], ids[s[a] as int])
}

proof fn lemma_insert_sorted(ids: Seq<Seq<char>>, before: Seq<usize>, p: int, x: usize)
    requires
        0 <= p <= before.len(),
        sorted_by_id(ids, before),
        forall|q: int| 0 <= q < p ==> !seq_less(ids[x as int], ids[#[trigger] before[q] as int]),
        p < before.len() ==> seq_less(ids[x as int], ids[before[p] as int]),
    ensures
        sorted_by_id(ids, before.insert(p, x)),
{
    let r = before.insert(p, x);
    before.insert_ensures(p, x);
    assert forall|a: int, b: int| 0 <= a < b < r.len() implies !seq_less(ids[r[b] as int], ids[r[a] as int]) by {
        if a == p {
            // r[b] == before[b - 1], which does not come before before[p], which x precedes
            if seq_less(ids[r[b] as int], ids[x as int]) {
                assert(r[b] == before[b - 1]);
                if b - 1 > p {
                    assert(!seq_less(ids[before[b - 1] as int], ids[before[p] as int]));
                }
                lemma_seq_less_transitive(ids[r[b] as int], ids[x as int], ids[before[p] as int]);
            }
        } else if b == p {
            assert(r[a] == before[a]);
        } else {
            let a0 = if a < p { a } else { a - 1 };
            let b0 = if b < p { b } else { b - 1 };
            assert(r[a] == before[a0]);
            assert(r[b] == before[b0]);
        }
    }
}

/// The position at which `x` enters `r` when `r` is kept in id order: before
/// the first element, from `p` on, whose id comes after the id of `x`.
pub open spec fn insert_position(ids: Seq<Seq<char>>, r: Seq<usize>, x: usize, p: int) -> int
    decreases r.len() - p,
{
    if p < 0 || p >= r.len() {
        r.len() as int
    } else if seq_less(ids[x as int], ids[r[p] as int]) {
        p
    } else {
        insert_position(ids, r, x, p + 1)
    }
}

/// The elements of `vs` in id order, equal ids in the order of `vs`.
pub open spec fn seed_order(ids: Seq<Seq<char>>, vs: Seq<usize>) -> Seq<usize>
    decreases vs.len(),
{
    if vs.len() == 0 {
        Seq::empty()
    } else {
        let r = seed_order(ids, vs.drop_last());
        r.insert(insert_position(ids, r, vs.last(), 0), vs.last())
    }
}

/// A sorted copy of `vs` by the ids of its elements (so that the vertices with no
/// incoming edge are started in the order of their ids).
#[verifier::spinoff_prover]
#[verifier::rlimit(40)]
fn sort_by_id(ids: &Vec<String>, vs: Vec<usize>) -> (r: Vec<usize>)
    requires
        forall|i: int| 0 <= i < vs.len() ==> #[trigger] vs@[i] < ids.len(),
    ensures
        r.len() == vs.len(),
        forall|x: usize| #[trigger] r@.contains(x) <==> vs@.contains(x),
        vs@.no_duplicates() ==> r@.no_duplicates(),
        sorted_by_id(ids.deep_view(), r@),
        r@ == seed_order(ids.deep_view(), vs@),
{
    let mut r: Vec<usize> = Vec::new();
    let mut i: usize = 0;
    while i < vs.len()
        invariant
            i <= vs.len(),
            r.len() == i,
            forall|x: usize| #[trigger] r@.contains(x) <==> vs@.take(i as int).contains(x),
            vs@.no_duplicates() ==> r@.no_duplicates(),
            sorted_by_id(ids.deep_view(), r@),
            r@ == seed_order(ids.deep_view(), vs@.take(i as int)),
            forall|j: int| 0 <= j < r.len() ==> #[trigger] r@[j] < ids.len(),
            forall|j: int| 0 <= j < vs.len() ==> #[trigger] vs@[j] < ids.len(),
        decreases vs.len() - i,
    {
        let x = vs[i];
        let mut p: usize = 0;
        while p < r.len() && !str_less(ids[x].as_str(), ids[r[p]].as_str())
            invariant
                p <= r.len(),
                x < ids.len(),
                forall|j: int| 0 <= j < r.len() ==> #[trigger] r@[j] < ids.len(),
                forall|q: int| 0 <= q < p ==> !seq_less(ids.deep_view()[x as int], ids.deep_view()[#[trigger] r@[q] as int]),
                insert_position(ids.deep_view(), r@, x, 0) == insert_position(ids.deep_view(), r@, x, p as int),
            decreases r.len() - p,
        {
            p = p + 1;
        }
        let ghost before = r@;
        proof {
            assert(vs@.take(i as int + 1).drop_last() =~= vs@.take(i as int));
            assert(vs@.take(i as int + 1).last() == x);
            if p < r.len() {
                assert(seq_less(ids.deep_view()[x as int], ids.deep_view()[r@[p as int] as int]));
            }
            lemma_insert_sorted(ids.deep_view(), before, p as int, x);
        }
        r.insert(p, x);
        proof {
            before.insert_ensures(p as int, x);
            assert(vs@.take(i as int + 1) =~= vs@.take(i as int).push(x));
            assert forall|y: usize| #[trigger] r@.contains(y) <==> vs@.take(i as int + 1).contains(y) by {
                vstd::seq_lib::lemma_seq_contains_after_push(vs@.take(i as int), x, y);
                if r@.contains(y) {
                    let j = choose|j: int| 0 <= j < r@.len() && r@[j] == y;
                    if j < p {
                        assert(before[j] == y);
                    } else if j > p {
                        assert(before[j - 1] == y);
                    }
                }
                if before.contains(y) {
                    let j = choose|j: int| 0 <= j < before.len() && before[j] == y;
                    if j < p {
                        assert(r@[j] == y);
                    } else {
                        assert(r@[j + 1] == y);
                    }
                }
                if y == x {
                    assert(r@[p as int] == y);
                }
            }
            if vs@.no_duplicates() {
                assert(!vs@.take(i as int).contains(x)) by {
                    if vs@.take(i as int).contains(x) {
                        let j = choose|j: int| 0 <= j < i && vs@.take(i as int)[j] == x;
                        assert(vs@[j] == vs@[i as int]);
                    }
                }
                assert(!before.contains(x));
                assert forall|a: int, b: int| 0 <= a < b < r@.len() implies r@[a] != r@[b] by {
                    if a == p {
                        if b > p { assert(before.contains(before[b - 1])); }
                    } else if b == p {
                        assert(before.contains(before[a]));
                    } else {
                        let a0 = if a < p { a } else { a - 1 };
                        let b0 = if b < p { b } else { b - 1 };
                        assert(r@[a] == before[a0]);
                        assert(r@[b] == before[b0]);
                    }
                }
            }
            assert forall|j: int| 0 <= j < r.len() implies #[trigger] r@[j] < ids.len() by {
                if j < p {
                    assert(r@[j] == before[j]);
                } else if j > p {
                    assert(r@[j] == before[j - 1]);
                }
            }
        }
        i = i + 1;
    }
    assert(vs@.take(vs.len() as int) =~= vs@);
    r
}

/// The vertices below `k` with no incoming edge, in increasing order.
pub open spec fn sources_below(es: Seq<(usize, usize)>, k: nat) -> Seq<usize>
    decreases k,
{
    if k == 0 {
        Seq::empty()
    } else {
        let rest = sources_below(es, (k - 1) as nat);
        if in_count(es, (k - 1) as usize, Set::empty()) == 0 {
            rest.push((k - 1) as usize)
        } else {
            rest
        }
    }
}

/// The stack after the edges out of a vertex whose targets are `a` are
/// discharged, `done` being the vertices taken so far: each target is pushed
/// when its last incoming edge from outside `done` goes.
pub open spec fn discharge(es: Seq<(usize, usize)>, done: Set<usize>, stack: Seq<usize>, a: Seq<usize>) -> Seq<usize>
    decreases a.len(),
{
    if a.len() == 0 {
        stack
    } else {
        let w = a[0];
        let rest = a.subrange(1, a.len() as int);
        let next = if in_count(es, w, done) + occ(rest, w) == 0 {
            stack.push(w)
        } else {
            stack
        };
        discharge(es, done, next, rest)
    }
}

/// One step of Kahn's algorithm on (stack, taken so far): the vertex on top
/// of the stack is taken and its edges discharged.
pub open spec fn kahn_step(es: Seq<(usize, usize)>, st: (Seq<usize>, Seq<usize>)) -> (Seq<usize>, Seq<usize>) {
    if st.0.len() == 0 {
        st
    } else {
        let u = st.0.last();
        let out = st.1.push(u);
        (discharge(es, out.to_set(), st.0.drop_last(), adjacent(es, u)), out)
    }
}

/// The state after `k` steps from `st`.
pub open spec fn kahn_iter(es: Seq<(usize, usize)>, st: (Seq<usize>, Seq<usize>), k: nat) -> (Seq<usize>, Seq<usize>)
    decreases k,
{
    if k == 0 {
        st
    } else {
        kahn_step(es, kahn_iter(es, st, (k - 1) as nat))
    }
}

/// The vertices in the order Kahn's algorithm takes them: the stack starts
/// with the vertices that nothing points to, in the order of their ids.
pub open spec fn kahn_spec(ids: Seq<Seq<char>>, es: Seq<(usize, usize)>) -> Seq<usize> {
    let start = seed_order(ids, sources_below(es, ids.len()));
    kahn_iter(es, (start, Seq::empty()), ids.len()).1
}

/// A topological order of the vertices `0..ids.len()` under `edges`, found by
/// Kahn's algorithm: the vertices with no incoming edge start on a stack in the
/// order of their ids, the vertex on top is taken, and each vertex whose last
/// incoming edge is thereby discharged is pushed. The order found is the one
/// `kahn_spec` describes; `None` exactly when no topological order exists.
pub fn kahn_order(ids: &Vec<String>, edges: &Vec<(usize, usize)>) -> (r: Option<Vec<usize>>)
    requires
        edges_in_range(ids.len() as nat, edges@),
    ensures
        r matches Some(ord) ==> is_topo_order(ids.len() as nat, edges@, ord@),
        r matches Some(ord) ==> ord@ == kahn_spec(ids.deep_view(), edges@),
        r is None ==> !has_topo_order(ids.len() as nat, edges@),
{
    let n = ids.len();
    let ghost es = edges@;
    // In-degrees and adjacency lists.
    let mut indeg: Vec<usize> = Vec::new();
    let mut adj: Vec<Vec<usize>> = Vec::new();
    let mut v: usize = 0;
    while v < n
        invariant
            v <= n,
            indeg.len() == v,
            adj.len() == v,
            forall|w: int| 0 <= w < v ==> #[trigger] indeg@[w] == 0,
            forall|w: int| 0 <= w < v ==> (#[trigger] adj@[w])@ == Seq::<usize>::empty(),
        decreases n - v,
    {
        indeg.push(0);
        adj.push(Vec::new());
        v = v + 1;
    }
    let mut k: usize = 0;
    while k < edges.len()
        invariant
            k <= edges.len(),
            es == edges@,
            n == ids.len(),
            edges_in_range(n as nat, es),
            indeg.len() == n,
            adj.len() == n,
            forall|w: usize| w < n ==> #[trigger] indeg@[w as int] == in_count(es.take(k as int), w, Set::empty()),
            forall|w: usize| w < n ==> (#[trigger] adj@[w as int])@ == adjacent(es.take(k as int), w),
        decreases edges.len() - k,
    {
        let (src, dst) = edges[k];
        assert(es[k as int] == (src, dst));
        assert(es.take(k as int + 1).drop_last() =~= es.take(k as int));
        proof {
            lemma_in_count_bound(es.take(k as int), dst, Set::empty());
        }
        let d = indeg[dst];
        indeg.set(dst, d + 1);
        let mut list: Vec<usize> = Vec::new();
        std::mem::swap(&mut list, &mut adj[src]);
        list.push(dst);
        adj.set(src, list);
        k = k + 1;
    }
    assert(es.take(es.len() as int) =~= es);
    // The vertices that nothing points to, in the order of their ids.
    let mut zero: Vec<usize> = Vec::new();
    let mut v: usize = 0;
    while v < n
        invariant
            v <= n,
            n == ids.len(),
            indeg.len() == n,
            forall|j: int| 0 <= j < zero.len() ==> #[trigger] zero@[j] < v,
            zero@.no_duplicates(),
            forall|w: usize| #[trigger] zero@.contains(w) <==> (w < v && indeg@[w as int] == 0),
            es == edges@,
            forall|w: usize| w < n ==> #[trigger] indeg@[w as int] == in_count(es, w, Set::empty()),
            zero@ == sources_below(es, v as nat),
        decreases n - v,
    {
        assert(indeg@[v as int] == in_count(es, v, Set::empty()));
        if indeg[v] == 0 {
            let ghost before = zero@;
            assert(forall|w: usize| #[trigger] before.contains(w) <==> (w < v && indeg@[w as int] == 0));
            zero.push(v);
            proof {
                assert forall|w: usize| #[trigger] zero@.contains(w) <==> (w < v + 1 && indeg@[w as int] == 0) by {
                    vstd::seq_lib::lemma_seq_contains_after_push(before, v, w);
                }
                assert forall|p: int, q: int| 0 <= p < q < zero@.len() implies zero@[p] != zero@[q] by {
                    if q == before.len() {
                        assert(before[p] < v);
                    }
                }
            }
        }
        v = v + 1;
    }
    let mut queue = sort_by_id(ids, zero);
    let ghost start = queue@;
    assert(start == seed_order(ids.deep_view(), sources_below(es, ids.len() as nat)));
    assert(kahn_iter(es, (start, Seq::empty()), 0) == (start, Seq::<usize>::empty()));
    assert forall|j: int| 0 <= j < queue.len() implies #[trigger] queue@[j] < n by {
        assert(queue@.contains(queue@[j]));
    }
    assert forall|w: usize| #[trigger] queue@.contains(w) implies indeg@[w as int] == 0 by {
        assert(zero@.contains(w));
    }
    assert forall|w: usize| w < n && #[trigger] indeg@[w as int] == 0 implies queue@.contains(w) by {
        assert(zero@.contains(w));
    }
    let mut sorted: Vec<usize> = Vec::new();
    let ghost mut done: Set<usize> = Set::empty();
    while queue.len() > 0
        invariant
            n == ids.len(),
            es == edges@,
            edges_in_range(n as nat, es),
            indeg.len() == n,
            adj.len() == n,
            forall|w: usize| w < n ==> (#[trigger] adj@[w as int])@ == adjacent(es, w),
            forall|w: usize| w < n ==> #[trigger] indeg@[w as int] == in_count(es, w, done),
            sorted@.no_duplicates(),
            forall|j: int| 0 <= j < sorted.len() ==> #[trigger] sorted@[j] < n,
            forall|w: usize| #[trigger] done.contains(w) <==> sorted@.contains(w),
            sorted.len() <= n,
            queue@.no_duplicates(),
            forall|j: int| 0 <= j < queue.len() ==> #[trigger] queue@[j] < n,
            forall|w: usize| #[trigger] queue@.contains(w) ==> !done.contains(w) && indeg@[w as int] == 0,
            forall|w: usize| w < n && !done.contains(w) && #[trigger] indeg@[w as int] == 0 ==> queue@.contains(w),
            forall|w: usize| #[trigger] done.contains(w) ==> in_count(es, w, done) == 0,
            forall|e: int, j: int|
                #![trigger es[e], sorted@[j]]
                0 <= e < es.len() && 0 <= j < sorted.len() && sorted@[j] == es[e].1 ==> exists|i: int|
                    0 <= i < j && sorted@[i] == es[e].0,
            queue@ == kahn_iter(es, (start, Seq::empty()), sorted.len() as nat).0,
            sorted@ == kahn_iter(es, (start, Seq::empty()), sorted.len() as nat).1,
        decreases n - sorted.len(),
    {
        let ghost q0 = queue@;
        let u = queue.pop().unwrap();
        let ghost old_done = done;
        let ghost s_before = sorted@;
        proof {
            assert(q0[q0.len() - 1] == u);
            assert(q0.contains(u));
            assert(queue@ =~= q0.drop_last());
            assert(!done.contains(u));
            assert(in_count(es, u, done) == 0);
            lemma_in_count_witness(es, u, done);
        }
        sorted.push(u);
        proof {
            done = done.insert(u);
            assert forall|w: usize| #[trigger] done.contains(w) <==> sorted@.contains(w) by {
                if w == u {
                    assert(sorted@[s_before.len() as int] == u);
                }
                if sorted@.contains(w) && w != u {
                    let j = choose|j: int| 0 <= j < sorted@.len() && sorted@[j] == w;
                    assert(s_before[j] == w);
                }
                if s_before.contains(w) {
                    let j = choose|j: int| 0 <= j < s_before.len() && s_before[j] == w;
                    assert(sorted@[j] == w);
                }
            }
            assert(sorted@.no_duplicates()) by {
                assert forall|a: int, b: int| 0 <= a < b < sorted@.len() implies sorted@[a] != sorted@[b] by {
                    if b == s_before.len() {
                        assert(s_before.contains(s_before[a]));
                    }
                }
            }
            lemma_distinct_below(sorted@, n as nat);
            assert forall|e: int, j: int|
                #![trigger es[e], sorted@[j]]
                0 <= e < es.len() && 0 <= j < sorted.len() && sorted@[j] == es[e].1 implies exists|i: int|
                    0 <= i < j && sorted@[i] == es[e].0 by {
                if j < s_before.len() {
                    assert(s_before[j] == sorted@[j]);
                    let i = choose|i: int| 0 <= i < j && s_before[i] == es[e].0;
                    assert(sorted@[i] == es[e].0);
                } else {
                    assert(old_done.contains(es[e].0));
                    let i = choose|i: int| 0 <= i < s_before.len() && s_before[i] == es[e].0;
                    assert(sorted@[i] == es[e].0);
                }
            }
            assert forall|w: usize| w < n implies #[trigger] in_count(es, w, old_done)
                == in_count(es, w, done) + occ(adjacent(es, u), w) by {
                lemma_in_count_mark(es, w, old_done, u);
            }
            assert forall|w: usize| #[trigger] done.contains(w) implies in_count(es, w, done) == 0 by {
                lemma_in_count_mark(es, w, old_done, u);
            }
            assert forall|w: usize| #[trigger] queue@.contains(w) implies !done.contains(w) && indeg@[w as int] == 0 by {
                let j = choose|j: int| 0 <= j < queue@.len() && queue@[j] == w;
                assert(q0[j] == w);
                assert(q0.contains(w));
                if w == u {
                    assert(q0[j] == q0[q0.len() - 1]);
                }
            }
            assert forall|w: usize| w < n && !done.contains(w) && #[trigger] indeg@[w as int] == 0 implies queue@.contains(w) by {
                assert(q0.contains(w));
                let j = choose|j: int| 0 <= j < q0.len() && q0[j] == w;
                assert(j != q0.len() - 1);
                assert(queue@[j] == w);
            }
            assert(queue@.no_duplicates()) by {
                assert forall|p: int, q: int| 0 <= p < q < queue@.len() implies queue@[p] != queue@[q] by {
                    assert(q0[p] != q0[q]);
                }
            }
            assert forall|j: int| 0 <= j < queue.len() implies #[trigger] queue@[j] < n by {
                assert(q0[j] < n);
            }
        }
        let nbrs = &adj[u];
        let ghost a = nbrs@;
        assert(a == adjacent(es, u));
        proof {
            assert forall|j: int| 0 <= j < a.len() implies !done.contains(#[trigger] a[j]) && a[j] < n by {
                lemma_adjacent_witness(es, u, j);
                let e = choose|e: int| 0 <= e < es.len() && (#[trigger] es[e]).0 == u && es[e].1 == a[j];
                lemma_in_count_witness(es, a[j], old_done);
                if old_done.contains(a[j]) {
                    assert(in_count(es, a[j], old_done) == 0);
                }
                if a[j] == u {
                    assert(in_count(es, u, old_done) == 0);
                }
            }
        }
        assert(a.subrange(0, a.len() as int) =~= a);
        let mut t: usize = 0;
        while t < nbrs.len()
            invariant
                t <= nbrs.len(),
                a == nbrs@,
                n == ids.len(),
                es == edges@,
                edges_in_range(n as nat, es),
                indeg.len() == n,
                u < n,
                done.contains(u),
                forall|j: int| 0 <= j < a.len() ==> #[trigger] a[j] < n,
                forall|j: int| 0 <= j < a.len() ==> !done.contains(#[trigger] a[j]),
                forall|w: usize| w < n ==> #[trigger] indeg@[w as int] == in_count(es, w, done) + occ(
                    a.subrange(t as int, a.len() as int),
                    w,
                ),
                queue@.no_duplicates(),
                forall|j: int| 0 <= j < queue.len() ==> #[trigger] queue@[j] < n,
                forall|w: usize| #[trigger] queue@.contains(w) ==> !done.contains(w) && indeg@[w as int] == 0,
                forall|w: usize| w < n && !done.contains(w) && #[trigger] indeg@[w as int] == 0 ==> queue@.contains(w),
                forall|w: usize| #[trigger] done.contains(w) ==> in_count(es, w, done) == 0,
                discharge(es, done, queue@, a.subrange(t as int, a.len() as int)) == discharge(
                    es,
                    done,
                    q0.drop_last(),
                    a,
                ),
            decreases nbrs.len() - t,
        {
            let w = nbrs[t];
            let ghost qa = queue@;
            proof {
                lemma_occ_suffix(a, t as int, w);
            }
            let d = indeg[w];
            indeg.set(w, d - 1);
            proof {
                assert forall|x: usize| x < n implies #[trigger] indeg@[x as int] == in_count(es, x, done) + occ(
                    a.subrange(t as int + 1, a.len() as int), x) by {
                    lemma_occ_suffix(a, t as int, x);
                }
            }
            if d - 1 == 0 {
                let ghost qb = queue@;
                queue.push(w);
                proof {
                    assert(!done.contains(a[t as int]));
                    assert forall|x: usize| #[trigger] queue@.contains(x) <==> (qb.contains(x) || x == w) by {
                        if queue@.contains(x) && x != w {
                            let j = choose|j: int| 0 <= j < queue@.len() && queue@[j] == x;
                            assert(qb[j] == x);
                        }
                        if qb.contains(x) {
                            let j = choose|j: int| 0 <= j < qb.len() && qb[j] == x;
                            assert(queue@[j] == x);
                        }
                        if x == w {
                            assert(queue@[qb.len() as int] == w);
                        }
                    }
                    assert(queue@.no_duplicates()) by {
                        assert forall|p: int, q: int| 0 <= p < q < queue@.len() implies queue@[p] != queue@[q] by {
                            if q == qb.len() {
                                assert(qb.contains(qb[p]));
                            }
                        }
                    }
                }
            }
            proof {
                let sub = a.subrange(t as int, a.len() as int);
                let rest = a.subrange(t as int + 1, a.len() as int);
                assert(sub[0] == w);
                assert(sub.subrange(1, sub.len() as int) =~= rest);
                if d - 1 == 0 {
                    assert(queue@ == qa.push(w));
                } else {
                    assert(queue@ == qa);
                }
                assert(discharge(es, done, qa, sub) == discharge(es, done, queue@, rest));
            }
            t = t + 1;
        }
        proof {
            assert(a.subrange(a.len() as int, a.len() as int) =~= Seq::<usize>::empty());
            assert(discharge(es, done, queue@, Seq::<usize>::empty()) == queue@);
            assert(sorted@ =~= s_before.push(u));
            assert(done =~= sorted@.to_set());
            assert(q0.last() == u);
            let k0 = s_before.len() as nat;
            assert(kahn_iter(es, (start, Seq::empty()), k0 + 1) == kahn_step(
                es,
                kahn_iter(es, (start, Seq::empty()), k0),
            ));
        }
    }
    if sorted.len() == n {
        proof {
            lemma_distinct_below(sorted@, n as nat);
            assert forall|e: int, i: int, j: int|
                #![trigger es[e], sorted@[i], sorted@[j]]
                0 <= e < es.len() && 0 <= i < sorted.len() && 0 <= j < sorted.len() && sorted@[i] == es[e].0
                    && sorted@[j] == es[e].1 implies i < j by {
                let i2 = choose|i2: int| 0 <= i2 < j && sorted@[i2] == es[e].0;
                assert(i2 == i);
            }
        }
        Some(sorted)
    } else {
        proof {
            lemma_distinct_below(sorted@, n as nat);
            assert(!(forall|v: usize| v < n ==> #[trigger] sorted@.contains(v)));
            let v = choose|v: usize| !(v < n ==> #[trigger] sorted@.contains(v));
            assert(!done.contains(v));
            assert forall|w: usize| w < n && !done.contains(w) implies in_count(es, w, done) > 0 by {
                if indeg@[w as int] == 0 {
                    assert(queue@.contains(w));
                }
            }
            lemma_stuck_means_cycle(n as nat, es, done, indeg@);
        }
        None
    }
}

/// When the vertices outside `done` each keep an incoming edge from outside
/// `done`, and some vertex is outside `done`, no topological order exists.
proof fn lemma_stuck_means_cycle(n: nat, es: Seq<(usize, usize)>, done: Set<usize>, indeg: Seq<usize>)
    requires
        edges_in_range(n, es),
        exists|v: usize| v < n && !done.contains(v),
        forall|w: usize| w < n && !done.contains(w) ==> in_count(es, w, done) > 0,
    ensures
        !has_topo_order(n, es),
{
    if has_topo_order(n, es) {
        let ord = choose|ord: Seq<usize>| is_topo_order(n, es, ord);
        let v = choose|v: usize| v < n && !done.contains(v);
        assert(ord.contains(v));
        let p = choose|p: int| 0 <= p < ord.len() && ord[p] == v;
        let i = lemma_first_outside(ord, done, p);
        let x = ord[i];
        lemma_in_count_witness(es, x, done);
        let e = choose|e: int| 0 <= e < es.len() && (#[trigger] es[e]).1 == x && !done.contains(es[e].0);
        let y = es[e].0;
        assert(ord.contains(y));
        let j = choose|j: int| 0 <= j < ord.len() && ord[j] == y;
        assert(j < i);
    }
}

/// The first position of `ord` whose element is outside `done`, given one such position `p`.
proof fn lemma_first_outside(ord: Seq<usize>, done: Set<usize>, p: int) -> (i: int)
    requires
        0 <= p < ord.len(),
        !done.contains(ord[p]),
    ensures
        0 <= i <= p,
        !done.contains(ord[i]),
        forall|j: int| 0 <= j < i ==> done.contains(#[trigger] ord[j]),
    decreases p,
{
    if exists|j: int| 0 <= j < p && !done.contains(#[trigger] ord[j]) {
        let j = choose|j: int| 0 <= j < p && !done.contains(#[trigger] ord[j]);
        lemma_first_outside(ord, done, j)
    } else {
        p
    }
}

} // verus!
