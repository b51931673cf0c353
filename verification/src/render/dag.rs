//! Directed graphs over `0..n` given as adjacency matrices: reachability
//! by breadth-first search and topological sorting by Kahn's algorithm.

use vstd::prelude::*;

verus! {

/// The matrix is square.
pub open spec fn is_square(g: Seq<Seq<bool>>) -> bool {
    forall|u: int| 0 <= u < g.len() ==> (#[trigger] g[u]).len() == g.len()
}

/// There is an edge `u -> v`.
pub open spec fn edge_in(g: Seq<Seq<bool>>, u: int, v: int) -> bool {
    0 <= u < g.len() && 0 <= v < g.len() && g[u][v]
}

/// `p` is a non-empty walk along edges of `g`.
pub open spec fn is_path(g: Seq<Seq<bool>>, p: Seq<int>) -> bool {
    &&& p.len() > 0
    &&& forall|i: int| 0 <= i < p.len() ==> 0 <= #[trigger] p[i] < g.len()
    &&& forall|i: int| 0 <= i < p.len() - 1 ==> edge_in(g, #[trigger] p[i], p[i + 1])
}

/// `v` can be reached from `u` by following zero or more edges.
pub open spec fn reaches(g: Seq<Seq<bool>>, u: int, v: int) -> bool {
    exists|p: Seq<int>| is_path(g, p) && p[0] == u && p.last() == v
}

/// No value occurs twice in `s`.
pub open spec fn no_dups(s: Seq<int>) -> bool {
    forall|i: int, j: int| 0 <= i < s.len() && 0 <= j < s.len() && i != j ==> s[i] != s[j]
}

/// `o` lists every node of `g` exactly once, and every edge points from
/// an earlier node to a later one.
pub open spec fn is_topological_order(g: Seq<Seq<bool>>, o: Seq<int>) -> bool {
    &&& o.len() == g.len()
    &&& no_dups(o)
    &&& forall|i: int| 0 <= i < o.len() ==> 0 <= #[trigger] o[i] < g.len()
    &&& forall|i: int, j: int|
        0 <= i < o.len() && 0 <= j < o.len() && edge_in(g, #[trigger] o[j], #[trigger] o[i]) ==> j < i
}

/// `g` admits a topological order (it has no cycle).
pub open spec fn has_topological_order(g: Seq<Seq<bool>>) -> bool {
    exists|o: Seq<int>| is_topological_order(g, o)
}

/// The matrix seen through the views of its rows.
pub open spec fn matrix_view(adj: Seq<Vec<bool>>) -> Seq<Seq<bool>> {
    Seq::new(adj.len(), |u: int| adj[u]@)
}

/// Number of `u < k` with an edge `u -> v` and `u` not yet done.
pub open spec fn pending_preds(g: Seq<Seq<bool>>, v: int, done: Seq<bool>, k: int) -> nat
    decreases k,
{
    if k <= 0 {
        0
    } else {
        pending_preds(g, v, done, k - 1) + if edge_in(g, k - 1, v) && !done[k - 1] {
            1nat
        } else {
            0nat
        }
    }
}

/// A count of zero means every predecessor below `k` is done; a positive
/// count means some predecessor below `k` is not.
pub proof fn lemma_pending_zero(g: Seq<Seq<bool>>, v: int, done: Seq<bool>, k: int)
    ensures
        pending_preds(g, v, done, k) == 0 <==> forall|u: int|
            0 <= u < k && edge_in(g, u, v) ==> #[trigger] done[u],
    decreases k,
{
    if k > 0 {
        lemma_pending_zero(g, v, done, k - 1);
        if pending_preds(g, v, done, k) == 0 {
            assert forall|u: int| 0 <= u < k && edge_in(g, u, v) implies #[trigger] done[u] by {
                if u < k - 1 {
                } else {
                }
            }
        }
    }
}

/// Marking `x` done lowers the count of `v` by one exactly when `x -> v`.
pub proof fn lemma_pending_mark(g: Seq<Seq<bool>>, v: int, done: Seq<bool>, x: int, k: int)
    requires
        0 <= x < done.len(),
        !done[x],
        k <= done.len(),
    ensures
        pending_preds(g, v, done.update(x, true), k) + (if edge_in(g, x, v) && x < k {
            1nat
        } else {
            0nat
        }) == pending_preds(g, v, done, k),
    decreases k,
{
    if k > 0 {
        lemma_pending_mark(g, v, done, x, k - 1);
        assert(done.update(x, true)[k - 1] == (done[k - 1] || k - 1 == x));
    }
}

/// The count of `v` with nothing done counts all its predecessors below `k`.
pub proof fn lemma_pending_bound(g: Seq<Seq<bool>>, v: int, done: Seq<bool>, k: int)
    ensures
        pending_preds(g, v, done, k) <= if k < 0 { 0 } else { k },
    decreases k,
{
    if k > 0 {
        lemma_pending_bound(g, v, done, k - 1);
    }
}

/// A set of nodes closed under edges that contains `u` contains every
/// node reachable from `u`.
pub proof fn lemma_closed_contains_reachable(g: Seq<Seq<bool>>, seen: Seq<bool>, u: int, v: int)
    requires
        seen.len() == g.len(),
        0 <= u < g.len(),
        seen[u],
        forall|x: int, y: int| 0 <= x < g.len() && seen[x] && #[trigger] edge_in(g, x, y) ==> seen[y],
        reaches(g, u, v),
    ensures
        seen[v],
{
    let p = choose|p: Seq<int>| is_path(g, p) && p[0] == u && p.last() == v;
    lemma_path_stays_closed(g, seen, p, p.len() - 1);
}

/// Along a path that starts in a closed set, every node is in the set.
proof fn lemma_path_stays_closed(g: Seq<Seq<bool>>, seen: Seq<bool>, p: Seq<int>, i: int)
    requires
        seen.len() == g.len(),
        is_path(g, p),
        seen[p[0]],
        forall|x: int, y: int| 0 <= x < g.len() && seen[x] && #[trigger] edge_in(g, x, y) ==> seen[y],
        0 <= i < p.len(),
    ensures
        seen[p[i]],
    decreases i,
{
    if i > 0 {
        lemma_path_stays_closed(g, seen, p, i - 1);
        assert(edge_in(g, p[i - 1], p[i]));
    }
}

/// Extending a path from `u` to `x` by an edge `x -> y` gives a path from
/// `u` to `y`.
pub proof fn lemma_reaches_step(g: Seq<Seq<bool>>, u: int, x: int, y: int)
    requires
        reaches(g, u, x),
        edge_in(g, x, y),
    ensures
        reaches(g, u, y),
{
    let p = choose|p: Seq<int>| is_path(g, p) && p[0] == u && p.last() == x;
    let q = p.push(y);
    assert(is_path(g, q)) by {
        assert forall|i: int| 0 <= i < q.len() - 1 implies edge_in(g, #[trigger] q[i], q[i + 1]) by {
            if i < p.len() - 1 {
                assert(q[i] == p[i] && q[i + 1] == p[i + 1]);
            }
        }
    }
    assert(q[0] == u && q.last() == y);
}

/// Every node reaches itself.
pub proof fn lemma_reaches_self(g: Seq<Seq<bool>>, u: int)
    requires
        0 <= u < g.len(),
    ensures
        reaches(g, u, u),
{
    let p = seq![u];
    assert(is_path(g, p) && p[0] == u && p.last() == u);
}

/// If every node of a non-empty set `rest` has a predecessor in `rest`,
/// no topological order exists.
pub proof fn lemma_no_topological_order(g: Seq<Seq<bool>>, rest: Seq<bool>, w: int)
    requires
        rest.len() == g.len(),
        0 <= w < g.len(),
        rest[w],
        forall|v: int|
            0 <= v < g.len() && #[trigger] rest[v] ==> exists|u: int|
                0 <= u < g.len() && rest[u] && edge_in(g, u, v),
    ensures
        !has_topological_order(g),
{
    if has_topological_order(g) {
        let o = choose|o: Seq<int>| is_topological_order(g, o);
        lemma_order_avoids(g, rest, o, o.len() as int);
        lemma_order_contains(g, o, w);
        let j = choose|j: int| 0 <= j < o.len() && o[j] == w;
        assert(!rest[o[j]]);
    }
}

/// In a topological order, no node among the first `k` belongs to a set
/// in which every node has a predecessor.
proof fn lemma_order_avoids(g: Seq<Seq<bool>>, rest: Seq<bool>, o: Seq<int>, k: int)
    requires
        is_topological_order(g, o),
        rest.len() == g.len(),
        forall|v: int|
            0 <= v < g.len() && #[trigger] rest[v] ==> exists|u: int|
                0 <= u < g.len() && rest[u] && edge_in(g, u, v),
        0 <= k <= o.len(),
    ensures
        forall|j: int| 0 <= j < k ==> !rest[#[trigger] o[j]],
    decreases k,
{
    if k > 0 {
        lemma_order_avoids(g, rest, o, k - 1);
        let v = o[k - 1];
        if rest[v] {
            let u = choose|u: int| 0 <= u < g.len() && rest[u] && edge_in(g, u, v);
            lemma_order_contains(g, o, u);
            let j = choose|j: int| 0 <= j < o.len() && o[j] == u;
            assert(edge_in(g, o[j], o[k - 1]));
            assert(j < k - 1);
            assert(!rest[o[j]]);
        }
    }
}

/// A topological order contains every node.
pub proof fn lemma_order_contains(g: Seq<Seq<bool>>, o: Seq<int>, v: int)
    requires
        is_topological_order(g, o),
        0 <= v < g.len(),
    ensures
        exists|j: int| 0 <= j < o.len() && o[j] == v,
{
    if !(exists|j: int| 0 <= j < o.len() && o[j] == v) {
        lemma_distinct_bounded_short(o, g.len() as int, v);
    }
}

/// A duplicate-free sequence of values in `0..n` that misses some value
/// `v < n` is shorter than `n`.
pub proof fn lemma_distinct_bounded_short(s: Seq<int>, n: int, v: int)
    requires
        no_dups(s),
        forall|i: int| 0 <= i < s.len() ==> 0 <= #[trigger] s[i] < n,
        0 <= v < n,
        forall|i: int| 0 <= i < s.len() ==> #[trigger] s[i] != v,
    ensures
        s.len() < n,
    decreases n,
{
    if n > 0 {
        let top = n - 1;
        if exists|i: int| 0 <= i < s.len() && s[i] == top {
            let i = choose|i: int| 0 <= i < s.len() && s[i] == top;
            // top != v, so drop top and rename v to top's slot if needed.
            let t = s.remove(i);
            assert forall|j: int| 0 <= j < t.len() implies 0 <= #[trigger] t[j] < top by {
                if j < i {
                    assert(t[j] == s[j]);
                } else {
                    assert(t[j] == s[j + 1]);
                }
            }
            assert(no_dups(t)) by {
                assert forall|a: int, b: int| 0 <= a < t.len() && 0 <= b < t.len() && a != b implies t[a] != t[b] by {
                    let sa = if a < i { a } else { a + 1 };
                    let sb = if b < i { b } else { b + 1 };
                    assert(t[a] == s[sa] && t[b] == s[sb]);
                }
            }
            if v < top {
                assert forall|j: int| 0 <= j < t.len() implies #[trigger] t[j] != v by {
                    if j < i {
                        assert(t[j] == s[j]);
                    } else {
                        assert(t[j] == s[j + 1]);
                    }
                }
                lemma_distinct_bounded_short(t, top, v);
            } else {
                // v == top, but top occurs in s: impossible.
                assert(s[i] != v);
            }
        } else {
            // top does not occur: all values are below top.
            assert forall|j: int| 0 <= j < s.len() implies 0 <= #[trigger] s[j] < top by {
                assert(s[j] != top);
            }
            if v == top {
                lemma_distinct_bounded_le(s, top);
            } else {
                lemma_distinct_bounded_short(s, top, v);
            }
        }
    }
}

/// A duplicate-free sequence of values in `0..n` has at most `n` elements.
pub proof fn lemma_distinct_bounded_le(s: Seq<int>, n: int)
    requires
        0 <= n,
        no_dups(s),
        forall|i: int| 0 <= i < s.len() ==> 0 <= #[trigger] s[i] < n,
    ensures
        s.len() <= n,
    decreases n,
{
    if n == 0 {
        if s.len() > 0 {
            assert(0 <= s[0] < n);
        }
    } else {
        let top = n - 1;
        if exists|i: int| 0 <= i < s.len() && s[i] == top {
            let i = choose|i: int| 0 <= i < s.len() && s[i] == top;
            let t = s.remove(i);
            assert forall|j: int| 0 <= j < t.len() implies 0 <= #[trigger] t[j] < top by {
                if j < i {
                    assert(t[j] == s[j]);
                } else {
                    assert(t[j] == s[j + 1]);
                }
            }
            assert(no_dups(t)) by {
                assert forall|a: int, b: int| 0 <= a < t.len() && 0 <= b < t.len() && a != b implies t[a] != t[b] by {
                    let sa = if a < i { a } else { a + 1 };
                    let sb = if b < i { b } else { b + 1 };
                    assert(t[a] == s[sa] && t[b] == s[sb]);
                }
            }
            lemma_distinct_bounded_le(t, top);
            assert(t.len() == s.len() - 1);
            assert(s.len() <= n);
        } else {
            assert forall|j: int| 0 <= j < s.len() implies 0 <= #[trigger] s[j] < top by {
                assert(s[j] != top);
            }
            lemma_distinct_bounded_le(s, top);
            assert(s.len() <= n);
        }
    }
}

/// A duplicate-free sequence that holds every value of `0..n` has at
/// least `n` elements.
pub proof fn lemma_distinct_covering_long(s: Seq<int>, n: int)
    requires
        0 <= n,
        no_dups(s),
        forall|v: int| 0 <= v < n ==> s.contains(v),
    ensures
        s.len() >= n,
    decreases n,
{
    if n > 0 {
        let top = n - 1;
        assert(s.contains(top));
        let i = choose|i: int| 0 <= i < s.len() && s[i] == top;
        let t = s.remove(i);
        assert(no_dups(t)) by {
            assert forall|a: int, b: int| 0 <= a < t.len() && 0 <= b < t.len() && a != b implies t[a] != t[b] by {
                let sa = if a < i { a } else { a + 1 };
                let sb = if b < i { b } else { b + 1 };
                assert(t[a] == s[sa] && t[b] == s[sb]);
            }
        }
        assert forall|v: int| 0 <= v < top implies t.contains(v) by {
            assert(s.contains(v));
            let j = choose|j: int| 0 <= j < s.len() && s[j] == v;
            assert(j != i);
            if j < i {
                assert(t[j] == v);
            } else {
                assert(t[j - 1] == v);
            }
        }
        lemma_distinct_covering_long(t, top);
    }
}

/// The values of a vector of indices, as integers.
pub open spec fn as_ints(s: Seq<usize>) -> Seq<int> {
    Seq::new(s.len(), |i: int| s[i] as int)
}

/// Breadth-first search: can `to` be reached from `from`?
pub fn is_reachable(adj: &Vec<Vec<bool>>, from: usize, to: usize) -> (r: bool)
    requires
        is_square(matrix_view(adj@)),
        from < adj@.len(),
        to < adj@.len(),
    ensures
        r == reaches(matrix_view(adj@), from as int, to as int),
{
    let ghost g = matrix_view(adj@);
    let n = adj.len();
    let mut visited: Vec<bool> = Vec::new();
    let mut i: usize = 0;
    while i < n
        invariant
            i <= n,
            visited@.len() == i,
            forall|j: int| 0 <= j < i ==> !visited@[j],
        decreases n - i,
    {
        visited.push(false);
        i = i + 1;
    }
    let mut queue: Vec<usize> = Vec::new();
    queue.push(from);
    visited.set(from, true);
    proof {
        lemma_reaches_self(g, from as int);
        assert(queue@[0] == from);
        assert(queue@.contains(from));
        assert(no_dups(as_ints(queue@)));
    }
    let mut head: usize = 0;
    while head < queue.len()
        invariant
            g == matrix_view(adj@),
            is_square(g),
            n == g.len(),
            from < n,
            to < n,
            visited@.len() == n,
            head <= queue@.len(),
            forall|k: int| 0 <= k < queue@.len() ==> (#[trigger] queue@[k]) < n && visited@[queue@[k] as int],
            forall|v: int| 0 <= v < n && #[trigger] visited@[v] ==> reaches(g, from as int, v),
            forall|v: int| 0 <= v < n && #[trigger] visited@[v] ==> queue@.contains(v as usize),
            forall|k: int, y: int|
                0 <= k < head && #[trigger] edge_in(g, queue@[k] as int, y) ==> visited@[y],
            forall|k: int| 0 <= k < head ==> (#[trigger] queue@[k]) != to,
            no_dups(as_ints(queue@)),
            visited@[from as int],
        decreases n - head,
    {
        proof {
            lemma_queue_bounded(queue@, visited@, n as int);
        }
        let cur = queue[head];
        head = head + 1;
        if cur == to {
            return true;
        }
        let mut y: usize = 0;
        while y < n
            invariant
                g == matrix_view(adj@),
                is_square(g),
                n == g.len(),
                from < n,
                to < n,
                cur < n,
                cur == queue@[head - 1],
                cur != to,
                visited@.len() == n,
                0 < head <= queue@.len(),
                y <= n,
                reaches(g, from as int, cur as int),
                forall|k: int| 0 <= k < queue@.len() ==> (#[trigger] queue@[k]) < n && visited@[queue@[k] as int],
                forall|v: int| 0 <= v < n && #[trigger] visited@[v] ==> reaches(g, from as int, v),
                forall|v: int| 0 <= v < n && #[trigger] visited@[v] ==> queue@.contains(v as usize),
                forall|k: int, z: int|
                    0 <= k < head - 1 && #[trigger] edge_in(g, queue@[k] as int, z) ==> visited@[z],
                forall|z: int| 0 <= z < y && #[trigger] edge_in(g, cur as int, z) ==> visited@[z],
                forall|k: int| 0 <= k < head ==> (#[trigger] queue@[k]) != to,
                no_dups(as_ints(queue@)),
                visited@[from as int],
            decreases n - y,
        {
            assert(adj@[cur as int]@ == g[cur as int]);
            if adj[cur][y] && !visited[y] {
                proof {
                    lemma_reaches_step(g, from as int, cur as int, y as int);
                }
                let ghost old_q = queue@;
                let ghost old_v = visited@;
                visited.set(y, true);
                queue.push(y);
                proof {
                    assert(queue@[queue@.len() - 1] == y);
                    assert forall|v: int| 0 <= v < n && #[trigger] visited@[v] implies queue@.contains(v as usize) by {
                        if v == y as int {
                            assert(queue@[queue@.len() - 1] == y);
                        } else {
                            assert(old_v[v]);
                            assert(old_q.contains(v as usize));
                            let k = choose|k: int| 0 <= k < old_q.len() && old_q[k] == v as usize;
                            assert(queue@[k] == old_q[k]);
                        }
                    }
                    assert(no_dups(as_ints(queue@))) by {
                        assert forall|a: int, b: int|
                            0 <= a < queue@.len() && 0 <= b < queue@.len() && a != b implies
                            as_ints(queue@)[a] != as_ints(queue@)[b] by {
                            if a == old_q.len() as int {
                                assert(old_v[queue@[b] as int]);
                            } else if b == old_q.len() as int {
                                assert(old_v[queue@[a] as int]);
                            } else {
                                assert(as_ints(old_q)[a] != as_ints(old_q)[b]);
                            }
                        }
                    }
                }
            }
            y = y + 1;
        }
    }
    proof {
        if reaches(g, from as int, to as int) {
            assert forall|x: int, y: int|
                0 <= x < g.len() && visited@[x] && #[trigger] edge_in(g, x, y) implies visited@[y] by {
                let k = choose|k: int| 0 <= k < queue@.len() && queue@[k] == x as usize;
                assert(queue@[k] as int == x);
            }
            lemma_closed_contains_reachable(g, visited@, from as int, to as int);
            let k = choose|k: int| 0 <= k < queue@.len() && queue@[k] == to;
            assert(queue@[k] != to);
        }
    }
    false
}

/// Every entry of `queue` is a visited node and each visited node occurs
/// once, so the queue is no longer than `n`.
proof fn lemma_queue_bounded(queue: Seq<usize>, visited: Seq<bool>, n: int)
    requires
        0 <= n,
        forall|k: int| 0 <= k < queue.len() ==> (#[trigger] queue[k]) < n,
        no_dups(as_ints(queue)),
    ensures
        queue.len() <= n,
{
    assert forall|i: int| 0 <= i < as_ints(queue).len() implies 0 <= #[trigger] as_ints(queue)[i] < n by {
        assert(queue[i] < n);
    }
    lemma_distinct_bounded_le(as_ints(queue), n);
}

/// `s` after appending `x` still has no duplicates when `x` was absent.
proof fn lemma_push_no_dups(s: Seq<usize>, x: usize)
    requires
        no_dups(as_ints(s)),
        !s.contains(x),
    ensures
        no_dups(as_ints(s.push(x))),
{
    let t = s.push(x);
    assert forall|a: int, b: int|
        0 <= a < t.len() && 0 <= b < t.len() && a != b implies as_ints(t)[a] != as_ints(t)[b] by {
        if a == s.len() as int {
            assert(t[b] == s[b]);
        } else if b == s.len() as int {
            assert(t[a] == s[a]);
        } else {
            assert(as_ints(s)[a] != as_ints(s)[b]);
        }
    }
}

/// The nodes `0..n`, in increasing order.
pub open spec fn ids(n: int) -> Seq<int> {
    Seq::new(n as nat, |v: int| v)
}

/// Every predecessor of `v` is among `placed`.
pub open spec fn unblocked(g: Seq<Seq<bool>>, placed: Seq<int>, v: int) -> bool {
    forall|u: int| 0 <= u < g.len() && #[trigger] edge_in(g, u, v) ==> placed.contains(u)
}

/// A node without predecessors.
pub open spec fn source_pred(g: Seq<Seq<bool>>) -> spec_fn(int) -> bool {
    |v: int| unblocked(g, Seq::<int>::empty(), v)
}

/// A successor of `x` all of whose predecessors are among `placed`.
pub open spec fn release_pred(g: Seq<Seq<bool>>, placed: Seq<int>, x: int) -> spec_fn(int) -> bool {
    |v: int| edge_in(g, x, v) && unblocked(g, placed, v)
}

/// The nodes without predecessors, in increasing order.
pub open spec fn sources(g: Seq<Seq<bool>>) -> Seq<int> {
    ids(g.len() as int).filter(source_pred(g))
}

/// The nodes that placing `x` after the nodes `placed` (`x` among them)
/// makes ready: its successors whose predecessors are all placed, in
/// increasing order.
pub open spec fn released(g: Seq<Seq<bool>>, placed: Seq<int>, x: int) -> Seq<int> {
    ids(g.len() as int).filter(release_pred(g, placed, x))
}

/// Kahn's algorithm with a first-in first-out queue, from the queue `q`
/// of which the first `head` nodes are placed: the next node is placed,
/// and the nodes it makes ready join the back of the queue.
pub open spec fn kahn_from(g: Seq<Seq<bool>>, q: Seq<int>, head: int) -> Seq<int>
    decreases g.len() - head,
{
    if 0 <= head < q.len() && head < g.len() {
        kahn_from(g, q + released(g, q.take(head + 1), q[head]), head + 1)
    } else {
        q
    }
}

/// The order Kahn's algorithm lists the nodes in: the nodes without
/// predecessors first, in increasing order; then, node by node in that
/// order, the successors it makes ready, in increasing order.
pub open spec fn kahn_order(g: Seq<Seq<bool>>) -> Seq<int> {
    kahn_from(g, sources(g), 0)
}

/// Kahn's algorithm. Nodes whose predecessors are all placed are queued in
/// increasing order; the queue, read front to back, is the result.
///
/// Every edge between two listed nodes points forward, no node is listed
/// twice, and all nodes are listed exactly when a topological order
/// exists (otherwise the unlisted nodes lie on or behind a cycle).
pub fn topological_sort(adj: &Vec<Vec<bool>>) -> (order: Vec<usize>)
    requires
        is_square(matrix_view(adj@)),
    ensures
        order@.len() <= adj@.len(),
        no_dups(as_ints(order@)),
        forall|i: int| 0 <= i < order@.len() ==> (#[trigger] order@[i]) < adj@.len(),
        forall|i: int, j: int|
            0 <= i < order@.len() && 0 <= j < order@.len() && edge_in(
                matrix_view(adj@),
                #[trigger] order@[j] as int,
                #[trigger] order@[i] as int,
            ) ==> j < i,
        (order@.len() == adj@.len()) == has_topological_order(matrix_view(adj@)),
        order@.len() == adj@.len() ==> is_topological_order(matrix_view(adj@), as_ints(order@)),
        as_ints(order@) == kahn_order(matrix_view(adj@)),
{
    let ghost g = matrix_view(adj@);
    let n = adj.len();
    let mut done: Vec<bool> = Vec::new();
    let mut in_q: Vec<bool> = Vec::new();
    let mut indeg: Vec<usize> = Vec::new();
    let mut v: usize = 0;
    while v < n
        invariant
            g == matrix_view(adj@),
            is_square(g),
            n == g.len(),
            v <= n,
            done@.len() == v,
            in_q@.len() == v,
            indeg@.len() == v,
            forall|j: int| 0 <= j < v ==> !done@[j] && !in_q@[j],
        decreases n - v,
    {
        done.push(false);
        in_q.push(false);
        indeg.push(0);
        v = v + 1;
    }
    // Count every node's predecessors.
    let mut v: usize = 0;
    while v < n
        invariant
            g == matrix_view(adj@),
            is_square(g),
            n == g.len(),
            v <= n,
            done@.len() == n,
            in_q@.len() == n,
            indeg@.len() == n,
            forall|j: int| 0 <= j < n ==> !done@[j] && !in_q@[j],
            forall|w: int| 0 <= w < v ==> indeg@[w] == pending_preds(g, w, done@, n as int),
        decreases n - v,
    {
        let mut u: usize = 0;
        let mut count: usize = 0;
        while u < n
            invariant
                g == matrix_view(adj@),
                is_square(g),
                n == g.len(),
                v < n,
                u <= n,
                done@.len() == n,
                forall|j: int| 0 <= j < n ==> !done@[j],
                count == pending_preds(g, v as int, done@, u as int),
            decreases n - u,
        {
            proof {
                lemma_pending_bound(g, v as int, done@, u as int);
            }
            assert(adj@[u as int]@ == g[u as int]);
            if adj[u][v] {
                count = count + 1;
            }
            u = u + 1;
        }
        indeg.set(v, count);
        v = v + 1;
    }
    // Seed the queue with the nodes that have no predecessor, in order.
    let mut queue: Vec<usize> = Vec::new();
    let mut v: usize = 0;
    while v < n
        invariant
            g == matrix_view(adj@),
            is_square(g),
            n == g.len(),
            v <= n,
            done@.len() == n,
            in_q@.len() == n,
            indeg@.len() == n,
            forall|j: int| 0 <= j < n ==> !done@[j],
            forall|w: int| 0 <= w < n ==> indeg@[w] == pending_preds(g, w, done@, n as int),
            forall|k: int| 0 <= k < queue@.len() ==> (#[trigger] queue@[k]) < v,
            no_dups(as_ints(queue@)),
            forall|w: int| 0 <= w < n ==> (#[trigger] in_q@[w] <==> queue@.contains(w as usize)),
            forall|w: int| 0 <= w < v && !(#[trigger] in_q@[w]) ==> indeg@[w] > 0,
            forall|w: int| 0 <= w < n && #[trigger] in_q@[w] ==> indeg@[w] == 0,
            forall|w: int| v <= w < n ==> !(#[trigger] in_q@[w]),
            as_ints(queue@) == ids(v as int).filter(source_pred(g)),
        decreases n - v,
    {
        proof {
            assert(ids(v + 1) =~= ids(v as int).push(v as int));
            ids(v as int).lemma_filter_push(v as int, source_pred(g));
            lemma_pending_zero(g, v as int, done@, n as int);
            assert(source_pred(g)(v as int) == (indeg@[v as int] == 0)) by {
                if indeg@[v as int] != 0 {
                    let u = choose|u: int| 0 <= u < n && edge_in(g, u, v as int) && !done@[u];
                    assert(!Seq::<int>::empty().contains(u));
                    assert(!unblocked(g, Seq::<int>::empty(), v as int));
                } else {
                    assert forall|u: int| 0 <= u < g.len() && #[trigger] edge_in(g, u, v as int) implies Seq::<int>::empty().contains(u) by {
                        assert(done@[u]);
                    }
                    assert(unblocked(g, Seq::<int>::empty(), v as int));
                }
            }
        }
        let ghost q_before = queue@;
        if indeg[v] == 0 {
            let ghost old_q = queue@;
            proof {
                assert(!in_q@[v as int]);
                lemma_push_no_dups(queue@, v);
            }
            queue.push(v);
            in_q.set(v, true);
            proof {
                assert forall|w: int| 0 <= w < n implies (#[trigger] in_q@[w] <==> queue@.contains(w as usize)) by {
                    if w == v as int {
                        assert(queue@[queue@.len() - 1] == v);
                    } else {
                        if old_q.contains(w as usize) {
                            let k = choose|k: int| 0 <= k < old_q.len() && old_q[k] == w as usize;
                            assert(queue@[k] == old_q[k]);
                        }
                        if queue@.contains(w as usize) {
                            let k = choose|k: int| 0 <= k < queue@.len() && queue@[k] == w as usize;
                            assert(k < old_q.len());
                            assert(old_q[k] == queue@[k]);
                        }
                    }
                }
            }
        }
        proof {
            assert(as_ints(queue@) =~= if indeg@[v as int] == 0 { as_ints(q_before).push(v as int) } else { as_ints(q_before) });
        }
        v = v + 1;
    }
    proof {
        assert forall|i: int, j: int|
            0 <= i < queue@.len() && 0 <= j < queue@.len() && edge_in(
                g,
                #[trigger] queue@[j] as int,
                #[trigger] queue@[i] as int,
            ) implies j < i by {
            let w = queue@[i] as int;
            assert(in_q@[w]);
            lemma_pending_zero(g, w, done@, n as int);
            assert(done@[queue@[j] as int]);
        }
        assert(as_ints(queue@) == sources(g));
    }
    let mut head: usize = 0;
    while head < queue.len()
        invariant
            kahn_from(g, as_ints(queue@), head as int) == kahn_order(g),
            g == matrix_view(adj@),
            is_square(g),
            n == g.len(),
            done@.len() == n,
            in_q@.len() == n,
            indeg@.len() == n,
            head <= queue@.len(),
            forall|k: int| 0 <= k < queue@.len() ==> (#[trigger] queue@[k]) < n,
            no_dups(as_ints(queue@)),
            forall|w: int| 0 <= w < n ==> (#[trigger] in_q@[w] <==> queue@.contains(w as usize)),
            forall|w: int| 0 <= w < n ==> (#[trigger] done@[w] <==> exists|k: int| 0 <= k < head && queue@[k] == w as usize),
            forall|w: int| 0 <= w < n ==> indeg@[w] == pending_preds(g, w, done@, n as int),
            forall|w: int| 0 <= w < n && !(#[trigger] in_q@[w]) ==> indeg@[w] > 0,
            forall|w: int| 0 <= w < n && #[trigger] in_q@[w] ==> indeg@[w] == 0,
            forall|i: int, j: int|
                0 <= i < queue@.len() && 0 <= j < queue@.len() && edge_in(
                    g,
                    #[trigger] queue@[j] as int,
                    #[trigger] queue@[i] as int,
                ) ==> j < i,
        decreases n - head,
    {
        proof {
            lemma_queue_bounded(queue@, in_q@, n as int);
        }
        let x = queue[head];
        let ghost done_before = done@;
        proof {
            assert(!done@[x as int]) by {
                if done@[x as int] {
                    let k = choose|k: int| 0 <= k < head && queue@[k] == x;
                    assert(as_ints(queue@)[k] == as_ints(queue@)[head as int]);
                }
            }
        }
        done.set(x, true);
        head = head + 1;
        proof {
            assert forall|w: int| 0 <= w < n implies indeg@[w] == pending_preds(g, w, done@, n as int)
                + if edge_in(g, x as int, w) { 1nat } else { 0nat } by {
                lemma_pending_mark(g, w, done_before, x as int, n as int);
            }
            assert forall|w: int| 0 <= w < n && #[trigger] in_q@[w] implies pending_preds(g, w, done@, n as int) == 0 && !edge_in(g, x as int, w) by {
                lemma_pending_mark(g, w, done_before, x as int, n as int);
                lemma_pending_zero(g, w, done_before, n as int);
                if edge_in(g, x as int, w) {
                    assert(done_before[x as int]);
                }
            }
            assert forall|w: int| 0 <= w < n implies (#[trigger] done@[w] <==> exists|k: int| 0 <= k < head && queue@[k] == w as usize) by {
                if w == x as int {
                    assert(queue@[head - 1] == x);
                } else {
                    assert(done@[w] == done_before[w]);
                    if exists|k: int| 0 <= k < head && queue@[k] == w as usize {
                        let k = choose|k: int| 0 <= k < head && queue@[k] == w as usize;
                        assert(k != head - 1);
                    }
                }
            }
        }
        let ghost q0 = as_ints(queue@);
        let ghost placed = q0.take(head as int);
        proof {
            assert forall|w: int| 0 <= w < n implies (#[trigger] done@[w] <==> placed.contains(w)) by {
                if done@[w] {
                    let k = choose|k: int| 0 <= k < head && queue@[k] == w as usize;
                    assert(placed[k] == w);
                }
                if placed.contains(w) {
                    let k = choose|k: int| 0 <= k < placed.len() && placed[k] == w;
                    assert(queue@[k] == w as usize);
                }
            }
            assert(q0 + ids(0).filter(release_pred(g, placed, x as int)) =~= q0);
        }
        let mut y: usize = 0;
        while y < n
            invariant
                g == matrix_view(adj@),
                is_square(g),
                n == g.len(),
                x < n,
                q0.len() >= head,
                q0[head - 1] == x as int,
                placed == q0.take(head as int),
                forall|w: int| 0 <= w < n ==> (#[trigger] done@[w] <==> placed.contains(w)),
                as_ints(queue@) == q0 + ids(y as int).filter(release_pred(g, placed, x as int)),
                y <= n,
                done@.len() == n,
                in_q@.len() == n,
                indeg@.len() == n,
                0 < head <= queue@.len(),
                queue@[head - 1] == x,
                done_before.len() == n,
                done@ == done_before.update(x as int, true),
                !done_before[x as int],
                forall|w: int| y <= w < n && #[trigger] in_q@[w] ==> !edge_in(g, x as int, w),
                forall|k: int| 0 <= k < queue@.len() ==> (#[trigger] queue@[k]) < n,
                no_dups(as_ints(queue@)),
                forall|w: int| 0 <= w < n ==> (#[trigger] in_q@[w] <==> queue@.contains(w as usize)),
                forall|w: int| 0 <= w < n ==> (#[trigger] done@[w] <==> exists|k: int| 0 <= k < head && queue@[k] == w as usize),
                forall|w: int| 0 <= w < y ==> indeg@[w] == pending_preds(g, w, done@, n as int),
                forall|w: int|
                    y <= w < n ==> indeg@[w] == pending_preds(g, w, done@, n as int) + if edge_in(g, x as int, w) {
                        1nat
                    } else {
                        0nat
                    },
                forall|w: int| 0 <= w < n && !(#[trigger] in_q@[w]) ==> indeg@[w] > 0,
                forall|w: int| 0 <= w < n && #[trigger] in_q@[w] ==> pending_preds(g, w, done@, n as int) == 0,
                forall|w: int| 0 <= w < y && #[trigger] in_q@[w] ==> indeg@[w] == 0,
                forall|i: int, j: int|
                    0 <= i < queue@.len() && 0 <= j < queue@.len() && edge_in(
                        g,
                        #[trigger] queue@[j] as int,
                        #[trigger] queue@[i] as int,
                    ) ==> j < i,
            decreases n - y,
        {
            assert(adj@[x as int]@ == g[x as int]);
            let ghost q_b = queue@;
            let ghost rel = release_pred(g, placed, x as int)(y as int);
            proof {
                assert(ids(y + 1) =~= ids(y as int).push(y as int));
                ids(y as int).lemma_filter_push(y as int, release_pred(g, placed, x as int));
                lemma_pending_zero(g, y as int, done@, n as int);
                if edge_in(g, x as int, y as int) {
                    if pending_preds(g, y as int, done@, n as int) == 0 {
                        assert forall|u: int| 0 <= u < g.len() && #[trigger] edge_in(g, u, y as int) implies placed.contains(u) by {
                            assert(done@[u]);
                        }
                        assert(rel);
                    } else {
                        let u = choose|u: int| 0 <= u < n && edge_in(g, u, y as int) && !done@[u];
                        assert(!placed.contains(u));
                        assert(!rel);
                    }
                }
            }
            if adj[x][y] {
                let ghost old_q = queue@;
                assert(!in_q@[y as int]);
                let d = indeg[y] - 1;
                indeg.set(y, d);
                if d == 0 {
                    proof {
                        lemma_pending_zero(g, y as int, done@, n as int);
                        assert(!in_q@[y as int]);
                        assert(!queue@.contains(y));
                        lemma_push_no_dups(queue@, y);
                    }
                    queue.push(y);
                    in_q.set(y, true);
                    proof {
                        assert forall|w: int| 0 <= w < n implies (#[trigger] in_q@[w] <==> queue@.contains(w as usize)) by {
                            if w == y as int {
                                assert(queue@[queue@.len() - 1] == y);
                            } else {
                                if old_q.contains(w as usize) {
                                    let k = choose|k: int| 0 <= k < old_q.len() && old_q[k] == w as usize;
                                    assert(queue@[k] == old_q[k]);
                                }
                                if queue@.contains(w as usize) {
                                    let k = choose|k: int| 0 <= k < queue@.len() && queue@[k] == w as usize;
                                    assert(k < old_q.len());
                                    assert(old_q[k] == queue@[k]);
                                }
                            }
                        }
                        assert forall|w: int| 0 <= w < n implies (#[trigger] done@[w] <==> exists|k: int| 0 <= k < head && queue@[k] == w as usize) by {
                            if exists|k: int| 0 <= k < head && old_q[k] == w as usize {
                                let k = choose|k: int| 0 <= k < head && old_q[k] == w as usize;
                                assert(queue@[k] == old_q[k]);
                            }
                            if exists|k: int| 0 <= k < head && queue@[k] == w as usize {
                                let k = choose|k: int| 0 <= k < head && queue@[k] == w as usize;
                                assert(queue@[k] == old_q[k]);
                            }
                        }
                        assert forall|i: int, j: int|
                            0 <= i < queue@.len() && 0 <= j < queue@.len() && edge_in(
                                g,
                                #[trigger] queue@[j] as int,
                                #[trigger] queue@[i] as int,
                            ) implies j < i by {
                            let last = old_q.len() as int;
                            assert(queue@[last] == y);
                            if i == last && j != last {
                                assert(edge_in(g, queue@[j] as int, y as int));
                                assert(pending_preds(g, y as int, done@, n as int) == 0);
                                assert(done@[queue@[j] as int]);
                                let k = choose|k: int| 0 <= k < head && queue@[k] == queue@[j];
                                assert(as_ints(queue@)[k] == as_ints(queue@)[j]);
                                assert(k == j);
                            } else if j == last && i != last {
                                let w = queue@[i] as int;
                                assert(old_q[i] == queue@[i]);
                                assert(old_q.contains(w as usize));
                                assert(in_q@[w]);
                                assert(w != y as int) by {
                                    assert(as_ints(queue@)[i] != as_ints(queue@)[last]);
                                }
                                assert(pending_preds(g, w, done@, n as int) == 0);
                                lemma_pending_zero(g, w, done@, n as int);
                                assert(edge_in(g, y as int, w));
                                assert(done@[y as int]);
                                let k = choose|k: int| 0 <= k < head && queue@[k] == y;
                                assert(as_ints(queue@)[k] == as_ints(queue@)[last]);
                                assert(false);
                            } else if i == last && j == last {
                                assert(edge_in(g, y as int, y as int));
                                assert(pending_preds(g, y as int, done@, n as int) == 0);
                                assert(done@[y as int]);
                                let k = choose|k: int| 0 <= k < head && queue@[k] == y;
                                assert(as_ints(queue@)[k] == as_ints(queue@)[last]);
                                assert(false);
                            } else {
                                assert(old_q[i] == queue@[i] && old_q[j] == queue@[j]);
                            }
                        }
                    }
                }
            }
            proof {
                assert(as_ints(queue@) =~= if rel { as_ints(q_b).push(y as int) } else { as_ints(q_b) });
            }
            y = y + 1;
        }
        proof {
            assert(kahn_from(g, q0, head - 1) == kahn_from(g, as_ints(queue@), head as int));
        }
    }
    proof {
        assert(kahn_from(g, as_ints(queue@), head as int) == as_ints(queue@));
        let o = as_ints(queue@);
        lemma_queue_bounded(queue@, in_q@, n as int);
        assert forall|i: int| 0 <= i < o.len() implies 0 <= #[trigger] o[i] < n by {
            assert(queue@[i] < n);
        }
        if queue@.len() == n {
            assert forall|i: int, j: int|
                0 <= i < o.len() && 0 <= j < o.len() && edge_in(g, #[trigger] o[j], #[trigger] o[i])
                    implies j < i by {
                assert(o[j] == queue@[j] as int && o[i] == queue@[i] as int);
            }
            assert(is_topological_order(g, o));
        } else {
            // Some node is never queued; every such node still has an
            // unplaced predecessor, so no topological order exists.
            let w = choose_missing(queue@, n as int);
            let rest = Seq::new(n as nat, |k: int| !in_q@[k]);
            assert forall|v: int| 0 <= v < g.len() && #[trigger] rest[v] implies exists|u: int|
                0 <= u < g.len() && rest[u] && edge_in(g, u, v) by {
                assert(!in_q@[v]);
                assert(indeg@[v] > 0);
                lemma_pending_zero(g, v, done@, n as int);
                assert(exists|u: int| 0 <= u < n && edge_in(g, u, v) && !done@[u]);
                let u = choose|u: int| 0 <= u < n && edge_in(g, u, v) && !done@[u];
                assert(rest[u] == !in_q@[u]);
                if in_q@[u] {
                    assert(queue@.contains(u as usize));
                    let k = choose|k: int| 0 <= k < queue@.len() && queue@[k] == u as usize;
                    assert(done@[u]);
                }
            }
            assert(rest[w]);
            lemma_no_topological_order(g, rest, w);
        }
    }
    queue
}

/// A value of `0..n` that a duplicate-free sequence shorter than `n`
/// leaves out.
proof fn choose_missing(s: Seq<usize>, n: int) -> (w: int)
    requires
        n <= usize::MAX,
        no_dups(as_ints(s)),
        s.len() < n,
    ensures
        0 <= w < n,
        !s.contains(w as usize),
{
    if forall|v: int| 0 <= v < n ==> #[trigger] s.contains(v as usize) {
        assert forall|v: int| 0 <= v < n implies as_ints(s).contains(v) by {
            assert(s.contains(v as usize));
            let k = choose|k: int| 0 <= k < s.len() && s[k] == v as usize;
            assert(as_ints(s)[k] == v);
        }
        lemma_distinct_covering_long(as_ints(s), n);
        assert(false);
        0
    } else {
        choose|v: int| 0 <= v < n && !#[trigger] s.contains(v as usize)
    }
}

} // verus!
