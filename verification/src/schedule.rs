//! Topological scheduling of the render graph's ordering constraints.
//!
//! The schedule is computed by repeatedly removing, among the nodes that
//! still remain, the lowest-numbered one with no incoming edge from a
//! remaining node. Since nodes are numbered in insertion order, the
//! schedule is deterministic for a fixed insertion order. The schedule
//! exists exactly when the constraints are acyclic: both directions are
//! proved here.

use vstd::prelude::*;

verus! {

/// Whether the constraint `a`-before-`b` is among `edges`.
pub open spec fn has_edge(edges: Seq<(int, int)>, a: int, b: int) -> bool {
    exists|i: int| 0 <= i < edges.len() && edges[i] == (a, b)
}

/// Consecutive elements of `p` are joined by edges.
pub open spec fn is_chain(edges: Seq<(int, int)>, p: Seq<int>) -> bool {
    forall|i: int| 0 <= i < p.len() - 1 ==> has_edge(edges, #[trigger] p[i], p[i + 1])
}

/// Some non-trivial chain returns to its starting node.
pub open spec fn has_cycle(edges: Seq<(int, int)>) -> bool {
    exists|p: Seq<int>|
        p.len() >= 2 && is_chain(edges, p) && p[0] == p[p.len() - 1]
}

/// Whether node `v` has an incoming edge from one of the `remaining`
/// nodes.
pub open spec fn has_pred_in(edges: Seq<(int, int)>, remaining: Seq<int>, v: int) -> bool {
    exists|j: int| 0 <= j < remaining.len() && has_edge(edges, #[trigger] remaining[j], v)
}

/// The first position at or after `p` of a remaining node with no
/// incoming edge from a remaining node.
pub open spec fn first_source_from(edges: Seq<(int, int)>, remaining: Seq<int>, p: int) -> Option<
    int,
>
    decreases remaining.len() - p,
{
    if p < 0 || p >= remaining.len() {
        None
    } else if !has_pred_in(edges, remaining, remaining[p]) {
        Some(p)
    } else {
        first_source_from(edges, remaining, p + 1)
    }
}

/// The schedule of the `remaining` nodes: repeatedly emit the first
/// remaining node without a remaining predecessor. `None` when the nodes
/// cannot be exhausted this way.
pub open spec fn kahn_rec(edges: Seq<(int, int)>, remaining: Seq<int>) -> Option<Seq<int>>
    decreases remaining.len(),
{
    if remaining.len() == 0 {
        Some(Seq::empty())
    } else {
        match first_source_from(edges, remaining, 0) {
            None => None,
            Some(p) => if 0 <= p < remaining.len() {
                match kahn_rec(edges, remaining.remove(p)) {
                    Some(rest) => Some(seq![remaining[p]] + rest),
                    None => None,
                }
            } else {
                None
            },
        }
    }
}

/// The schedule of nodes `0 .. n` under `edges`.
pub open spec fn kahn(n: int, edges: Seq<(int, int)>) -> Option<Seq<int>> {
    kahn_rec(edges, Seq::new(n as nat, |i: int| i))
}

/// What a successful source search says: the found position is in range,
/// holds a source, and every earlier position does not.
proof fn lemma_first_source_props(edges: Seq<(int, int)>, remaining: Seq<int>, p: int, r: int)
    requires
        0 <= p,
        first_source_from(edges, remaining, p) == Some(r),
    ensures
        p <= r < remaining.len(),
        !has_pred_in(edges, remaining, remaining[r]),
        forall|q: int| p <= q < r ==> has_pred_in(edges, remaining, #[trigger] remaining[q]),
    decreases remaining.len() - p,
{
    if p < remaining.len() && has_pred_in(edges, remaining, remaining[p]) {
        lemma_first_source_props(edges, remaining, p + 1, r);
    }
}

/// What a failed source search says: every position at or after `p` holds
/// a node with a remaining predecessor.
proof fn lemma_first_source_none(edges: Seq<(int, int)>, remaining: Seq<int>, p: int)
    requires
        0 <= p,
        first_source_from(edges, remaining, p) is None,
    ensures
        forall|q: int| p <= q < remaining.len() ==> has_pred_in(
            edges,
            remaining,
            #[trigger] remaining[q],
        ),
    decreases remaining.len() - p,
{
    if p < remaining.len() {
        lemma_first_source_none(edges, remaining, p + 1);
    }
}

/// Removing one position keeps all other elements and no duplicates.
proof fn lemma_remove_props(s: Seq<int>, p: int)
    requires
        0 <= p < s.len(),
        s.no_duplicates(),
    ensures
        s.remove(p).no_duplicates(),
        s.remove(p).len() == s.len() - 1,
        forall|v: int| #[trigger] s.remove(p).contains(v) ==> s.contains(v),
        forall|v: int| s.contains(v) && v != s[p] ==> #[trigger] s.remove(p).contains(v),
        !s.remove(p).contains(s[p]),
{
    let t = s.remove(p);
    assert forall|v: int| #[trigger] t.contains(v) implies s.contains(v) by {
        let i = choose|i: int| 0 <= i < t.len() && t[i] == v;
        if i < p {
            assert(s[i] == v);
        } else {
            assert(s[i + 1] == v);
        }
    }
    assert forall|v: int| s.contains(v) && v != s[p] implies #[trigger] t.contains(v) by {
        let i = choose|i: int| 0 <= i < s.len() && s[i] == v;
        if i < p {
            assert(t[i] == v);
        } else {
            assert(i > p);
            assert(t[i - 1] == v);
        }
    }
    if t.contains(s[p]) {
        let i = choose|i: int| 0 <= i < t.len() && t[i] == s[p];
        if i < p {
            assert(s[i] == s[p]);
        } else {
            assert(s[i + 1] == s[p]);
        }
    }
    assert(t.no_duplicates()) by {
        assert forall|i: int, j: int| 0 <= i < t.len() && 0 <= j < t.len() && i != j implies t[i]
            != t[j] by {
            let si: int = if i < p { i } else { i + 1 };
            let sj: int = if j < p { j } else { j + 1 };
            assert(t[i] == s[si] && t[j] == s[sj]);
        }
    }
}

/// A successful schedule lists each remaining node exactly once, in an
/// order where every edge among them goes forward.
pub proof fn lemma_kahn_sound(edges: Seq<(int, int)>, remaining: Seq<int>, ord: Seq<int>)
    requires
        remaining.no_duplicates(),
        kahn_rec(edges, remaining) == Some(ord),
    ensures
        ord.len() == remaining.len(),
        ord.no_duplicates(),
        forall|v: int| ord.contains(v) == remaining.contains(v),
        forall|i: int, j: int|
            0 <= i < ord.len() && 0 <= j < ord.len() && has_edge(edges, #[trigger] ord[i], #[trigger] ord[j])
                ==> i < j,
    decreases remaining.len(),
{
    if remaining.len() > 0 {
        let p = first_source_from(edges, remaining, 0)->Some_0;
        lemma_first_source_props(edges, remaining, 0, p);
        let w = remaining[p];
        lemma_remove_props(remaining, p);
        let rest = kahn_rec(edges, remaining.remove(p))->Some_0;
        lemma_kahn_sound(edges, remaining.remove(p), rest);
        assert(ord == seq![w] + rest);
        assert(ord[0] == w);
        assert(forall|i: int| 1 <= i < ord.len() ==> ord[i] == rest[i - 1]);
        assert forall|v: int| ord.contains(v) == remaining.contains(v) by {
            if ord.contains(v) {
                let i = choose|i: int| 0 <= i < ord.len() && ord[i] == v;
                if i == 0 {
                    assert(remaining[p] == v);
                } else {
                    assert(rest.contains(v));
                }
            }
            if remaining.contains(v) {
                if v == w {
                    assert(ord[0] == v);
                } else {
                    assert(remaining.remove(p).contains(v));
                    assert(rest.contains(v));
                    let i = choose|i: int| 0 <= i < rest.len() && rest[i] == v;
                    assert(ord[i + 1] == v);
                }
            }
        }
        assert(ord.no_duplicates()) by {
            assert forall|i: int, j: int|
                0 <= i < ord.len() && 0 <= j < ord.len() && i != j implies ord[i] != ord[j] by {
                if i == 0 && j > 0 {
                    assert(rest.contains(ord[j]));
                } else if j == 0 && i > 0 {
                    assert(rest.contains(ord[i]));
                }
            }
        }
        assert forall|i: int, j: int|
            0 <= i < ord.len() && 0 <= j < ord.len() && has_edge(edges, #[trigger] ord[i], #[trigger] ord[j])
                implies i < j by {
            if j == 0 {
                assert(remaining.contains(ord[i]));
                let q = choose|q: int| 0 <= q < remaining.len() && remaining[q] == ord[i];
                assert(has_pred_in(edges, remaining, w));
                assert(false);
            } else if i == 0 {
            } else {
                assert(has_edge(edges, rest[i - 1], rest[j - 1]));
            }
        }
    }
}

/// If every node of nonempty `remaining` has a remaining predecessor,
/// chains inside `remaining` can be extended backwards to any length.
proof fn lemma_build_chain(edges: Seq<(int, int)>, remaining: Seq<int>, m: nat)
    requires
        remaining.len() > 0,
        forall|q: int| 0 <= q < remaining.len() ==> has_pred_in(
            edges,
            remaining,
            #[trigger] remaining[q],
        ),
    ensures
        exists|p: Seq<int>|
            {
                &&& p.len() == m + 1
                &&& is_chain(edges, p)
                &&& forall|i: int| 0 <= i < p.len() ==> remaining.contains(#[trigger] p[i])
            },
    decreases m,
{
    if m == 0 {
        let p = seq![remaining[0]];
        assert(remaining.contains(p[0]));
        assert(is_chain(edges, p));
        assert(p.len() == m + 1 && is_chain(edges, p) && forall|i: int|
            0 <= i < p.len() ==> remaining.contains(#[trigger] p[i]));
    } else {
        lemma_build_chain(edges, remaining, (m - 1) as nat);
        let p0 = choose|p: Seq<int>|
            {
                &&& p.len() == (m - 1) + 1
                &&& is_chain(edges, p)
                &&& forall|i: int| 0 <= i < p.len() ==> remaining.contains(#[trigger] p[i])
            };
        assert(remaining.contains(p0[0]));
        let q = choose|q: int| 0 <= q < remaining.len() && remaining[q] == p0[0];
        assert(has_pred_in(edges, remaining, remaining[q]));
        let j = choose|j: int|
            0 <= j < remaining.len() && has_edge(edges, #[trigger] remaining[j], remaining[q]);
        let u = remaining[j];
        let p = seq![u] + p0;
        assert(p.len() == m + 1);
        assert(forall|i: int| 1 <= i < p.len() ==> p[i] == p0[i - 1]);
        assert(is_chain(edges, p)) by {
            assert forall|i: int| 0 <= i < p.len() - 1 implies has_edge(
                edges,
                p[i],
                #[trigger] p[i + 1],
            ) by {
                if i == 0 {
                    assert(p[0] == u && p[1] == p0[0]);
                } else {
                    assert(has_edge(edges, p0[i - 1], p0[i]));
                }
            }
        }
        assert(forall|i: int| 0 <= i < p.len() ==> remaining.contains(#[trigger] p[i]));
    }
}

/// A sequence longer than the distinct pool it draws from repeats an
/// element.
proof fn lemma_pigeonhole(pool: Seq<int>, p: Seq<int>)
    requires
        pool.no_duplicates(),
        p.len() > pool.len(),
        forall|i: int| 0 <= i < p.len() ==> pool.contains(#[trigger] p[i]),
    ensures
        exists|i: int, j: int| 0 <= i < j < p.len() && p[i] == p[j],
{
    if !(exists|i: int, j: int| 0 <= i < j < p.len() && p[i] == p[j]) {
        assert(p.no_duplicates()) by {
            assert forall|i: int, j: int|
                0 <= i < p.len() && 0 <= j < p.len() && i != j implies p[i] != p[j] by {
                if i < j {
                    assert(!(p[i] == p[j]));
                } else {
                    assert(!(p[j] == p[i]));
                }
            }
        }
        p.unique_seq_to_set();
        pool.unique_seq_to_set();
        assert(p.to_set().subset_of(pool.to_set())) by {
            assert forall|v: int| p.to_set().contains(v) implies pool.to_set().contains(v) by {
                assert(p.contains(v));
            }
        }
        vstd::seq_lib::seq_to_set_is_finite(pool);
        vstd::set_lib::lemma_len_subset(p.to_set(), pool.to_set());
        assert(false);
    }
}

/// When the constraints are acyclic, the schedule of any duplicate-free
/// node list exists.
pub proof fn lemma_kahn_complete(edges: Seq<(int, int)>, remaining: Seq<int>)
    requires
        remaining.no_duplicates(),
        !has_cycle(edges),
    ensures
        kahn_rec(edges, remaining) is Some,
    decreases remaining.len(),
{
    if remaining.len() > 0 {
        if first_source_from(edges, remaining, 0) is None {
            lemma_first_source_none(edges, remaining, 0);
            lemma_build_chain(edges, remaining, remaining.len() + 1);
            let p = choose|p: Seq<int>|
                {
                    &&& p.len() == remaining.len() + 2
                    &&& is_chain(edges, p)
                    &&& forall|i: int| 0 <= i < p.len() ==> remaining.contains(#[trigger] p[i])
                };
            lemma_pigeonhole(remaining, p);
            let (i, j) = choose|i: int, j: int| 0 <= i < j < p.len() && p[i] == p[j];
            let c = p.subrange(i, j + 1);
            assert(c.len() >= 2);
            assert(c[0] == c[c.len() - 1]);
            assert(is_chain(edges, c)) by {
                assert forall|k: int| 0 <= k < c.len() - 1 implies has_edge(
                    edges,
                    c[k],
                    #[trigger] c[k + 1],
                ) by {
                    assert(c[k] == p[i + k] && c[k + 1] == p[i + k + 1]);
                    assert(has_edge(edges, p[i + k], p[i + k + 1]));
                }
            }
            assert(has_cycle(edges));
            assert(false);
        } else {
            let p = first_source_from(edges, remaining, 0)->Some_0;
            lemma_first_source_props(edges, remaining, 0, p);
            lemma_remove_props(remaining, p);
            lemma_kahn_complete(edges, remaining.remove(p));
        }
    }
}

/// A graph whose schedule exists has no cycle among scheduled nodes.
pub proof fn lemma_kahn_acyclic(n: int, edges: Seq<(int, int)>, ord: Seq<int>)
    requires
        n >= 0,
        kahn(n, edges) == Some(ord),
        forall|i: int|
            0 <= i < edges.len() ==> 0 <= (#[trigger] edges[i]).0 < n && 0 <= edges[i].1 < n,
    ensures
        !has_cycle(edges),
{
    let all = Seq::new(n as nat, |i: int| i);
    assert(all.no_duplicates());
    lemma_kahn_sound(edges, all, ord);
    if has_cycle(edges) {
        let p = choose|p: Seq<int>|
            p.len() >= 2 && is_chain(edges, p) && p[0] == p[p.len() - 1];
        assert(has_edge(edges, p[0], p[1]));
        assert forall|k: int| 0 <= k < p.len() implies ord.contains(#[trigger] p[k]) by {
            if k < p.len() - 1 {
                assert(has_edge(edges, p[k], p[k + 1]));
                let e = choose|e: int| 0 <= e < edges.len() && edges[e] == (p[k], p[k + 1]);
                assert(0 <= edges[e].0 < n);
                assert(all.contains(p[k])) by {
                    assert(all[p[k]] == p[k]);
                }
            } else {
                assert(p[k] == p[0]);
                let e = choose|e: int| 0 <= e < edges.len() && edges[e] == (p[0], p[1]);
                assert(all.contains(p[0])) by {
                    assert(all[p[0]] == p[0]);
                }
            }
        }
        lemma_chain_positions(edges, ord, p);
        let pos0 = choose|i: int| 0 <= i < ord.len() && ord[i] == p[0];
        let posl = choose|i: int| 0 <= i < ord.len() && ord[i] == p[p.len() - 1];
        assert(pos0 < posl);
        assert(pos0 == posl);
        assert(false);
    }
}

/// Along a chain whose nodes all occur in an edge-respecting order, the
/// positions strictly increase from the first node to the last.
proof fn lemma_chain_positions(edges: Seq<(int, int)>, ord: Seq<int>, p: Seq<int>)
    requires
        p.len() >= 2,
        is_chain(edges, p),
        forall|k: int| 0 <= k < p.len() ==> ord.contains(#[trigger] p[k]),
        forall|i: int, j: int|
            0 <= i < ord.len() && 0 <= j < ord.len() && has_edge(edges, #[trigger] ord[i], #[trigger] ord[j])
                ==> i < j,
    ensures
        (choose|i: int| 0 <= i < ord.len() && ord[i] == p[0]) < (choose|i: int|
            0 <= i < ord.len() && ord[i] == p[p.len() - 1]),
    decreases p.len(),
{
    let last = p.len() - 1;
    let pos_first = choose|i: int| 0 <= i < ord.len() && ord[i] == p[0];
    let pos_last = choose|i: int| 0 <= i < ord.len() && ord[i] == p[last];
    if p.len() == 2 {
        assert(has_edge(edges, p[0], p[1]));
        assert(ord[pos_first] == p[0] && ord[pos_last] == p[1]);
    } else {
        let q = p.drop_last();
        assert(q.len() >= 2);
        assert(is_chain(edges, q)) by {
            assert forall|k: int| 0 <= k < q.len() - 1 implies has_edge(
                edges,
                q[k],
                #[trigger] q[k + 1],
            ) by {
                assert(q[k] == p[k] && q[k + 1] == p[k + 1]);
                assert(has_edge(edges, p[k], p[k + 1]));
            }
        }
        assert(forall|k: int| 0 <= k < q.len() ==> ord.contains(#[trigger] q[k])) by {
            assert(forall|k: int| 0 <= k < q.len() ==> q[k] == p[k]);
        }
        lemma_chain_positions(edges, ord, q);
        let pos_q_last = choose|i: int| 0 <= i < ord.len() && ord[i] == q[q.len() - 1];
        assert(q[0] == p[0]);
        assert(pos_first < pos_q_last);
        assert(has_edge(edges, p[last - 1], p[last]));
        assert(q[q.len() - 1] == p[last - 1]);
        assert(ord[pos_q_last] == p[last - 1] && ord[pos_last] == p[last]);
        assert(pos_q_last < pos_last);
    }
}

/// Along a chain whose every edge goes from a lower to a higher node,
/// the last node is strictly above the first.
proof fn lemma_chain_ascends(edges: Seq<(int, int)>, p: Seq<int>)
    requires
        forall|i: int| 0 <= i < edges.len() ==> (#[trigger] edges[i]).0 < edges[i].1,
        p.len() >= 2,
        is_chain(edges, p),
    ensures
        p[0] < p[p.len() - 1],
    decreases p.len(),
{
    let last = p.len() - 1;
    assert(has_edge(edges, p[last - 1], p[last]));
    let e = choose|i: int| 0 <= i < edges.len() && edges[i] == (p[last - 1], p[last]);
    assert(p[last - 1] < p[last]);
    if p.len() > 2 {
        let q = p.drop_last();
        assert(q.len() >= 2);
        assert(is_chain(edges, q)) by {
            assert forall|i: int| 0 <= i < q.len() - 1 implies has_edge(
                edges,
                #[trigger] q[i],
                q[i + 1],
            ) by {
                assert(q[i] == p[i] && q[i + 1] == p[i + 1]);
                assert(has_edge(edges, p[i], p[i + 1]));
            }
        }
        lemma_chain_ascends(edges, q);
        assert(q[0] == p[0] && q[q.len() - 1] == p[last - 1]);
    }
}

/// A constraint set whose every edge goes from a lower to a higher node
/// has no cycle.
pub proof fn lemma_forward_edges_acyclic(edges: Seq<(int, int)>)
    requires
        forall|i: int| 0 <= i < edges.len() ==> (#[trigger] edges[i]).0 < edges[i].1,
    ensures
        !has_cycle(edges),
{
    if has_cycle(edges) {
        let p = choose|p: Seq<int>|
            p.len() >= 2 && is_chain(edges, p) && p[0] == p[p.len() - 1];
        lemma_chain_ascends(edges, p);
        assert(false);
    }
}

} // verus!
