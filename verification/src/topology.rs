use vstd::prelude::*;

use crate::model::{BranchModel, Network, NetworkModel, SourceModel};

verus! {

/// The three symmetrical-component sequence networks.
#[derive(Clone, Copy, Debug, PartialEq, Eq)]
pub enum Sequence {
    Positive,
    Negative,
    Zero,
}

/// An edge of a sequence network: the bus positions it joins and the position of the
/// case branch it comes from.
#[derive(Clone, Copy, Debug)]
pub struct SeqBranch {
    pub from: usize,
    pub to: usize,
    pub branch: usize,
}

/// The connectivity of one sequence network over the buses of a case: its edges and,
/// for each bus, the positions of the edges that touch it.
#[derive(Clone, Debug)]
pub struct SeqTopology {
    pub bus_count: usize,
    pub branches: Vec<SeqBranch>,
    pub adjacency: Vec<Vec<usize>>,
}

/// Edge `e` joins `a` and `b`, in either direction.
pub open spec fn edge_joins(e: SeqBranch, a: int, b: int) -> bool {
    (e.from == a && e.to == b) || (e.from == b && e.to == a)
}

/// Some edge joins `a` and `b`.
pub open spec fn linked(edges: Seq<SeqBranch>, a: int, b: int) -> bool {
    exists|e: int| 0 <= e < edges.len() && #[trigger] edge_joins(edges[e], a, b)
}

/// `p` is a walk: consecutive nodes are joined by an edge.
pub open spec fn is_walk(edges: Seq<SeqBranch>, p: Seq<int>) -> bool {
    p.len() > 0 && forall|i: int| 0 <= i < p.len() - 1 ==> linked(edges, #[trigger] p[i], p[i + 1])
}

/// Some walk leads from `s` to `t`.
pub open spec fn reachable(edges: Seq<SeqBranch>, s: int, t: int) -> bool {
    exists|p: Seq<int>| #[trigger] is_walk(edges, p) && p[0] == s && p.last() == t
}

impl SeqTopology {
    pub open spec fn edges(&self) -> Seq<SeqBranch> {
        self.branches@
    }

    /// Every edge joins two buses of the network and is listed at both of them, and
    /// every listed edge touches the bus it is listed at.
    pub open spec fn well_formed(&self) -> bool {
        &&& self.adjacency@.len() == self.bus_count
        &&& forall|e: int|
            0 <= e < self.branches@.len() ==> {
                let b = #[trigger] self.branches@[e];
                &&& b.from < self.bus_count
                &&& b.to < self.bus_count
                &&& self.adjacency@[b.from as int]@.contains(e as usize)
                &&& self.adjacency@[b.to as int]@.contains(e as usize)
            }
        &&& forall|v: int, j: int|
            0 <= v < self.bus_count && 0 <= j < self.adjacency@[v]@.len() ==> {
                let e = #[trigger] self.adjacency@[v]@[j];
                &&& e < self.branches@.len()
                &&& (self.branches@[e as int].from == v || self.branches@[e as int].to == v)
            }
    }
}

/// Number of `true` entries.
pub open spec fn count_true(s: Seq<bool>) -> nat
    decreases s.len(),
{
    if s.len() == 0 {
        0
    } else {
        count_true(s.drop_last()) + if s.last() {
            1nat
        } else {
            0nat
        }
    }
}

pub(crate) proof fn lemma_count_true_bound(s: Seq<bool>)
    ensures
        count_true(s) <= s.len(),
    decreases s.len(),
{
    if s.len() > 0 {
        lemma_count_true_bound(s.drop_last());
    }
}

pub(crate) proof fn lemma_count_true_set(s: Seq<bool>, i: int)
    requires
        0 <= i < s.len(),
        !s[i],
    ensures
        count_true(s.update(i, true)) == count_true(s) + 1,
    decreases s.len(),
{
    let u = s.update(i, true);
    if i == s.len() - 1 {
        assert(u.drop_last() =~= s.drop_last());
    } else {
        assert(u.drop_last() =~= s.drop_last().update(i, true));
        lemma_count_true_set(s.drop_last(), i);
    }
}

pub(crate) proof fn lemma_count_true_none(n: nat)
    ensures
        count_true(Seq::new(n, |i: int| false)) == 0,
    decreases n,
{
    if n > 0 {
        assert(Seq::new(n, |i: int| false).drop_last() =~= Seq::new((n - 1) as nat, |i: int| false));
        lemma_count_true_none((n - 1) as nat);
    }
}

proof fn lemma_walk_extend(edges: Seq<SeqBranch>, p: Seq<int>, next: int)
    requires
        is_walk(edges, p),
        linked(edges, p.last(), next),
    ensures
        is_walk(edges, p.push(next)),
        p.push(next)[0] == p[0],
        p.push(next).last() == next,
{
    let q = p.push(next);
    assert forall|i: int| 0 <= i < q.len() - 1 implies linked(edges, #[trigger] q[i], q[i + 1]) by {
        if i < p.len() - 1 {
            assert(q[i] == p[i] && q[i + 1] == p[i + 1]);
        } else {
            assert(q[i] == p.last());
        }
    }
}

/// A set of nodes that holds `s` and is closed under every edge holds every node
/// reachable from `s`.
proof fn lemma_closed_holds_reachable(edges: Seq<SeqBranch>, seen: Seq<bool>, s: int, t: int)
    requires
        0 <= s < seen.len(),
        seen[s],
        forall|e: int|
            0 <= e < edges.len() ==> 0 <= (#[trigger] edges[e]).from < seen.len() && 0
                <= edges[e].to < seen.len() && (seen[edges[e].from as int]
                == seen[edges[e].to as int]),
        reachable(edges, s, t),
    ensures
        0 <= t < seen.len(),
        seen[t],
{
    let p = choose|p: Seq<int>| #[trigger] is_walk(edges, p) && p[0] == s && p.last() == t;
    lemma_walk_stays_in(edges, seen, p, p.len() - 1);
}

proof fn lemma_walk_stays_in(edges: Seq<SeqBranch>, seen: Seq<bool>, p: Seq<int>, i: int)
    requires
        is_walk(edges, p),
        0 <= i < p.len(),
        0 <= p[0] < seen.len(),
        seen[p[0]],
        forall|e: int|
            0 <= e < edges.len() ==> 0 <= (#[trigger] edges[e]).from < seen.len() && 0
                <= edges[e].to < seen.len() && (seen[edges[e].from as int]
                == seen[edges[e].to as int]),
    ensures
        0 <= p[i] < seen.len(),
        seen[p[i]],
    decreases i,
{
    if i > 0 {
        lemma_walk_stays_in(edges, seen, p, i - 1);
        assert(linked(edges, p[i - 1], p[i]));
        let e = choose|e: int| 0 <= e < edges.len() && #[trigger] edge_joins(edges[e], p[i - 1], p[i]);
        assert(edges[e].from < seen.len());
    }
}

/// The buses reachable from `start` in a sequence network, in increasing order.
pub fn connected_component(topo: &SeqTopology, start: usize) -> (out: Vec<usize>)
    requires
        topo.well_formed(),
        start < topo.bus_count,
    ensures
        forall|i: int, j: int| 0 <= i < j < out.len() ==> out[i] < out[j],
        forall|i: int| 0 <= i < out.len() ==> out[i] < topo.bus_count,
        forall|v: int|
            0 <= v < topo.bus_count ==> (out@.contains(v as usize) <==> reachable(
                topo.edges(),
                start as int,
                v,
            )),
{
    let n = topo.bus_count;
    let ghost edges = topo.edges();
    let mut seen: Vec<bool> = vec![false; n];
    proof {
        assert(seen@ =~= Seq::new(n as nat, |i: int| false));
        lemma_count_true_none(n as nat);
        lemma_count_true_set(seen@, start as int);
        let p = seq![start as int];
        assert(is_walk(edges, p));
    }
    seen.set(start, true);
    let mut queue: Vec<usize> = Vec::new();
    queue.push(start);
    proof {
        assert forall|v: int| 0 <= v < n && seen[v] implies exists|q: int|
            0 <= q < queue.len() && queue[q] == v by {
            assert(queue[0] == start);
        }
        assert forall|v: int| 0 <= v < n && seen[v] implies reachable(edges, start as int, v) by {
            let p = seq![start as int];
            assert(is_walk(edges, p));
        }
    }
    let mut head: usize = 0;
    while head < queue.len()
        invariant
            topo.well_formed(),
            n == topo.bus_count,
            edges == topo.edges(),
            start < n,
            seen.len() == n,
            seen[start as int],
            head <= queue.len(),
            queue.len() == count_true(seen@),
            forall|q: int| 0 <= q < queue.len() ==> queue[q] < n && seen[queue[q] as int],
            forall|v: int| 0 <= v < n && seen[v] ==> exists|q: int|
                0 <= q < queue.len() && queue[q] == v,
            forall|v: int| 0 <= v < n && seen[v] ==> reachable(edges, start as int, v),
            forall|q: int, j: int|
                0 <= q < head && 0 <= j < topo.adjacency@[queue[q] as int]@.len() ==> {
                    let e = #[trigger] topo.adjacency@[queue[q] as int]@[j];
                    seen[edges[e as int].from as int] && seen[edges[e as int].to as int]
                },
        decreases n - head,
    {
        proof {
            lemma_count_true_bound(seen@);
        }
        let node = queue[head];
        let adj = &topo.adjacency[node];
        let mut j: usize = 0;
        while j < adj.len()
            invariant
                topo.well_formed(),
                n == topo.bus_count,
                edges == topo.edges(),
                start < n,
                seen.len() == n,
                seen[start as int],
                head < queue.len(),
                node == queue[head as int],
                node < n,
                seen[node as int],
                adj == topo.adjacency@[node as int],
                j <= adj.len(),
                queue.len() == count_true(seen@),
                forall|q: int| 0 <= q < queue.len() ==> queue[q] < n && seen[queue[q] as int],
                forall|v: int| 0 <= v < n && seen[v] ==> exists|q: int|
                    0 <= q < queue.len() && queue[q] == v,
                forall|v: int| 0 <= v < n && seen[v] ==> reachable(edges, start as int, v),
                forall|q: int, jj: int|
                    0 <= q < head && 0 <= jj < topo.adjacency@[queue[q] as int]@.len() ==> {
                        let e = #[trigger] topo.adjacency@[queue[q] as int]@[jj];
                        seen[edges[e as int].from as int] && seen[edges[e as int].to as int]
                    },
                forall|jj: int|
                    0 <= jj < j ==> {
                        let e = #[trigger] adj@[jj];
                        seen[edges[e as int].from as int] && seen[edges[e as int].to as int]
                    },
            decreases adj.len() - j,
        {
            let e = adj[j];
            assert(topo.adjacency@[node as int]@[j as int] == e);
            let br = topo.branches[e];
            let next = if br.to == node {
                br.from
            } else {
                br.to
            };
            if !seen[next] {
                proof {
                    assert(edge_joins(edges[e as int], node as int, next as int));
                    assert(linked(edges, node as int, next as int));
                    let p = choose|p: Seq<int>|
                        #[trigger] is_walk(edges, p) && p[0] == start as int && p.last() == node as int;
                    lemma_walk_extend(edges, p, next as int);
                    assert(reachable(edges, start as int, next as int));
                    lemma_count_true_set(seen@, next as int);
                }
                let ghost old_queue = queue@;
                seen.set(next, true);
                queue.push(next);
                proof {
                    assert forall|v: int| 0 <= v < n && seen[v] implies exists|q: int|
                        0 <= q < queue.len() && queue[q] == v by {
                        if v == next {
                            assert(queue[queue.len() - 1] == next);
                        } else {
                            let q = choose|q: int| 0 <= q < old_queue.len() && old_queue[q] == v;
                            assert(queue[q] == v);
                        }
                    }
                }
            }
            j = j + 1;
        }
        proof {
            assert forall|q: int, jj: int|
                0 <= q < head + 1 && 0 <= jj < topo.adjacency@[queue[q] as int]@.len() implies {
                    let e = #[trigger] topo.adjacency@[queue[q] as int]@[jj];
                    seen[edges[e as int].from as int] && seen[edges[e as int].to as int]
                } by {
                if q == head {
                    assert(adj@[jj] == topo.adjacency@[queue[q] as int]@[jj]);
                }
            }
        }
        head = head + 1;
    }
    proof {
        assert forall|e: int| 0 <= e < edges.len() implies 0 <= (#[trigger] edges[e]).from
            < seen@.len() && 0 <= edges[e].to < seen@.len() && (seen@[edges[e].from as int]
            == seen@[edges[e].to as int]) by {
            let b = edges[e];
            assert(topo.branches@[e] == b);
            if seen@[b.from as int] || seen@[b.to as int] {
                let v: int = if seen@[b.from as int] {
                    b.from as int
                } else {
                    b.to as int
                };
                let q = choose|q: int| 0 <= q < queue.len() && queue[q] == v;
                let j = choose|j: int|
                    0 <= j < topo.adjacency@[v]@.len() && topo.adjacency@[v]@[j] == e as usize;
                assert(topo.adjacency@[queue[q] as int]@[j] == e as usize);
            }
        }
    }
    let mut out: Vec<usize> = Vec::new();
    let mut v: usize = 0;
    while v < n
        invariant
            n == topo.bus_count,
            seen.len() == n,
            v <= n,
            forall|i: int| 0 <= i < out.len() ==> out[i] < v,
            forall|i: int, j: int| 0 <= i < j < out.len() ==> out[i] < out[j],
            forall|w: int| 0 <= w < v ==> (out@.contains(w as usize) <==> seen[w]),
        decreases n - v,
    {
        let ghost before = out@;
        if seen[v] {
            out.push(v);
            proof {
                assert(out[out.len() - 1] == v);
            }
        }
        proof {
            assert forall|w: int| 0 <= w < v + 1 implies (out@.contains(w as usize) <==> seen[w]) by {
                if w < v {
                    if before.contains(w as usize) {
                        let k = choose|k: int| 0 <= k < before.len() && before[k] == w as usize;
                        assert(out@[k] == w as usize);
                    }
                    if out@.contains(w as usize) {
                        let k = choose|k: int| 0 <= k < out@.len() && out@[k] == w as usize;
                        if k < before.len() {
                            assert(before[k] == w as usize);
                        }
                    }
                } else {
                    if seen[v as int] {
                        assert(out@[out@.len() - 1] == v);
                    } else {
                        assert(out@ == before);
                    }
                }
            }
        }
        v = v + 1;
    }
    proof {
        assert forall|w: int| 0 <= w < n implies (out@.contains(w as usize) <==> reachable(
            edges,
            start as int,
            w,
        )) by {
            if reachable(edges, start as int, w) {
                lemma_closed_holds_reachable(edges, seen@, start as int, w);
            }
        }
    }
    out
}

/// The sequence network takes the branch's impedance at all: the zero sequence only
/// where the branch has zero-sequence data.
pub open spec fn sequence_uses_branch(b: BranchModel, seq: Sequence) -> bool {
    seq != Sequence::Zero || b.has_z0
}

/// The sequence network takes the source's impedance at all.
pub open spec fn sequence_uses_source(s: SourceModel, seq: Sequence) -> bool {
    seq != Sequence::Zero || s.has_z0
}

/// Branch `k` is an edge of the sequence network: it is enabled, both of its buses exist,
/// the sequence uses its impedance and that impedance is usable (`usable[k]`: magnitude
/// above 1e-14 and finite).
pub open spec fn branch_in_sequence(n: NetworkModel, seq: Sequence, usable: Seq<bool>, k: int) -> bool {
    let b = n.branches[k];
    &&& b.enabled
    &&& n.bus_position(b.from) is Some
    &&& n.bus_position(b.to) is Some
    &&& sequence_uses_branch(b, seq)
    &&& usable[k]
}

/// The edges contributed by the first `k` branches of the case, in order.
pub open spec fn sequence_edges(n: NetworkModel, seq: Sequence, usable: Seq<bool>, k: nat) -> Seq<
    SeqBranch,
>
    decreases k,
{
    if k == 0 {
        Seq::empty()
    } else {
        let prev = sequence_edges(n, seq, usable, (k - 1) as nat);
        let b = n.branches[k - 1];
        if branch_in_sequence(n, seq, usable, k - 1) {
            prev.push(
                SeqBranch {
                    from: n.bus_position(b.from)->0 as usize,
                    to: n.bus_position(b.to)->0 as usize,
                    branch: (k - 1) as usize,
                },
            )
        } else {
            prev
        }
    }
}

/// Source `k` is a shunt of the sequence network at the bus it connects to.
pub open spec fn source_in_sequence(n: NetworkModel, seq: Sequence, usable: Seq<bool>, k: int) -> bool {
    let s = n.sources[k];
    &&& s.enabled
    &&& n.bus_position(s.bus) is Some
    &&& sequence_uses_source(s, seq)
    &&& usable[k]
}

proof fn lemma_sequence_edges_bounds(n: NetworkModel, seq: Sequence, usable: Seq<bool>, k: nat)
    requires
        k <= n.branches.len(),
        n.buses.len() <= usize::MAX,
    ensures
        forall|e: int|
            0 <= e < sequence_edges(n, seq, usable, k).len() ==> {
                let b = #[trigger] sequence_edges(n, seq, usable, k)[e];
                b.from < n.buses.len() && b.to < n.buses.len()
            },
    decreases k,
{
    if k > 0 {
        lemma_sequence_edges_bounds(n, seq, usable, (k - 1) as nat);
        let b = n.branches[k - 1];
        crate::model::lemma_first_match(n.bus_ids(), b.from);
        crate::model::lemma_first_match(n.bus_ids(), b.to);
        let edges = sequence_edges(n, seq, usable, k);
        let prev = sequence_edges(n, seq, usable, (k - 1) as nat);
        assert forall|e: int| 0 <= e < edges.len() implies {
            let b = #[trigger] edges[e];
            b.from < n.buses.len() && b.to < n.buses.len()
        } by {
            if e < prev.len() {
                assert(edges[e] == prev[e]);
            }
        }
    }
}

/// The positions of the first `k` edges that touch bus `v`, in order; an edge from `v`
/// to itself is listed twice.
pub open spec fn incident_edges(edges: Seq<SeqBranch>, v: int, k: nat) -> Seq<usize>
    decreases k,
{
    if k == 0 {
        Seq::empty()
    } else {
        let e = edges[k - 1];
        incident_edges(edges, v, (k - 1) as nat) + (if e.from == v {
            seq![(k - 1) as usize]
        } else {
            Seq::empty()
        }) + (if e.to == v {
            seq![(k - 1) as usize]
        } else {
            Seq::empty()
        })
    }
}

proof fn lemma_incident_edges_prefix(a: Seq<SeqBranch>, b: Seq<SeqBranch>, v: int, k: nat)
    requires
        k <= a.len(),
        k <= b.len(),
        forall|i: int| 0 <= i < k ==> a[i] == b[i],
    ensures
        incident_edges(a, v, k) == incident_edges(b, v, k),
    decreases k,
{
    if k > 0 {
        lemma_incident_edges_prefix(a, b, v, (k - 1) as nat);
    }
}

impl SeqTopology {
    /// The connectivity of sequence network `seq` of a case. `usable[k]` tells whether
    /// branch `k`'s impedance in that sequence has magnitude above 1e-14 and is finite.
    pub fn build(net: &Network, seq: Sequence, usable: &Vec<bool>) -> (topo: SeqTopology)
        requires
            usable.len() == net.branches.len(),
        ensures
            topo.bus_count == net.buses.len(),
            topo.edges() == sequence_edges(net@, seq, usable@, net.branches.len() as nat),
            topo.well_formed(),
            forall|v: int|
                0 <= v < topo.bus_count ==> (#[trigger] topo.adjacency@[v])@ == incident_edges(
                    topo.edges(),
                    v,
                    topo.edges().len(),
                ),
    {
        let n = net.buses.len();
        let mut adjacency: Vec<Vec<usize>> = Vec::new();
        while adjacency.len() < n
            invariant
                adjacency.len() <= n,
                forall|v: int| 0 <= v < adjacency.len() ==> (#[trigger] adjacency@[v])@.len() == 0,
            decreases n - adjacency.len(),
        {
            adjacency.push(Vec::new());
        }
        let mut topo = SeqTopology { bus_count: n, branches: Vec::new(), adjacency };
        let mut k: usize = 0;
        while k < net.branches.len()
            invariant
                n == net.buses.len(),
                usable.len() == net.branches.len(),
                topo.bus_count == n,
                k <= net.branches.len(),
                topo.edges() == sequence_edges(net@, seq, usable@, k as nat),
                topo.well_formed(),
                forall|v: int|
                    0 <= v < topo.bus_count ==> (#[trigger] topo.adjacency@[v])@ == incident_edges(
                        topo.edges(),
                        v,
                        topo.edges().len(),
                    ),
            decreases net.branches.len() - k,
        {
            proof {
                lemma_sequence_edges_bounds(net@, seq, usable@, (k + 1) as nat);
            }
            let b = &net.branches[k];
            let uses = match seq {
                Sequence::Zero => b.has_z0,
                _ => true,
            };
            if b.enabled && uses && usable[k] {
                let from = net.bus_index(b.from.as_str());
                let to = net.bus_index(b.to.as_str());
                if let (Some(f), Some(t)) = (from, to) {
                    let idx = topo.branches.len();
                    let ghost old_topo_adj = topo.adjacency@;
                    let ghost old_edges = topo.edges();
                    topo.branches.push(SeqBranch { from: f, to: t, branch: k });
                    let mut inner = topo.adjacency[f].clone();
                    inner.push(idx);
                    topo.adjacency.set(f, inner);
                    let mut inner = topo.adjacency[t].clone();
                    inner.push(idx);
                    topo.adjacency.set(t, inner);
                    proof {
                        assert(topo.edges() =~= sequence_edges(net@, seq, usable@, (k + 1) as nat));
                        assert forall|v: int| 0 <= v < topo.bus_count implies (
                        #[trigger] topo.adjacency@[v])@ == incident_edges(
                            topo.edges(),
                            v,
                            topo.edges().len(),
                        ) by {
                            lemma_incident_edges_prefix(old_edges, topo.edges(), v, idx as nat);
                            assert(topo.edges()[idx as int] == SeqBranch { from: f, to: t, branch: k });
                            if v == f as int && v == t as int {
                                assert(topo.adjacency@[v]@ =~= old_topo_adj[v]@.push(idx).push(idx));
                            } else if v == f as int {
                                assert(topo.adjacency@[v]@ =~= old_topo_adj[v]@.push(idx));
                            } else if v == t as int {
                                assert(topo.adjacency@[v]@ =~= old_topo_adj[v]@.push(idx));
                            } else {
                                assert(topo.adjacency@[v] == old_topo_adj[v]);
                            }
                            assert(topo.adjacency@[v]@ =~= incident_edges(
                                topo.edges(),
                                v,
                                topo.edges().len(),
                            ));
                        }
                        assert forall|e: int| 0 <= e < topo.branches@.len() implies {
                            let b = #[trigger] topo.branches@[e];
                            &&& b.from < topo.bus_count
                            &&& b.to < topo.bus_count
                            &&& topo.adjacency@[b.from as int]@.contains(e as usize)
                            &&& topo.adjacency@[b.to as int]@.contains(e as usize)
                        } by {
                            let b = topo.branches@[e];
                            if e < idx {
                                assert(old_edges[e] == b);
                                let jf = choose|j: int| 0 <= j < old_topo_adj[b.from as int]@.len() && old_topo_adj[b.from as int]@[j] == e as usize;
                                assert(topo.adjacency@[b.from as int]@[jf] == e as usize);
                                let jt = choose|j: int| 0 <= j < old_topo_adj[b.to as int]@.len() && old_topo_adj[b.to as int]@[j] == e as usize;
                                assert(topo.adjacency@[b.to as int]@[jt] == e as usize);
                            } else {
                                let lf = topo.adjacency@[f as int]@.len() - 1;
                                let lt = topo.adjacency@[t as int]@.len() - 1;
                                if f != t {
                                    assert(topo.adjacency@[f as int]@[lf] == e as usize);
                                } else {
                                    assert(topo.adjacency@[f as int]@[lf - 1] == e as usize);
                                }
                                assert(topo.adjacency@[t as int]@[lt] == e as usize);
                            }
                        }
                        assert forall|v: int, j: int|
                            0 <= v < topo.bus_count && 0 <= j < topo.adjacency@[v]@.len() implies {
                                let e = #[trigger] topo.adjacency@[v]@[j];
                                &&& e < topo.branches@.len()
                                &&& (topo.branches@[e as int].from == v || topo.branches@[e as int].to == v)
                            } by {
                            let e = topo.adjacency@[v]@[j];
                            if j < old_topo_adj[v]@.len() {
                                assert(old_topo_adj[v]@[j] == e);
                                assert(topo.branches@[e as int] == old_edges[e as int]);
                            } else {
                                assert(e == idx);
                            }
                        }
                    }
                } else {
                    proof {
                        crate::model::lemma_first_match(net@.bus_ids(), b.from@);
                        crate::model::lemma_first_match(net@.bus_ids(), b.to@);
                        assert(topo.edges() =~= sequence_edges(net@, seq, usable@, (k + 1) as nat));
                    }
                }
            } else {
                proof {
                    assert(topo.edges() =~= sequence_edges(net@, seq, usable@, (k + 1) as nat));
                }
            }
            k = k + 1;
        }
        topo
    }
}

/// For each source of the case, the bus position at which it is a shunt of sequence
/// network `seq`, or `None` when it takes no part. `usable[k]` tells whether source `k`'s
/// impedance in that sequence has magnitude above 1e-14 and is finite.
pub fn source_shunt_buses(net: &Network, seq: Sequence, usable: &Vec<bool>) -> (r: Vec<Option<usize>>)
    requires
        usable.len() == net.sources.len(),
    ensures
        r.len() == net.sources.len(),
        forall|k: int|
            0 <= k < r.len() ==> (#[trigger] r@[k] matches Some(i) ==> source_in_sequence(
                net@,
                seq,
                usable@,
                k,
            ) && net@.bus_position(net@.sources[k].bus) == Some(i as int) && i < net.buses.len()),
        forall|k: int|
            0 <= k < r.len() ==> (#[trigger] r@[k] is None <==> !source_in_sequence(
                net@,
                seq,
                usable@,
                k,
            )),
        seq != Sequence::Zero ==> forall|k: int|
            0 <= k < r.len() ==> ((#[trigger] r@[k] is Some) <==> (net@.sources[k].enabled
                && usable@[k] && net@.bus_position(net@.sources[k].bus) is Some)),
        seq == Sequence::Zero ==> forall|k: int|
            0 <= k < r.len() ==> ((#[trigger] r@[k] is Some) <==> (net@.sources[k].enabled
                && usable@[k] && net@.bus_position(net@.sources[k].bus) is Some
                && net@.sources[k].has_z0)),
{
    let mut r: Vec<Option<usize>> = Vec::new();
    let mut k: usize = 0;
    while k < net.sources.len()
        invariant
            usable.len() == net.sources.len(),
            k <= net.sources.len(),
            r.len() == k,
            forall|j: int|
                0 <= j < r.len() ==> (#[trigger] r@[j] matches Some(i) ==> source_in_sequence(
                    net@,
                    seq,
                    usable@,
                    j,
                ) && net@.bus_position(net@.sources[j].bus) == Some(i as int) && i < net.buses.len()),
            forall|j: int|
                0 <= j < r.len() ==> (#[trigger] r@[j] is None <==> !source_in_sequence(
                    net@,
                    seq,
                    usable@,
                    j,
                )),
        decreases net.sources.len() - k,
    {
        let s = &net.sources[k];
        let uses = match seq {
            Sequence::Zero => s.has_z0,
            _ => true,
        };
        let entry = if s.enabled && uses && usable[k] {
            net.bus_index(s.bus.as_str())
        } else {
            None
        };
        r.push(entry);
        k = k + 1;
    }
    r
}

/// Some bus of the component has a shunt path to the reference (`shunt_present[i]`:
/// the sequence shunt admittance at bus `i` has magnitude above 1e-14).
pub fn has_ground_path(component: &Vec<usize>, shunt_present: &Vec<bool>) -> (r: bool)
    requires
        forall|i: int| 0 <= i < component.len() ==> component[i] < shunt_present.len(),
    ensures
        r == exists|i: int| 0 <= i < component.len() && shunt_present[#[trigger] component[i] as int],
{
    let mut i: usize = 0;
    while i < component.len()
        invariant
            i <= component.len(),
            forall|j: int| 0 <= j < component.len() ==> component[j] < shunt_present.len(),
            forall|j: int| 0 <= j < i ==> !shunt_present[#[trigger] component[j] as int],
        decreases component.len() - i,
    {
        if shunt_present[component[i]] {
            return true;
        }
        i = i + 1;
    }
    false
}

/// Marker of a bus outside the component in `component_positions`.
pub const OUTSIDE: usize = usize::MAX;

/// For each of `n` buses, its position in `component`, or `OUTSIDE` when it is not in it.
pub fn component_positions(component: &Vec<usize>, n: usize) -> (pos: Vec<usize>)
    requires
        forall|i: int| 0 <= i < component.len() ==> component[i] < n,
        forall|i: int, j: int| 0 <= i < j < component.len() ==> component[i] < component[j],
        component.len() < usize::MAX,
    ensures
        pos.len() == n,
        forall|l: int| 0 <= l < component.len() ==> pos[#[trigger] component[l] as int] == l,
        forall|v: int| 0 <= v < n && !component@.contains(v as usize) ==> pos[v] == OUTSIDE,
{
    let mut pos: Vec<usize> = Vec::new();
    while pos.len() < n
        invariant
            pos.len() <= n,
            forall|v: int| 0 <= v < pos.len() ==> pos[v] == OUTSIDE,
        decreases n - pos.len(),
    {
        pos.push(OUTSIDE);
    }
    let mut l: usize = 0;
    while l < component.len()
        invariant
            pos.len() == n,
            l <= component.len(),
            component.len() < usize::MAX,
            forall|i: int| 0 <= i < component.len() ==> component[i] < n,
            forall|i: int, j: int| 0 <= i < j < component.len() ==> component[i] < component[j],
            forall|i: int| 0 <= i < l ==> pos[#[trigger] component[i] as int] == i,
            forall|v: int|
                0 <= v < n && !component@.take(l as int).contains(v as usize) ==> pos[v] == OUTSIDE,
        decreases component.len() - l,
    {
        let ghost before = pos@;
        pos.set(component[l], l);
        proof {
            assert forall|i: int| 0 <= i < l + 1 implies pos[#[trigger] component[i] as int] == i by {
                if i < l {
                    assert(component[i] != component[l as int]);
                }
            }
            assert forall|v: int|
                0 <= v < n && !component@.take(l + 1).contains(v as usize) implies pos[v] == OUTSIDE by {
                assert(component@.take(l + 1)[l as int] == component[l as int]);
                if component@.take(l as int).contains(v as usize) {
                    let k = choose|k: int| 0 <= k < l && component@.take(l as int)[k] == v as usize;
                    assert(component@.take(l + 1)[k] == v as usize);
                }
            }
        }
        l = l + 1;
    }
    proof {
        assert(component@.take(component.len() as int) =~= component@);
    }
    pos
}

/// Every bus is reachable from itself.
pub proof fn lemma_reachable_reflexive(edges: Seq<SeqBranch>, s: int)
    ensures
        reachable(edges, s, s),
{
    let p = seq![s];
    assert(is_walk(edges, p));
}

/// Reachability is symmetric: a walk from `s` to `t` read backwards leads from `t` to `s`.
/// So bus `t` is in the component of bus `s` exactly when `s` is in the component of `t`.
pub proof fn lemma_reachable_symmetric(edges: Seq<SeqBranch>, s: int, t: int)
    requires
        reachable(edges, s, t),
    ensures
        reachable(edges, t, s),
{
    let p = choose|p: Seq<int>| #[trigger] is_walk(edges, p) && p[0] == s && p.last() == t;
    let q = p.reverse();
    assert forall|i: int| 0 <= i < q.len() - 1 implies linked(edges, #[trigger] q[i], q[i + 1]) by {
        let a = p.len() - 1 - i;
        assert(q[i] == p[a]);
        assert(q[i + 1] == p[a - 1]);
        assert(linked(edges, p[a - 1], p[a]));
        let e = choose|e: int| 0 <= e < edges.len() && #[trigger] edge_joins(edges[e], p[a - 1], p[a]);
        assert(edge_joins(edges[e], q[i], q[i + 1]));
    }
    assert(is_walk(edges, q));
}

/// Reachability is transitive: a walk from `s` to `t` followed by one from `t` to `u`
/// leads from `s` to `u`. With the two laws above, the components partition the buses.
pub proof fn lemma_reachable_transitive(edges: Seq<SeqBranch>, s: int, t: int, u: int)
    requires
        reachable(edges, s, t),
        reachable(edges, t, u),
    ensures
        reachable(edges, s, u),
{
    let p = choose|p: Seq<int>| #[trigger] is_walk(edges, p) && p[0] == s && p.last() == t;
    let q = choose|q: Seq<int>| #[trigger] is_walk(edges, q) && q[0] == t && q.last() == u;
    let w = p + q.drop_first();
    assert forall|i: int| 0 <= i < w.len() - 1 implies linked(edges, #[trigger] w[i], w[i + 1]) by {
        if i < p.len() - 1 {
            assert(w[i] == p[i] && w[i + 1] == p[i + 1]);
        } else {
            let k = i - (p.len() - 1);
            assert(w[i] == q[k]);
            assert(w[i + 1] == q[k + 1]);
            assert(linked(edges, q[k], q[k + 1]));
        }
    }
    assert(is_walk(edges, w));
    if q.len() == 1 {
        assert(w =~= p);
    } else {
        assert(w.last() == q.last());
    }
}

/// A bus in the component of `s` has the same component as `s`: the components of a
/// sequence network partition its buses, and each faulted bus is solved on its own one.
pub proof fn lemma_same_component(edges: Seq<SeqBranch>, s: int, t: int, v: int)
    requires
        reachable(edges, s, t),
    ensures
        reachable(edges, s, v) <==> reachable(edges, t, v),
{
    lemma_reachable_symmetric(edges, s, t);
    if reachable(edges, s, v) {
        lemma_reachable_transitive(edges, t, s, v);
    }
    if reachable(edges, t, v) {
        lemma_reachable_transitive(edges, s, t, v);
    }
}

/// What the first `k` edges of a sequence network hold (see the law below).
pub open spec fn edges_match_branches(n: NetworkModel, seq: Sequence, usable: Seq<bool>, k: nat) -> bool {
    let edges = sequence_edges(n, seq, usable, k);
    &&& forall|e: int|
        0 <= e < edges.len() ==> {
            let b = #[trigger] edges[e];
            &&& b.branch < k
            &&& branch_in_sequence(n, seq, usable, b.branch as int)
            &&& n.bus_position(n.branches[b.branch as int].from) == Some(b.from as int)
            &&& n.bus_position(n.branches[b.branch as int].to) == Some(b.to as int)
        }
    &&& forall|i: int, j: int|
        0 <= i < j < edges.len() ==> (#[trigger] edges[i]).branch < (#[trigger] edges[j]).branch
    &&& forall|m: int|
        0 <= m < k && branch_in_sequence(n, seq, usable, m) ==> exists|e: int|
            0 <= e < edges.len() && (#[trigger] edges[e]).branch == m
}

proof fn lemma_edges_match_upto(n: NetworkModel, seq: Sequence, usable: Seq<bool>, k: nat)
    requires
        k <= n.branches.len(),
        n.branches.len() <= usize::MAX,
        n.buses.len() <= usize::MAX,
    ensures
        edges_match_branches(n, seq, usable, k),
    decreases k,
{
    if k > 0 {
        let j = k - 1;
        lemma_edges_match_upto(n, seq, usable, j as nat);
        let prev = sequence_edges(n, seq, usable, j as nat);
        let edges = sequence_edges(n, seq, usable, k);
        if branch_in_sequence(n, seq, usable, j) {
            let b = n.branches[j];
            crate::model::lemma_first_match(n.bus_ids(), b.from);
            crate::model::lemma_first_match(n.bus_ids(), b.to);
            let new = edges.last();
            assert(new.branch == j);
            assert(new.from as int == n.bus_position(b.from)->0);
            assert(new.to as int == n.bus_position(b.to)->0);
            assert forall|e: int| 0 <= e < edges.len() implies {
                let x = #[trigger] edges[e];
                &&& x.branch < k
                &&& branch_in_sequence(n, seq, usable, x.branch as int)
                &&& n.bus_position(n.branches[x.branch as int].from) == Some(x.from as int)
                &&& n.bus_position(n.branches[x.branch as int].to) == Some(x.to as int)
            } by {
                if e < prev.len() {
                    assert(edges[e] == prev[e]);
                }
            }
            assert forall|a: int, c: int| 0 <= a < c < edges.len() implies (#[trigger] edges[a]).branch
                < (#[trigger] edges[c]).branch by {
                assert(edges[a] == prev[a]);
                if c < prev.len() {
                    assert(edges[c] == prev[c]);
                }
            }
            assert forall|m: int| 0 <= m < k && branch_in_sequence(n, seq, usable, m) implies exists|e: int|
                0 <= e < edges.len() && (#[trigger] edges[e]).branch == m by {
                if m < j {
                    let e = choose|e: int| 0 <= e < prev.len() && (#[trigger] prev[e]).branch == m;
                    assert(edges[e] == prev[e]);
                } else {
                    assert(edges[edges.len() - 1].branch == m);
                }
            }
        } else {
            assert(edges == prev);
        }
    }
}

/// The edges of a sequence network are exactly the branches that take part in it: each
/// edge comes from an enabled branch between two existing buses whose impedance that
/// sequence uses, and joins those buses; each such branch gives an edge; and the edges
/// keep the order of the branches. So a disabled branch joins nothing.
pub proof fn lemma_edges_are_the_branches_in_sequence(n: NetworkModel, seq: Sequence, usable: Seq<bool>)
    requires
        n.branches.len() <= usize::MAX,
        n.buses.len() <= usize::MAX,
    ensures
        edges_match_branches(n, seq, usable, n.branches.len()),
{
    lemma_edges_match_upto(n, seq, usable, n.branches.len());
}

/// A branch is an edge of the positive- and of the negative-sequence network exactly when
/// it is enabled, joins two existing buses and its impedance there is usable, whatever
/// its zero-sequence data; it is an edge of the zero-sequence network when, besides, it
/// has zero-sequence data.
pub proof fn lemma_which_branches_join(n: NetworkModel, seq: Sequence, usable: Seq<bool>, k: int)
    ensures
        branch_in_sequence(n, seq, usable, k) <==> (n.branches[k].enabled && usable[k]
            && n.bus_position(n.branches[k].from) is Some && n.bus_position(n.branches[k].to) is Some
            && (seq == Sequence::Zero ==> n.branches[k].has_z0)),
{
}

/// A source is a shunt of the positive- and of the negative-sequence network exactly when
/// it is enabled, its bus exists and its impedance there is usable, whatever its
/// zero-sequence data; it is a shunt of the zero-sequence network when, besides, it has
/// zero-sequence data.
pub proof fn lemma_which_sources_are_shunts(n: NetworkModel, seq: Sequence, usable: Seq<bool>, k: int)
    ensures
        source_in_sequence(n, seq, usable, k) <==> (n.sources[k].enabled && usable[k]
            && n.bus_position(n.sources[k].bus) is Some && (seq == Sequence::Zero
            ==> n.sources[k].has_z0)),
{
}

} // verus!
