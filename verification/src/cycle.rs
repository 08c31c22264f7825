//! Cycle detection on the exec flow graph, by reachability closure:
//! a node lies on a cycle exactly when it is reachable from one of its
//! own successors, and the failure is attributed to the first node
//! from which any cycle can be reached.

use vstd::prelude::*;

use crate::compile::{
    spec_cycle_error, t_exec_succ, t_is_path, t_on_cycle, t_pin_type, t_reaches, t_reaches_cycle,
};
use crate::error::{CompileError, ValidationError};
use crate::model::{BlueprintGraph, DataType, NodeId};
use crate::seq_search::{lemma_first_where_is, lemma_first_where_none};
use crate::views::{GraphT, graph_t};

verus! {

/// Whether this id is the id of some node of the graph image.
pub open spec fn t_is_node_id(g: GraphT, x: NodeId) -> bool {
    exists|i: int| 0 <= i < g.nodes.len() && (#[trigger] g.nodes[i]).id == x
}

/// A set of ids closed under exec successorship.
pub open spec fn spec_succ_closed(g: GraphT, s: Seq<NodeId>) -> bool {
    forall|x: NodeId, y: NodeId|
        s.contains(x) && #[trigger] t_exec_succ(g, x, y) ==> s.contains(y)
}

/// Reachability in zero steps: a one-entry walk.
pub proof fn lemma_reach_refl(g: GraphT, a: NodeId)
    ensures
        t_reaches(g, a, a),
{
    let p = seq![a];
    assert(t_is_path(g, p));
    assert(p[0] == a && p.last() == a);
}

/// Reachability extends along one successor step.
pub proof fn lemma_reach_step(g: GraphT, a: NodeId, b: NodeId, c: NodeId)
    requires
        t_reaches(g, a, b),
        t_exec_succ(g, b, c),
    ensures
        t_reaches(g, a, c),
{
    let p = choose|p: Seq<NodeId>| t_is_path(g, p) && p[0] == a && p.last() == b;
    let q = p.push(c);
    assert forall|i: int| 0 <= i < q.len() - 1 implies t_exec_succ(g, #[trigger] q[i], q[i + 1]) by {
        if i < p.len() - 1 {
            assert(q[i] == p[i] && q[i + 1] == p[i + 1]);
            assert(t_exec_succ(g, p[i], p[i + 1]));
        } else {
            assert(q[i] == p.last() && q[i + 1] == c);
        }
    }
    assert(t_is_path(g, q));
    assert(q[0] == a && q.last() == c);
}

/// Everything on a walk that starts inside a successor-closed set stays
/// inside it.
proof fn lemma_path_stays(g: GraphT, s: Seq<NodeId>, p: Seq<NodeId>)
    requires
        t_is_path(g, p),
        s.contains(p[0]),
        spec_succ_closed(g, s),
    ensures
        s.contains(p.last()),
    decreases p.len(),
{
    if p.len() > 1 {
        let q = p.drop_last();
        assert forall|i: int| 0 <= i < q.len() - 1 implies t_exec_succ(
            g,
            #[trigger] q[i],
            q[i + 1],
        ) by {
            assert(t_exec_succ(g, p[i], p[i + 1]));
        }
        assert(t_is_path(g, q));
        assert(q[0] == p[0]);
        lemma_path_stays(g, s, q);
        assert(t_exec_succ(g, p[p.len() - 2], p[p.len() - 1]));
        assert(s.contains(p[p.len() - 2]));
    }
}

/// A successor-closed set holding `a` holds everything reachable from `a`.
pub proof fn lemma_reach_closed(g: GraphT, s: Seq<NodeId>, a: NodeId, b: NodeId)
    requires
        s.contains(a),
        spec_succ_closed(g, s),
        t_reaches(g, a, b),
    ensures
        s.contains(b),
{
    let p = choose|p: Seq<NodeId>| t_is_path(g, p) && p[0] == a && p.last() == b;
    lemma_path_stays(g, s, p);
}

/// The owner of a pin bears the id of some node.
pub proof fn lemma_succ_is_node_id(g: GraphT, a: NodeId, b: NodeId)
    requires
        t_exec_succ(g, a, b),
    ensures
        t_is_node_id(g, a),
        t_is_node_id(g, b),
{
    let k = choose|k: int|
        0 <= k < g.links.len() && {
            let l = #[trigger] g.links[k];
            &&& t_pin_type(g, l.from) == Some(DataType::Exec)
            &&& match crate::compile::t_pin_owner(g, l.from) {
                Some(n) => n.id == a,
                None => false,
            }
            &&& match crate::compile::t_pin_owner(g, l.to) {
                Some(n) => n.id == b,
                None => false,
            }
        };
    let l = g.links[k];
    crate::seq_search::lemma_first_where(
        g.nodes,
        |n: crate::views::NodeT| crate::compile::t_node_has_pin(n, l.from),
    );
    crate::seq_search::lemma_first_where(
        g.nodes,
        |n: crate::views::NodeT| crate::compile::t_node_has_pin(n, l.to),
    );
}

/// A sequence of distinct node ids is no longer than the node list.
proof fn lemma_id_seq_bound(g: GraphT, s: Seq<NodeId>)
    requires
        s.no_duplicates(),
        forall|x: NodeId| s.contains(x) ==> t_is_node_id(g, x),
    ensures
        s.len() <= g.nodes.len(),
{
    broadcast use vstd::seq_lib::seq_to_set_is_finite;

    let ids = g.nodes.map_values(|n: crate::views::NodeT| n.id);
    assert forall|x: NodeId| s.to_set().contains(x) implies ids.to_set().contains(x) by {
        assert(s.contains(x));
        assert(t_is_node_id(g, x));
        let i = choose|i: int| 0 <= i < g.nodes.len() && (#[trigger] g.nodes[i]).id == x;
        assert(ids[i] == x);
        assert(ids.contains(x));
    }
    s.unique_seq_to_set();
    ids.lemma_cardinality_of_set();
    vstd::set_lib::lemma_len_subset(s.to_set(), ids.to_set());
}

/// Whether the vector holds this id.
fn vec_contains(v: &Vec<NodeId>, x: NodeId) -> (r: bool)
    ensures
        r == v@.contains(x),
{
    let n = v.len();
    let mut i: usize = 0;
    while i < n
        invariant
            n == v@.len(),
            i <= n,
            forall|j: int| 0 <= j < i ==> v@[j] != x,
        decreases n - i,
    {
        if v[i].0 == x.0 {
            return true;
        }
        i += 1;
    }
    false
}

/// The exec successors of a node: every id `b` with `t_exec_succ` from
/// `v` appears in the result, and nothing else does.
fn exec_successors(g: &BlueprintGraph, v: NodeId) -> (r: Vec<NodeId>)
    ensures
        forall|b: NodeId| r@.contains(b) <==> t_exec_succ(graph_t(*g), v, b),
{
    let ghost gt = graph_t(*g);
    let n = g.links.len();
    let mut out: Vec<NodeId> = Vec::new();
    let mut k: usize = 0;
    while k < n
        invariant
            gt == graph_t(*g),
            n == g.links@.len(),
            k <= n,
            forall|b: NodeId| out@.contains(b) ==> t_exec_succ(gt, v, b),
            forall|kk: int| 0 <= kk < k ==> {
                let l = #[trigger] gt.links[kk];
                (t_pin_type(gt, l.from) == Some(DataType::Exec) && match crate::compile::t_pin_owner(
                    gt,
                    l.from,
                ) {
                    Some(nn) => nn.id == v,
                    None => false,
                }) ==> match crate::compile::t_pin_owner(gt, l.to) {
                    Some(nn) => out@.contains(nn.id),
                    None => true,
                }
            },
        decreases n - k,
    {
        let l = g.links[k];
        proof {
            assert(gt.links[k as int] == g.links@[k as int]);
        }
        let is_exec = match crate::compile::pin_type(g, l.from) {
            Some(DataType::Exec) => true,
            _ => false,
        };
        if is_exec {
            let from_owner = crate::compile::pin_owner_id(g, l.from);
            let to_owner = crate::compile::pin_owner_id(g, l.to);
            if let (Some(a), Some(b)) = (from_owner, to_owner) {
                if a.0 == v.0 {
                    let ghost before = out@;
                    out.push(b);
                    proof {
                        assert(out@ == before.push(b));
                        assert(out@.contains(b)) by {
                            assert(out@[out@.len() - 1] == b);
                        }
                        assert forall|x: NodeId| out@.contains(x) implies t_exec_succ(
                            gt,
                            v,
                            x,
                        ) by {
                            if x != b {
                                let ix = choose|ix: int|
                                    0 <= ix < out@.len() && out@[ix] == x;
                                assert(before[ix] == x);
                                assert(before.contains(x));
                            } else {
                                assert(t_exec_succ(gt, v, b)) by {
                                    assert(0 <= k < gt.links.len());
                                }
                            }
                        }
                        assert forall|x: NodeId| before.contains(x) implies out@.contains(x) by {
                            let ix = choose|ix: int| 0 <= ix < before.len() && before[ix] == x;
                            assert(out@[ix] == x);
                        }
                    }
                }
            }
        }
        k += 1;
    }
    proof {
        assert forall|b: NodeId| t_exec_succ(gt, v, b) implies out@.contains(b) by {
            let kk = choose|kk: int|
                0 <= kk < gt.links.len() && {
                    let l = #[trigger] gt.links[kk];
                    &&& t_pin_type(gt, l.from) == Some(DataType::Exec)
                    &&& match crate::compile::t_pin_owner(gt, l.from) {
                        Some(nn) => nn.id == v,
                        None => false,
                    }
                    &&& match crate::compile::t_pin_owner(gt, l.to) {
                        Some(nn) => nn.id == b,
                        None => false,
                    }
                };
        }
    }
    out
}

/// Every node reachable from `start`, as a duplicate-free list.
#[verifier::rlimit(100)]
fn reach_from(g: &BlueprintGraph, start: NodeId) -> (r: Vec<NodeId>)
    ensures
        forall|b: NodeId| r@.contains(b) <==> t_reaches(graph_t(*g), start, b),
{
    let ghost gt = graph_t(*g);
    let mut rset: Vec<NodeId> = Vec::new();
    let mut frontier: Vec<NodeId> = Vec::new();
    rset.push(start);
    frontier.push(start);
    proof {
        lemma_reach_refl(gt, start);
        assert(rset@.len() == 1 && rset@[0] == start);
        assert(frontier@.len() == 1 && frontier@[0] == start);
        assert(rset@.contains(start));
        assert forall|x: NodeId| #[trigger] rset@.contains(x) implies x == start by {
            let ix = choose|ix: int| 0 <= ix < rset@.len() && rset@[ix] == x;
        }
        assert forall|x: NodeId| #[trigger] frontier@.contains(x) implies rset@.contains(x) by {
            let ix = choose|ix: int| 0 <= ix < frontier@.len() && frontier@[ix] == x;
            assert(x == start);
        }
    }
    loop
        invariant
            gt == graph_t(*g),
            rset@.no_duplicates(),
            rset@.contains(start),
            forall|x: NodeId| #[trigger] rset@.contains(x) ==> t_reaches(gt, start, x),
            forall|x: NodeId| #[trigger] frontier@.contains(x) ==> rset@.contains(x),
            forall|x: NodeId, y: NodeId|
                rset@.contains(x) && !frontier@.contains(x) && #[trigger] t_exec_succ(gt, x, y)
                    ==> rset@.contains(y),
            forall|x: NodeId| #[trigger] rset@.contains(x) ==> (t_is_node_id(gt, x) || x == start),
        ensures
            forall|x: NodeId| #[trigger] rset@.contains(x) ==> t_reaches(gt, start, x),
            forall|x: NodeId, y: NodeId|
                rset@.contains(x) && #[trigger] t_exec_succ(gt, x, y) ==> rset@.contains(y),
            rset@.contains(start),
        decreases (graph_t(*g).nodes.len() + 1 - rset@.len()), frontier@.len(),
    {
        proof {
            lemma_id_seq_bound_weak(gt, rset@, start);
        }
        let ghost f0 = frontier@;
        let popped = frontier.pop();
        let v = match popped {
            Some(v) => v,
            None => {
                break;
            },
        };
        proof {
            assert(f0[f0.len() - 1] == v);
            assert(f0.contains(v));
            assert(rset@.contains(v));
            assert(frontier@ == f0.drop_last());
            assert forall|x: NodeId| #[trigger] frontier@.contains(x) implies rset@.contains(
                x,
            ) by {
                let ix = choose|ix: int| 0 <= ix < frontier@.len() && frontier@[ix] == x;
                assert(f0[ix] == x);
                assert(f0.contains(x));
            }
            assert forall|x: NodeId| x != v && f0.contains(x) implies frontier@.contains(x) by {
                let ix = choose|ix: int| 0 <= ix < f0.len() && f0[ix] == x;
                assert(frontier@[ix] == x);
            }
        }
        let succs = exec_successors(g, v);
        let ns = succs.len();
        let mut si: usize = 0;
        let ghost rset0 = rset@;
        let ghost frontier0 = frontier@;
        let mut grew = false;
        while si < ns
            invariant
                gt == graph_t(*g),
                ns == succs@.len(),
                si <= ns,
                forall|b: NodeId| succs@.contains(b) <==> t_exec_succ(gt, v, b),
                t_reaches(gt, start, v),
                rset@.no_duplicates(),
                rset@.contains(start),
                forall|x: NodeId| #[trigger] rset@.contains(x) ==> t_reaches(gt, start, x),
                forall|x: NodeId| #[trigger] frontier@.contains(x) ==> rset@.contains(x),
                forall|x: NodeId, y: NodeId|
                    rset@.contains(x) && !frontier@.contains(x) && x != v && #[trigger] t_exec_succ(
                        gt,
                        x,
                        y,
                    ) ==> rset@.contains(y),
                forall|x: NodeId| #[trigger] rset0.contains(x) ==> rset@.contains(x),
                forall|x: NodeId| #[trigger] rset@.contains(x)
                    ==> (t_is_node_id(gt, x) || x == start),
                forall|k: int| 0 <= k < si ==> rset@.contains(#[trigger] succs@[k]),
                grew ==> rset@.len() > rset0.len(),
                !grew ==> rset@ == rset0 && frontier@ == frontier0,
            decreases ns - si,
        {
            let s = succs[si];
            let ghost rs1 = rset@;
            let ghost fr1 = frontier@;
            if !vec_contains(&rset, s) {
                rset.push(s);
                frontier.push(s);
                grew = true;
                proof {
                    assert(rset@ == rs1.push(s));
                    assert(frontier@ == fr1.push(s));
                    assert(succs@[si as int] == s);
                    assert(succs@.contains(s));
                    assert(t_exec_succ(gt, v, s));
                    lemma_reach_step(gt, start, v, s);
                    lemma_succ_is_node_id(gt, v, s);
                    assert(rset@[rset@.len() - 1] == s);
                    assert(rset@.contains(s));
                    assert(frontier@[frontier@.len() - 1] == s);
                    assert(frontier@.contains(s));
                    assert forall|x: NodeId| #[trigger] rs1.contains(x) implies rset@.contains(
                        x,
                    ) by {
                        let ix = choose|ix: int| 0 <= ix < rs1.len() && rs1[ix] == x;
                        assert(rset@[ix] == x);
                    }
                    assert forall|x: NodeId| #[trigger] rset@.contains(x) implies (rs1.contains(x)
                        || x == s) by {
                        let ix = choose|ix: int| 0 <= ix < rset@.len() && rset@[ix] == x;
                        if ix < rs1.len() {
                            assert(rs1[ix] == x);
                        }
                    }
                    assert forall|x: NodeId| #[trigger] frontier@.contains(x) implies (
                    fr1.contains(x) || x == s) by {
                        let ix = choose|ix: int| 0 <= ix < frontier@.len() && frontier@[ix] == x;
                        if ix < fr1.len() {
                            assert(fr1[ix] == x);
                        }
                    }
                    assert forall|x: NodeId| #[trigger] fr1.contains(x) implies frontier@.contains(
                        x,
                    ) by {
                        let ix = choose|ix: int| 0 <= ix < fr1.len() && fr1[ix] == x;
                        assert(frontier@[ix] == x);
                    }
                    assert(rset@.no_duplicates()) by {
                        assert(!rs1.contains(s));
                        assert forall|a: int, b: int|
                            0 <= a < rset@.len() && 0 <= b < rset@.len() && a != b implies rset@[a]
                            != rset@[b] by {
                            if a < rs1.len() && b < rs1.len() {
                            } else if a < rs1.len() {
                                assert(rset@[b] == s);
                                if rset@[a] == s {
                                    assert(rs1[a] == s);
                                    assert(rs1.contains(s));
                                }
                            } else {
                                assert(rset@[a] == s);
                                if rset@[b] == s && b < rs1.len() {
                                    assert(rs1[b] == s);
                                    assert(rs1.contains(s));
                                }
                            }
                        }
                    }
                }
            } else {
                proof {
                    assert(succs@[si as int] == s);
                    assert(rset@.contains(s));
                }
            }
            si += 1;
        }
        proof {
            // After the scan every successor of v is recorded, so v is
            // closed whether or not it still sits on the frontier.
            assert forall|x: NodeId, y: NodeId|
                rset@.contains(x) && !frontier@.contains(x) && #[trigger] t_exec_succ(gt, x, y)
                    implies rset@.contains(y) by {
                if x == v {
                    assert(succs@.contains(y));
                    let k = choose|k: int| 0 <= k < succs@.len() && succs@[k] == y;
                    assert(rset@.contains(succs@[k]));
                }
            }
            if grew {
                lemma_id_seq_bound_weak(gt, rset@, start);
            }
        }
    }
    proof {
        assert(spec_succ_closed(gt, rset@));
        assert forall|b: NodeId| t_reaches(gt, start, b) implies rset@.contains(b) by {
            lemma_reach_closed(gt, rset@, start, b);
        }
    }
    rset
}

/// A duplicate-free list of node ids (allowing one extra entry for the
/// start id) is bounded by the node count plus one.
proof fn lemma_id_seq_bound_weak(g: GraphT, s: Seq<NodeId>, start: NodeId)
    requires
        s.no_duplicates(),
        forall|x: NodeId| #[trigger] s.contains(x) ==> (t_is_node_id(g, x) || x == start),
    ensures
        s.len() <= g.nodes.len() + 1,
{
    broadcast use vstd::seq_lib::seq_to_set_is_finite;

    let ids = g.nodes.map_values(|n: crate::views::NodeT| n.id);
    let universe = ids.to_set().insert(start);
    assert forall|x: NodeId| s.to_set().contains(x) implies universe.contains(x) by {
        assert(s.contains(x));
        if x != start {
            assert(t_is_node_id(g, x));
            let i = choose|i: int| 0 <= i < g.nodes.len() && (#[trigger] g.nodes[i]).id == x;
            assert(ids[i] == x);
            assert(ids.contains(x));
        }
    }
    s.unique_seq_to_set();
    ids.lemma_cardinality_of_set();
    vstd::set_lib::lemma_len_subset(s.to_set(), universe);
    assert(universe.len() <= ids.to_set().len() + 1);
}

/// Whether this node lies on an exec cycle.
fn on_cycle_exec(g: &BlueprintGraph, m: NodeId) -> (r: bool)
    ensures
        r == t_on_cycle(graph_t(*g), m),
{
    let ghost gt = graph_t(*g);
    let succs = exec_successors(g, m);
    let ns = succs.len();
    let mut si: usize = 0;
    while si < ns
        invariant
            gt == graph_t(*g),
            ns == succs@.len(),
            si <= ns,
            forall|b: NodeId| succs@.contains(b) <==> t_exec_succ(gt, m, b),
            forall|k: int| 0 <= k < si ==> !t_reaches(gt, #[trigger] succs@[k], m),
        decreases ns - si,
    {
        let s = succs[si];
        let r = reach_from(g, s);
        if vec_contains(&r, s) && vec_contains(&r, m) {
            proof {
                assert(succs@[si as int] == s);
                assert(succs@.contains(s));
                assert(t_exec_succ(gt, m, s));
                assert(t_reaches(gt, s, m));
            }
            return true;
        }
        proof {
            assert(succs@[si as int] == s);
            lemma_reach_refl(gt, s);
        }
        si += 1;
    }
    proof {
        assert forall|s: NodeId| !(t_exec_succ(gt, m, s) && t_reaches(gt, s, m)) by {
            if t_exec_succ(gt, m, s) {
                assert(succs@.contains(s));
                let k = choose|k: int| 0 <= k < succs@.len() && succs@[k] == s;
                assert(!t_reaches(gt, succs@[k], m));
            }
        }
    }
    false
}

/// Whether an exec cycle can be reached from this node.
fn reaches_cycle_exec(g: &BlueprintGraph, n: NodeId) -> (r: bool)
    ensures
        r == t_reaches_cycle(graph_t(*g), n),
{
    let ghost gt = graph_t(*g);
    let reach = reach_from(g, n);
    let nr = reach.len();
    let mut i: usize = 0;
    while i < nr
        invariant
            gt == graph_t(*g),
            nr == reach@.len(),
            i <= nr,
            forall|b: NodeId| reach@.contains(b) <==> t_reaches(gt, n, b),
            forall|k: int| 0 <= k < i ==> !t_on_cycle(gt, #[trigger] reach@[k]),
        decreases nr - i,
    {
        let m = reach[i];
        if on_cycle_exec(g, m) {
            proof {
                assert(reach@[i as int] == m);
                assert(reach@.contains(m));
                assert(t_reaches(gt, n, m));
            }
            return true;
        }
        proof {
            assert(reach@[i as int] == m);
        }
        i += 1;
    }
    proof {
        assert forall|m: NodeId| !(t_reaches(gt, n, m) && t_on_cycle(gt, m)) by {
            if t_reaches(gt, n, m) {
                assert(reach@.contains(m));
                let k = choose|k: int| 0 <= k < reach@.len() && reach@[k] == m;
                assert(!t_on_cycle(gt, reach@[k]));
            }
        }
    }
    false
}

/// The first node from which an exec cycle can be reached, if any;
/// exactly the node named by `spec_cycle_error`.
pub fn find_cycle_root(g: &BlueprintGraph) -> (r: Option<NodeId>)
    ensures
        match r {
            Some(id) => spec_cycle_error(graph_t(*g)) == Some(
                CompileError { kind: ValidationError::ExecCycle, node: Some(id), pin: None },
            ),
            None => spec_cycle_error(graph_t(*g)) is None,
        },
{
    let ghost gt = graph_t(*g);
    let n = g.nodes.len();
    let mut i: usize = 0;
    while i < n
        invariant
            gt == graph_t(*g),
            n == g.nodes@.len(),
            i <= n,
            forall|j: int| 0 <= j < i ==> !t_reaches_cycle(gt, (#[trigger] gt.nodes[j]).id),
        decreases n - i,
    {
        let id = g.nodes[i].id;
        proof {
            assert(gt.nodes[i as int] == crate::views::node_t(g.nodes@[i as int]));
        }
        if reaches_cycle_exec(g, id) {
            proof {
                lemma_first_where_is(
                    gt.nodes,
                    |nn: crate::views::NodeT| t_reaches_cycle(gt, nn.id),
                    i as int,
                );
            }
            return Some(id);
        }
        i += 1;
    }
    proof {
        lemma_first_where_none(gt.nodes, |nn: crate::views::NodeT| t_reaches_cycle(gt, nn.id));
    }
    None
}

} // verus!
