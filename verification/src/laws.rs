//! The library's laws, as public proof functions: what holds of every
//! graph, proved from the contracts the executable functions carry.

use vstd::prelude::*;

use crate::compile::{
    CompiledGraph, CompiledGraphT, CompiledNodeT, cgraph_t, spec_cycle_error, spec_first_error,
    spec_first_link_error, spec_link_error, spec_lower, t_effective_type, t_find_pin, t_on_cycle,
    t_pin_owner, t_reaches_cycle,
};
use crate::cycle::{lemma_reach_refl, lemma_succ_is_node_id};
use crate::error::{CompileError, ValidationError};
use crate::interpret::{OutcomeT, spec_next_exec, spec_read_bool, spec_step};
use crate::model::{BlueprintGraph, BuiltinNodeKind, DataType, Link, NodeId, PinDirection};
use crate::seq_search::{first_where, lemma_first_where};
use crate::views::{GraphT, NodeT, ValueT, graph_t, prop_get_t};

verus! {

/// Compilation is deterministic: any two results that meet the
/// compiler's contract for one graph are the same — equal lowered
/// images on success, equal errors on failure.
pub proof fn lemma_compile_deterministic(
    g: BlueprintGraph,
    r1: Result<CompiledGraph, CompileError>,
    r2: Result<CompiledGraph, CompileError>,
)
    requires
        (match r1 {
            Ok(c) => spec_first_error(graph_t(g)) is None && cgraph_t(c) == spec_lower(
                graph_t(g),
            ),
            Err(e) => spec_first_error(graph_t(g)) == Some(e),
        }),
        (match r2 {
            Ok(c) => spec_first_error(graph_t(g)) is None && cgraph_t(c) == spec_lower(
                graph_t(g),
            ),
            Err(e) => spec_first_error(graph_t(g)) == Some(e),
        }),
    ensures
        (match (r1, r2) {
            (Result::Ok(c1), Result::Ok(c2)) => cgraph_t(c1) == cgraph_t(c2),
            (Result::Err(e1), Result::Err(e2)) => e1 == e2,
            _ => false,
        }),
{
}

/// A graph whose exec flow contains a cycle never compiles; and where
/// every earlier rule passes, the error is the cycle error itself.
pub proof fn lemma_cycle_rejected(g: BlueprintGraph)
    requires
        crate::compile::spec_has_exec_cycle(graph_t(g)),
    ensures
        spec_first_error(graph_t(g)) is Some,
        (!crate::compile::spec_dup_vars(graph_t(g)) && spec_first_link_error(
            graph_t(g),
        ) is None && crate::compile::spec_multi_exec_error(graph_t(g)) is None
            && crate::compile::spec_var_error(graph_t(g)) is None) ==> (match spec_first_error(
            graph_t(g),
        ) {
            Some(e) => e.kind == ValidationError::ExecCycle,
            None => false,
        }),
{
    let gt = graph_t(g);
    let m = choose|m: NodeId| t_on_cycle(gt, m);
    let st = choose|s: NodeId|
        crate::compile::t_exec_succ(gt, m, s) && crate::compile::t_reaches(gt, s, m);
    lemma_succ_is_node_id(gt, m, st);
    lemma_reach_refl(gt, m);
    assert(t_reaches_cycle(gt, m));
    let i = choose|i: int| 0 <= i < gt.nodes.len() && (#[trigger] gt.nodes[i]).id == m;
    lemma_first_where(gt.nodes, |n: NodeT| t_reaches_cycle(gt, n.id));
    match first_where(gt.nodes, |n: NodeT| t_reaches_cycle(gt, n.id)) {
        Some(_) => {
            assert(spec_cycle_error(gt) is Some);
        },
        None => {
            assert(!t_reaches_cycle(gt, gt.nodes[i].id));
        },
    }
}

/// Every link of a graph that compiles runs from an output pin to an
/// input pin of the same partition, and its two ends agree on their
/// effective types. A link between two inputs, or across partitions,
/// is therefore never accepted.
pub proof fn lemma_accepted_links_well_formed(g: BlueprintGraph, k: int)
    requires
        spec_first_error(graph_t(g)) is None,
        0 <= k < graph_t(g).links.len(),
    ensures
        ({
            let gt = graph_t(g);
            let l = gt.links[k];
            &&& t_find_pin(gt, l.from) is Some
            &&& t_find_pin(gt, l.to) is Some
            &&& match (t_find_pin(gt, l.from), t_find_pin(gt, l.to)) {
                (Some(fp), Some(tp)) => fp.direction == PinDirection::Output && tp.direction
                    == PinDirection::Input,
                _ => false,
            }
            &&& match (t_pin_owner(gt, l.from), t_pin_owner(gt, l.to)) {
                (Some(fo), Some(to_)) => fo.graph == to_.graph && t_effective_type(
                    gt,
                    fo,
                    match t_find_pin(gt, l.from) {
                        Some(fp) => fp,
                        None => arbitrary(),
                    },
                ) == t_effective_type(gt, to_, match t_find_pin(gt, l.to) {
                    Some(tp) => tp,
                    None => arbitrary(),
                }),
                _ => false,
            }
        }),
{
    let gt = graph_t(g);
    assert(spec_first_link_error(gt) is None);
    lemma_first_where(gt.links, |l: Link| spec_link_error(gt, l) is Some);
    assert(spec_link_error(gt, gt.links[k]) is None);
}

/// The branch node follows exactly the successor its condition picks —
/// the `true` exec output when the resolved condition is true, the
/// `false` one otherwise — and touches neither the store nor the log.
pub proof fn lemma_branch_follows_condition(
    c: CompiledGraphT,
    store: Seq<(Seq<char>, ValueT)>,
    id: NodeId,
    n: CompiledNodeT,
    o: OutcomeT,
)
    requires
        n.kind == BuiltinNodeKind::Branch,
    ensures
        ({
            let cond = match spec_read_bool(c, store, id, "condition"@) {
                Some(b) => b,
                None => match prop_get_t(n.properties, "condition"@) {
                    Some(ValueT::BoolV(b)) => b,
                    _ => false,
                },
            };
            let st = spec_step(c, store, id, n, o);
            &&& st.next == (if cond {
                spec_next_exec(c, id, "true"@)
            } else {
                spec_next_exec(c, id, "false"@)
            })
            &&& st.store == store
            &&& st.events == Seq::<crate::views::EventT>::empty()
        }),
{
}

/// Every pin id is owned by at most one slot of one node.
pub open spec fn t_pins_unique(g: GraphT) -> bool {
    forall|i: int, j: int, i2: int, j2: int|
        0 <= i < g.nodes.len() && 0 <= j < g.nodes[i].pins.len() && 0 <= i2 < g.nodes.len() && 0
            <= j2 < g.nodes[i2].pins.len() && (i != i2 || j != j2) ==> (#[trigger] g.nodes[i].pins[j]).id
            != (#[trigger] g.nodes[i2].pins[j2]).id
}

/// Node ids are unique.
pub open spec fn t_ids_unique(g: GraphT) -> bool {
    forall|i: int, j: int|
        0 <= i < j < g.nodes.len() ==> (#[trigger] g.nodes[i]).id != (#[trigger] g.nodes[j]).id
}

/// A well-formed aggregate holds its nodes in strictly ascending id
/// order, so its node ids are unique.
pub proof fn lemma_wf_ids_unique(g: BlueprintGraph)
    requires
        crate::model::graph_wf(g),
    ensures
        t_ids_unique(graph_t(g)),
{
    assert forall|i: int, j: int|
        0 <= i < j < graph_t(g).nodes.len() implies (#[trigger] graph_t(g).nodes[i]).id != (
    #[trigger] graph_t(g).nodes[j]).id by {
        assert(graph_t(g).nodes[i].id == g.nodes@[i].id);
        assert(graph_t(g).nodes[j].id == g.nodes@[j].id);
    }
}

/// Every entry of the lowered exec index comes from a link whose
/// source pin has effective type Exec.
proof fn lemma_exec_edge_source(g: GraphT, upto: int, k: int)
    requires
        0 <= upto <= g.links.len(),
        0 <= k < crate::compile::spec_edges(g, upto).0.len(),
    ensures
        exists|li: int|
            0 <= li < upto && crate::compile::t_pin_type(g, (#[trigger] g.links[li]).from)
                == Some(DataType::Exec) && crate::compile::spec_edges(g, upto).0[k] == (
            g.links[li].from,
            g.links[li].to,
        ),
    decreases upto,
{
    let (e, _d) = crate::compile::spec_edges(g, upto);
    let (e0, _d0) = crate::compile::spec_edges(g, upto - 1);
    if crate::compile::t_pin_type(g, g.links[upto - 1].from) == Some(DataType::Exec) && k
        == e0.len() {
        assert(0 <= upto - 1 < upto && crate::compile::t_pin_type(
            g,
            g.links[upto - 1].from,
        ) == Some(DataType::Exec) && e[k] == (g.links[upto - 1].from, g.links[upto - 1].to));
    } else {
        lemma_exec_edge_source(g, upto - 1, k);
        let li = choose|li: int|
            0 <= li < upto - 1 && crate::compile::t_pin_type(g, (#[trigger] g.links[li]).from)
                == Some(DataType::Exec) && e0[k] == (g.links[li].from, g.links[li].to);
        assert(e[k] == e0[k]);
        assert(0 <= li < upto && crate::compile::t_pin_type(g, g.links[li].from) == Some(
            DataType::Exec,
        ) && e[k] == (g.links[li].from, g.links[li].to));
    }
}

/// Node search reads the same on a lowered node list as on its
/// source: lowering keeps ids.
proof fn lemma_lowered_find_seq(g: GraphT, nodes: Seq<NodeT>, id: NodeId)
    ensures
        first_where(
            nodes.map_values(|n: NodeT| crate::compile::spec_lower_node(g, n)),
            |n: CompiledNodeT| n.id == id,
        ) == first_where(nodes, |n: NodeT| n.id == id),
    decreases nodes.len(),
{
    let low = nodes.map_values(|n: NodeT| crate::compile::spec_lower_node(g, n));
    if nodes.len() > 0 {
        assert(low[0] == crate::compile::spec_lower_node(g, nodes[0]));
        assert(low.drop_first() =~= nodes.drop_first().map_values(
            |n: NodeT| crate::compile::spec_lower_node(g, n),
        ));
        lemma_lowered_find_seq(g, nodes.drop_first(), id);
    }
}

/// Pin ownership search reads the same on the lowered graph as on the
/// source.
proof fn lemma_lowered_owner_seq(g: GraphT, nodes: Seq<NodeT>, pid: crate::model::PinId)
    ensures
        first_where(
            nodes.map_values(|n: NodeT| crate::compile::spec_lower_node(g, n)),
            |n: CompiledNodeT| crate::interpret::c_node_has_pin(n, pid),
        ) == first_where(nodes, |n: NodeT| crate::compile::t_node_has_pin(n, pid)),
    decreases nodes.len(),
{
    let low = nodes.map_values(|n: NodeT| crate::compile::spec_lower_node(g, n));
    if nodes.len() > 0 {
        assert(low[0] == crate::compile::spec_lower_node(g, nodes[0]));
        assert forall|j: int| 0 <= j < nodes[0].pins.len() implies (#[trigger] low[0].pins[j]).id
            == nodes[0].pins[j].id by {}
        assert(crate::interpret::c_node_has_pin(low[0], pid) == crate::compile::t_node_has_pin(
            nodes[0],
            pid,
        )) by {
            if crate::interpret::c_node_has_pin(low[0], pid) {
                let j = choose|j: int|
                    0 <= j < low[0].pins.len() && (#[trigger] low[0].pins[j]).id == pid.0;
                assert((#[trigger] nodes[0].pins[j]).id == pid.0);
            }
            if crate::compile::t_node_has_pin(nodes[0], pid) {
                let j = choose|j: int|
                    0 <= j < nodes[0].pins.len() && (#[trigger] nodes[0].pins[j]).id == pid.0;
                assert((#[trigger] low[0].pins[j]).id == pid.0);
            }
        }
        assert(low.drop_first() =~= nodes.drop_first().map_values(
            |n: NodeT| crate::compile::spec_lower_node(g, n),
        ));
        lemma_lowered_owner_seq(g, nodes.drop_first(), pid);
    }
}

/// A runtime-flow step of the lowered graph is an exec-flow step of
/// the source graph, for graphs whose node and pin ids are unique.
proof fn lemma_step_to_source(g: GraphT, a: NodeId, b: NodeId)
    requires
        t_ids_unique(g),
        t_pins_unique(g),
        crate::interpret::c_step_succ(spec_lower(g), a, b),
    ensures
        crate::compile::t_exec_succ(g, a, b),
{
    let low = spec_lower(g);
    let k = choose|k: int|
        0 <= k < low.exec_edges.len() && {
            let e = #[trigger] low.exec_edges[k];
            &&& match crate::interpret::c_find_node(low, a) {
                Some(n) => crate::interpret::c_node_has_pin(n, e.0),
                None => false,
            }
            &&& crate::interpret::c_pin_owner(low, e.1) == Some(b)
        };
    let e = low.exec_edges[k];
    lemma_exec_edge_source(g, g.links.len() as int, k);
    let li = choose|li: int|
        0 <= li < g.links.len() && crate::compile::t_pin_type(g, (#[trigger] g.links[li]).from)
            == Some(DataType::Exec) && low.exec_edges[k] == (g.links[li].from, g.links[li].to);
    let l = g.links[li];

    // The node found at id `a` is a source node bearing pin `l.from`;
    // with unique ids and pins, it is the pin's one owner.
    lemma_lowered_find_seq(g, g.nodes, a);
    assert(low.nodes =~= g.nodes.map_values(|n: NodeT| crate::compile::spec_lower_node(g, n)));
    lemma_first_where(g.nodes, |n: NodeT| n.id == a);
    let ai = match first_where(g.nodes, |n: NodeT| n.id == a) {
        Some(ai) => ai,
        None => arbitrary(),
    };
    assert(crate::interpret::c_find_node(low, a) == Some(low.nodes[ai]));
    assert(low.nodes[ai] == crate::compile::spec_lower_node(g, g.nodes[ai]));
    assert(crate::compile::t_node_has_pin(g.nodes[ai], l.from)) by {
        let j = choose|j: int|
            0 <= j < low.nodes[ai].pins.len() && (#[trigger] low.nodes[ai].pins[j]).id == e.0.0;
        assert((#[trigger] g.nodes[ai].pins[j]).id == l.from.0);
    }
    lemma_first_where(g.nodes, |n: NodeT| crate::compile::t_node_has_pin(n, l.from));
    let oi = match first_where(g.nodes, |n: NodeT| crate::compile::t_node_has_pin(n, l.from)) {
        Some(oi) => oi,
        None => arbitrary(),
    };
    assert(first_where(g.nodes, |n: NodeT| crate::compile::t_node_has_pin(n, l.from)) is Some);
    assert(oi == ai) by {
        if oi != ai {
            let j1 = choose|j: int|
                0 <= j < g.nodes[oi].pins.len() && (#[trigger] g.nodes[oi].pins[j]).id == l.from.0;
            let j2 = choose|j: int|
                0 <= j < g.nodes[ai].pins.len() && (#[trigger] g.nodes[ai].pins[j]).id == l.from.0;
            assert(g.nodes[oi].pins[j1].id == g.nodes[ai].pins[j2].id);
        }
    }
    assert(match crate::compile::t_pin_owner(g, l.from) {
        Some(n) => n.id == a,
        None => false,
    });

    // The destination owner reads the same on both sides.
    lemma_lowered_owner_seq(g, g.nodes, l.to);
    lemma_first_where(g.nodes, |n: NodeT| crate::compile::t_node_has_pin(n, l.to));
    assert(match crate::compile::t_pin_owner(g, l.to) {
        Some(n) => n.id == b,
        None => false,
    });
    assert(crate::compile::t_exec_succ(g, a, b)) by {
        assert(0 <= li < g.links.len() && {
            let ll = g.links[li];
            &&& crate::compile::t_pin_type(g, ll.from) == Some(DataType::Exec)
            &&& match crate::compile::t_pin_owner(g, ll.from) {
                Some(n) => n.id == a,
                None => false,
            }
            &&& match crate::compile::t_pin_owner(g, ll.to) {
                Some(n) => n.id == b,
                None => false,
            }
        });
    }
}

/// What the compiler's acceptance buys the interpreter: for a graph
/// with unique node and pin ids — as the aggregate's insertion always
/// assigns them — a lowered graph that passed validation has acyclic
/// runtime flow, which is what the run functions require.
pub proof fn lemma_accepted_flow_acyclic(g: BlueprintGraph)
    requires
        t_ids_unique(graph_t(g)),
        t_pins_unique(graph_t(g)),
        spec_first_error(graph_t(g)) is None,
    ensures
        crate::interpret::c_flow_acyclic(spec_lower(graph_t(g))),
{
    let gt = graph_t(g);
    let low = spec_lower(gt);
    assert forall|p: Seq<NodeId>|
        !(#[trigger] crate::interpret::c_run_path(low, p) && p.len() >= 2 && p[0]
            == p.last()) by {
        if crate::interpret::c_run_path(low, p) && p.len() >= 2 && p[0] == p.last() {
            assert forall|i: int| 0 <= i < p.len() - 1 implies crate::compile::t_exec_succ(
                gt,
                #[trigger] p[i],
                p[i + 1],
            ) by {
                lemma_step_to_source(gt, p[i], p[i + 1]);
            }
            let tail = p.subrange(1, p.len() as int);
            assert(crate::compile::t_is_path(gt, tail)) by {
                assert forall|i: int| 0 <= i < tail.len() - 1 implies crate::compile::t_exec_succ(
                    gt,
                    #[trigger] tail[i],
                    tail[i + 1],
                ) by {
                    assert(tail[i] == p[i + 1] && tail[i + 1] == p[i + 2]);
                }
            }
            assert(crate::compile::t_reaches(gt, p[1], p[0])) by {
                assert(tail[0] == p[1] && tail.last() == p.last());
            }
            assert(crate::compile::t_on_cycle(gt, p[0])) by {
                assert(crate::compile::t_exec_succ(gt, p[0], p[1]));
            }
            assert(crate::compile::spec_has_exec_cycle(gt));
            lemma_cycle_rejected(g);
        }
    }
}

} // verus!
