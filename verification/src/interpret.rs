//! The interpreter: owns a mutable variable store and a compiled
//! graph, walks exec chains from the three entry points, resolves data
//! inputs by pulling from producing nodes, and logs what it did.
//!
//! The walk is specified by `spec_run`, a step-indexed function over
//! the ghost images; script nodes make it outcome-parametric, so each
//! run is stated as: there are a step count and a list of script
//! outcomes under which the trace is exactly `spec_run`'s.

use vstd::prelude::*;

use crate::compile::{CompiledGraph, CompiledGraphT, CompiledNode, CompiledNodeT, cgraph_t,
    cnode_t, cpin_lookup, lemma_prop_get_bridge};
use crate::model::{BuiltinNodeKind, DataType, NodeId, PinId, Value, clone_props, clone_value,
    prop_find, str_eq};
use crate::seq_search::{first_where, last_where, lemma_first_where_is, lemma_first_where_none};
use crate::script::{ScriptOutcome};
use crate::views::{EventT, ValueT, prop_get_t, props_t, value_t, value_t_type};

verus! {

/// One observable event of a run: a node was entered, or text was
/// printed.
#[derive(Debug, Clone, PartialEq)]
pub enum ExecutionEvent {
    EnterNode(NodeId),
    Print(String),
}

/// The ghost image of an event.
pub open spec fn event_t(e: ExecutionEvent) -> EventT {
    match e {
        ExecutionEvent::EnterNode(id) => EventT::EnterNode(id),
        ExecutionEvent::Print(s) => EventT::Print(s@),
    }
}

/// The ghost image of an event log.
pub open spec fn events_t(s: Seq<ExecutionEvent>) -> Seq<EventT> {
    s.map_values(|e: ExecutionEvent| event_t(e))
}

/// What one run produced: the ordered event log and a snapshot of the
/// variable store after the run.
#[derive(Debug, Clone, PartialEq)]
pub struct InterpreterOutput {
    pub events: Vec<ExecutionEvent>,
    pub variables: Vec<(String, Value)>,
}

// ---------------------------------------------------------------------
// The variable store
// ---------------------------------------------------------------------

/// The store after writing `key`: the first entry of that name is
/// replaced, or a fresh entry is appended.
pub open spec fn store_put(
    s: Seq<(Seq<char>, ValueT)>,
    key: Seq<char>,
    v: ValueT,
) -> Seq<(Seq<char>, ValueT)>
    decreases s.len(),
{
    if s.len() == 0 {
        seq![(key, v)]
    } else if s[0].0 == key {
        seq![(key, v)] + s.drop_first()
    } else {
        seq![s[0]] + store_put(s.drop_first(), key, v)
    }
}

/// Writing at the first slot bearing the key replaces just that slot.
proof fn lemma_store_put_at(s: Seq<(Seq<char>, ValueT)>, key: Seq<char>, v: ValueT, i: int)
    requires
        0 <= i < s.len(),
        s[i].0 == key,
        forall|j: int| 0 <= j < i ==> (#[trigger] s[j]).0 != key,
    ensures
        store_put(s, key, v) =~= s.update(i, (key, v)),
    decreases i,
{
    if i == 0 {
        assert(store_put(s, key, v) =~= s.update(0, (key, v)));
    } else {
        lemma_store_put_at(s.drop_first(), key, v, i - 1);
        assert(store_put(s, key, v) =~= seq![s[0]] + s.drop_first().update(i - 1, (key, v)));
        assert(seq![s[0]] + s.drop_first().update(i - 1, (key, v)) =~= s.update(i, (key, v)));
    }
}

/// Writing a key no slot bears appends a fresh entry.
proof fn lemma_store_put_absent(s: Seq<(Seq<char>, ValueT)>, key: Seq<char>, v: ValueT)
    requires
        forall|j: int| 0 <= j < s.len() ==> (#[trigger] s[j]).0 != key,
    ensures
        store_put(s, key, v) =~= s.push((key, v)),
    decreases s.len(),
{
    if s.len() > 0 {
        lemma_store_put_absent(s.drop_first(), key, v);
        assert(store_put(s, key, v) =~= seq![s[0]] + s.drop_first().push((key, v)));
        assert(seq![s[0]] + s.drop_first().push((key, v)) =~= s.push((key, v)));
    }
}

/// Writes a variable: the first entry of that name is replaced, or a
/// fresh entry is appended.
pub fn store_set(store: &mut Vec<(String, Value)>, key: &str, value: Value)
    ensures
        props_t(final(store)@) == store_put(props_t(old(store)@), key@, value_t(value)),
{
    let ghost st0 = props_t(old(store)@);
    let n = store.len();
    let mut i: usize = 0;
    while i < n
        invariant
            *store == *old(store),
            st0 == props_t(store@),
            n == store@.len(),
            i <= n,
            forall|j: int| 0 <= j < i ==> (#[trigger] props_t(store@)[j]).0 != key@,
        decreases n - i,
    {
        proof {
            assert(props_t(store@)[i as int] == (store@[i as int].0@, value_t(store@[i as int].1)));
        }
        if str_eq(store[i].0.as_str(), key) {
            store.set(i, (key.to_owned(), value));
            proof {
                lemma_store_put_at(st0, key@, value_t(value), i as int);
                assert(props_t(store@) =~= st0.update(i as int, (key@, value_t(value))));
            }
            return;
        }
        i += 1;
    }
    store.push((key.to_owned(), value));
    proof {
        lemma_store_put_absent(st0, key@, value_t(value));
        assert(props_t(store@) =~= st0.push((key@, value_t(value))));
    }
}

/// Reads a variable: a copy of its value, if the store holds one.
pub fn store_read(store: &Vec<(String, Value)>, key: &str) -> (r: Option<Value>)
    ensures
        match r {
            Some(v) => prop_get_t(props_t(store@), key@) == Some(value_t(v)),
            None => prop_get_t(props_t(store@), key@) is None,
        },
{
    proof {
        lemma_prop_get_bridge(store@, key@);
    }
    match prop_find(store, key) {
        Some(v) => Some(clone_value(v)),
        None => None,
    }
}

// ---------------------------------------------------------------------
// Lookups over the compiled image
// ---------------------------------------------------------------------

/// Whether a lowered node owns a pin with this id.
pub open spec fn c_node_has_pin(n: CompiledNodeT, pid: PinId) -> bool {
    exists|j: int| 0 <= j < n.pins.len() && (#[trigger] n.pins[j]).id == pid.0
}

/// The first lowered node with this id.
pub open spec fn c_find_node(c: CompiledGraphT, id: NodeId) -> Option<CompiledNodeT> {
    match first_where(c.nodes, |n: CompiledNodeT| n.id == id) {
        Some(i) => Some(c.nodes[i]),
        None => None,
    }
}

/// The id of the first lowered node owning this pin.
pub open spec fn c_pin_owner(c: CompiledGraphT, pid: PinId) -> Option<NodeId> {
    match first_where(c.nodes, |n: CompiledNodeT| c_node_has_pin(n, pid)) {
        Some(i) => Some(c.nodes[i].id),
        None => None,
    }
}

/// The pin an edge index maps this pin to: the last entry keyed by it,
/// matching how a later link overwrites an earlier one.
pub open spec fn edge_next(edges: Seq<(PinId, PinId)>, from: PinId) -> Option<PinId>
    decreases edges.len(),
{
    if edges.len() == 0 {
        None
    } else if edges.last().0 == from {
        Some(edges.last().1)
    } else {
        edge_next(edges.drop_last(), from)
    }
}

/// The exec input pin that follows this node's named exec output, if
/// the node, the pin, its exec type and an outgoing edge all exist.
pub open spec fn spec_next_exec(c: CompiledGraphT, id: NodeId, name: Seq<char>) -> Option<PinId> {
    match c_find_node(c, id) {
        Some(n) => match cpin_lookup(n, name) {
            Some(p) => if p.data_type == DataType::Exec {
                edge_next(c.exec_edges, PinId(p.id))
            } else {
                None
            },
            None => None,
        },
        None => None,
    }
}

/// Pull-based input resolution: the value feeding this node's named
/// input pin. The source must be the `value` pin of a `GetVariable`
/// node; the variable's current value is returned where its kind
/// matches the input pin's effective type. Anything else yields
/// nothing, and the caller falls back to a literal property.
pub open spec fn spec_read_value(
    c: CompiledGraphT,
    store: Seq<(Seq<char>, ValueT)>,
    id: NodeId,
    name: Seq<char>,
) -> Option<ValueT> {
    match c_find_node(c, id) {
        Some(n) => match cpin_lookup(n, name) {
            Some(pin) => match edge_next(c.data_edges, PinId(pin.id)) {
                Some(from_pin) => match c_pin_owner(c, from_pin) {
                    Some(fid) => match c_find_node(c, fid) {
                        Some(fnode) => if fnode.kind == BuiltinNodeKind::GetVariable {
                            match prop_get_t(fnode.properties, "name"@) {
                                Some(ValueT::StringV(vn)) => match prop_get_t(store, vn) {
                                    Some(v) => if value_t_type(v) == pin.data_type {
                                        Some(v)
                                    } else {
                                        None
                                    },
                                    None => None,
                                },
                                _ => None,
                            }
                        } else {
                            None
                        },
                        None => None,
                    },
                    None => None,
                },
                None => None,
            },
            None => None,
        },
        None => None,
    }
}

/// String form of input resolution: only a string value counts.
pub open spec fn spec_read_string(
    c: CompiledGraphT,
    store: Seq<(Seq<char>, ValueT)>,
    id: NodeId,
    name: Seq<char>,
) -> Option<Seq<char>> {
    match spec_read_value(c, store, id, name) {
        Some(ValueT::StringV(s)) => Some(s),
        _ => None,
    }
}

/// Boolean form of input resolution: only a boolean value counts.
pub open spec fn spec_read_bool(
    c: CompiledGraphT,
    store: Seq<(Seq<char>, ValueT)>,
    id: NodeId,
    name: Seq<char>,
) -> Option<bool> {
    match spec_read_value(c, store, id, name) {
        Some(ValueT::BoolV(b)) => Some(b),
        _ => None,
    }
}

// ---------------------------------------------------------------------
// One step of a run, and a whole run
// ---------------------------------------------------------------------

/// Ghost image of a script evaluation's outcome.
#[verifier::ext_equal]
pub ghost struct OutcomeT {
    pub store: Seq<(Seq<char>, ValueT)>,
    pub prints: Seq<Seq<char>>,
    pub error: Option<Seq<char>>,
}

/// The ghost image of a script outcome.
pub open spec fn outcome_t(o: ScriptOutcome) -> OutcomeT {
    OutcomeT {
        store: props_t(o.store@),
        prints: o.prints@.map_values(|p: String| p@),
        error: match o.error {
            Some(e) => Some(e@),
            None => None,
        },
    }
}

/// The outcome a step that runs no script is given: it ignores it.
pub open spec fn no_outcome() -> OutcomeT {
    OutcomeT { store: Seq::empty(), prints: Seq::empty(), error: None }
}

/// What one node does when entered.
#[verifier::ext_equal]
pub ghost struct StepT {
    pub events: Seq<EventT>,
    pub store: Seq<(Seq<char>, ValueT)>,
    pub next: Option<PinId>,
}

/// The print events of a script outcome: its prints in order, then the
/// error text (prefixed) if evaluation failed.
pub open spec fn script_events(o: OutcomeT) -> Seq<EventT> {
    o.prints.map_values(|p: Seq<char>| EventT::Print(p)) + match o.error {
        Some(e) => seq![EventT::Print("[Rhai error] "@ + e)],
        None => Seq::empty(),
    }
}

/// One node's behavior when entered along the exec chain, as a function
/// of the compiled graph, the store, and — for the script node — the
/// outcome of its evaluation.
pub open spec fn spec_step(
    c: CompiledGraphT,
    store: Seq<(Seq<char>, ValueT)>,
    id: NodeId,
    n: CompiledNodeT,
    o: OutcomeT,
) -> StepT {
    match n.kind {
        BuiltinNodeKind::Print => {
            let text = match spec_read_string(c, store, id, "text"@) {
                Some(s) => s,
                None => match prop_get_t(n.properties, "text"@) {
                    Some(ValueT::StringV(s)) => s,
                    _ => Seq::empty(),
                },
            };
            StepT {
                events: seq![EventT::Print(text)],
                store,
                next: spec_next_exec(c, id, "then"@),
            }
        },
        BuiltinNodeKind::Branch => {
            let cond = match spec_read_bool(c, store, id, "condition"@) {
                Some(b) => b,
                None => match prop_get_t(n.properties, "condition"@) {
                    Some(ValueT::BoolV(b)) => b,
                    _ => false,
                },
            };
            StepT {
                events: Seq::empty(),
                store,
                next: if cond {
                    spec_next_exec(c, id, "true"@)
                } else {
                    spec_next_exec(c, id, "false"@)
                },
            }
        },
        BuiltinNodeKind::SetVariable => {
            let name = match prop_get_t(n.properties, "name"@) {
                Some(ValueT::StringV(s)) => s,
                _ => "var"@,
            };
            let expected = match cpin_lookup(n, "value"@) {
                Some(p) => p.data_type,
                None => DataType::Unit,
            };
            let value = match spec_read_value(c, store, id, "value"@) {
                Some(v) => v,
                None => match prop_get_t(n.properties, "value"@) {
                    Some(v) => if value_t_type(v) == expected {
                        v
                    } else {
                        ValueT::UnitV
                    },
                    None => ValueT::UnitV,
                },
            };
            StepT {
                events: Seq::empty(),
                store: store_put(store, name, value),
                next: spec_next_exec(c, id, "then"@),
            }
        },
        BuiltinNodeKind::RhaiScript => StepT {
            events: script_events(o),
            store: o.store,
            next: spec_next_exec(c, id, "then"@),
        },
        _ => StepT { events: Seq::empty(), store, next: spec_next_exec(c, id, "then"@) },
    }
}

/// That a step's observations match `spec_step` under outcome `o`:
/// the events appended, the store produced, and the pin returned.
pub open spec fn spec_step_obs(
    c: CompiledGraphT,
    store0: Seq<(Seq<char>, ValueT)>,
    id: NodeId,
    n: CompiledNodeT,
    o: OutcomeT,
    evs_old: Seq<EventT>,
    evs_new: Seq<EventT>,
    store_new: Seq<(Seq<char>, ValueT)>,
    next: Option<PinId>,
) -> bool {
    let st = spec_step(c, store0, id, n, o);
    &&& evs_new == evs_old + st.events
    &&& store_new == st.store
    &&& next == st.next
}

/// One step of runtime flow from node `a` to node `b`: the node found
/// at id `a` owns a pin that the exec index maps into a pin whose
/// first owner is `b`.
pub open spec fn c_step_succ(c: CompiledGraphT, a: NodeId, b: NodeId) -> bool {
    exists|k: int|
        0 <= k < c.exec_edges.len() && {
            let e = #[trigger] c.exec_edges[k];
            &&& match c_find_node(c, a) {
                Some(n) => c_node_has_pin(n, e.0),
                None => false,
            }
            &&& c_pin_owner(c, e.1) == Some(b)
        }
}

/// A walk along runtime flow.
pub open spec fn c_run_path(c: CompiledGraphT, p: Seq<NodeId>) -> bool {
    &&& p.len() >= 1
    &&& forall|i: int| 0 <= i < p.len() - 1 ==> c_step_succ(c, #[trigger] p[i], p[i + 1])
}

/// No walk of the runtime flow returns to its starting node. Chain
/// execution relies on this — it is what the compiler's acyclicity
/// rule establishes for every graph it accepts.
pub open spec fn c_flow_acyclic(c: CompiledGraphT) -> bool {
    forall|p: Seq<NodeId>| !(#[trigger] c_run_path(c, p) && p.len() >= 2 && p[0] == p.last())
}

/// A mapped pin names an entry of the edge index.
proof fn lemma_edge_next_entry(edges: Seq<(PinId, PinId)>, from: PinId, q: PinId)
    requires
        edge_next(edges, from) == Some(q),
    ensures
        exists|k: int| 0 <= k < edges.len() && #[trigger] edges[k] == (from, q),
    decreases edges.len(),
{
    if edges.len() > 0 {
        if edges.last().0 == from {
            assert(edges[edges.len() - 1] == (from, q));
        } else {
            lemma_edge_next_entry(edges.drop_last(), from, q);
            let k = choose|k: int|
                0 <= k < edges.drop_last().len() && #[trigger] edges.drop_last()[k] == (from, q);
            assert(edges[k] == (from, q));
        }
    }
}

/// A successor handed out by `spec_next_exec` whose pin has an owner is
/// one runtime-flow step away.
proof fn lemma_next_exec_succ(c: CompiledGraphT, id: NodeId, name: Seq<char>, b: NodeId)
    requires
        spec_next_exec(c, id, name) is Some,
        c_pin_owner(c, match spec_next_exec(c, id, name) {
            Some(q) => q,
            None => PinId(0),
        }) == Some(b),
    ensures
        c_step_succ(c, id, b),
{
    let n = match c_find_node(c, id) {
        Some(n) => n,
        None => arbitrary(),
    };
    let p = match cpin_lookup(n, name) {
        Some(p) => p,
        None => arbitrary(),
    };
    let q = match spec_next_exec(c, id, name) {
        Some(q) => q,
        None => PinId(0),
    };
    crate::seq_search::lemma_last_where(n.pins, |pp: crate::model::PinT| pp.name == name);
    match crate::seq_search::last_where(n.pins, |pp: crate::model::PinT| pp.name == name) {
        Some(i) => {
            assert(n.pins[i] == p);
            assert((#[trigger] n.pins[i]).id == p.id);
            assert(c_node_has_pin(n, PinId(p.id)));
        },
        None => {
            assert(false);
        },
    }
    lemma_edge_next_entry(c.exec_edges, PinId(p.id), q);
    let k = choose|k: int|
        0 <= k < c.exec_edges.len() && #[trigger] c.exec_edges[k] == (PinId(p.id), q);
    assert({
        let e = c.exec_edges[k];
        &&& match c_find_node(c, id) {
            Some(nn) => c_node_has_pin(nn, e.0),
            None => false,
        }
        &&& c_pin_owner(c, e.1) == Some(b)
    });
}

/// Whatever a step hands out as its next pin, following it is one
/// runtime-flow step, provided the pin has an owner.
proof fn lemma_step_succ(
    c: CompiledGraphT,
    store: Seq<(Seq<char>, ValueT)>,
    id: NodeId,
    n: CompiledNodeT,
    o: OutcomeT,
    b: NodeId,
)
    requires
        c_find_node(c, id) == Some(n),
        spec_step(c, store, id, n, o).next is Some,
        c_pin_owner(c, match spec_step(c, store, id, n, o).next {
            Some(q) => q,
            None => PinId(0),
        }) == Some(b),
    ensures
        c_step_succ(c, id, b),
{
    match n.kind {
        BuiltinNodeKind::Branch => {
            let cond = match spec_read_bool(c, store, id, "condition"@) {
                Some(bb) => bb,
                None => match prop_get_t(n.properties, "condition"@) {
                    Some(ValueT::BoolV(bb)) => bb,
                    _ => false,
                },
            };
            if cond {
                lemma_next_exec_succ(c, id, "true"@, b);
            } else {
                lemma_next_exec_succ(c, id, "false"@, b);
            }
        },
        _ => {
            lemma_next_exec_succ(c, id, "then"@, b);
        },
    }
}

/// A list of distinct node ids of the compiled graph is no longer than
/// its node list.
proof fn lemma_c_id_bound(c: CompiledGraphT, s: Seq<NodeId>)
    requires
        s.no_duplicates(),
        forall|x: NodeId| #[trigger] s.contains(x) ==> exists|i: int|
            0 <= i < c.nodes.len() && (#[trigger] c.nodes[i]).id == x,
    ensures
        s.len() <= c.nodes.len(),
{
    broadcast use vstd::seq_lib::seq_to_set_is_finite;

    let ids = c.nodes.map_values(|n: CompiledNodeT| n.id);
    assert forall|x: NodeId| s.to_set().contains(x) implies ids.to_set().contains(x) by {
        assert(s.contains(x));
        let i = choose|i: int| 0 <= i < c.nodes.len() && (#[trigger] c.nodes[i]).id == x;
        assert(ids[i] == x);
        assert(ids.contains(x));
    }
    s.unique_seq_to_set();
    ids.lemma_cardinality_of_set();
    vstd::set_lib::lemma_len_subset(s.to_set(), ids.to_set());
}

/// The result of walking an exec chain for a bounded number of steps:
/// whether it ran to completion, the events, and the final store.
#[verifier::ext_equal]
pub ghost struct RunT {
    pub done: bool,
    pub events: Seq<EventT>,
    pub store: Seq<(Seq<char>, ValueT)>,
}

/// Prefixing events onto a run result.
pub open spec fn run_prepend(evs: Seq<EventT>, r: RunT) -> RunT {
    RunT { done: r.done, events: evs + r.events, store: r.store }
}

/// Walking the chain from an exec input pin: resolve the owning node,
/// enter it, perform its step, follow the returned pin — for at most
/// `fuel` steps, consuming one script outcome per script node entered.
/// A run that needs no more than `fuel` steps ends with `done`.
pub open spec fn spec_run(
    c: CompiledGraphT,
    store: Seq<(Seq<char>, ValueT)>,
    cur: Option<PinId>,
    outs: Seq<OutcomeT>,
    fuel: nat,
) -> RunT
    decreases fuel,
{
    match cur {
        None => RunT { done: true, events: Seq::empty(), store },
        Some(pin) => match c_pin_owner(c, pin) {
            None => RunT { done: true, events: Seq::empty(), store },
            Some(nid) => if fuel == 0 {
                RunT { done: false, events: Seq::empty(), store }
            } else {
                match c_find_node(c, nid) {
                    None => RunT { done: true, events: seq![EventT::EnterNode(nid)], store },
                    Some(n) => {
                        let is_script = n.kind == BuiltinNodeKind::RhaiScript;
                        let o = if is_script && outs.len() > 0 {
                            outs[0]
                        } else {
                            no_outcome()
                        };
                        let rest = if is_script {
                            outs.drop_first()
                        } else {
                            outs
                        };
                        let st = spec_step(c, store, nid, n, o);
                        run_prepend(
                            seq![EventT::EnterNode(nid)] + st.events,
                            spec_run(c, st.store, st.next, rest, (fuel - 1) as nat),
                        )
                    },
                }
            },
        },
    }
}

/// Whether the named exec output of this node is fit to start a chain:
/// the node exists and has the pin, with effective type Exec.
pub open spec fn spec_chain_ok(c: CompiledGraphT, id: NodeId, name: Seq<char>) -> bool {
    match c_find_node(c, id) {
        Some(n) => match cpin_lookup(n, name) {
            Some(p) => p.data_type == DataType::Exec,
            None => false,
        },
        None => false,
    }
}

/// A completed run from this chain start: there are a step count and a
/// list of script outcomes under which `spec_run` finishes with exactly
/// these events and this store.
pub open spec fn spec_completed_run(
    c: CompiledGraphT,
    store0: Seq<(Seq<char>, ValueT)>,
    id: NodeId,
    name: Seq<char>,
    events: Seq<EventT>,
    store1: Seq<(Seq<char>, ValueT)>,
) -> bool {
    exists|outs: Seq<OutcomeT>, fuel: nat|
        spec_run(c, store0, spec_next_exec(c, id, name), outs, fuel) == (RunT {
            done: true,
            events,
            store: store1,
        })
}

// ---------------------------------------------------------------------
// The interpreter
// ---------------------------------------------------------------------

/// Owns the compiled graph and a mutable variable store seeded from
/// the compiled defaults.
pub struct Interpreter {
    pub compiled: CompiledGraph,
    pub variables: Vec<(String, Value)>,
}

/// Whether a lowered node owns a pin with this id (executable form).
fn cnode_has_pin(n: &CompiledNode, pid: PinId) -> (r: bool)
    ensures
        r == c_node_has_pin(cnode_t(*n), pid),
{
    let ghost nt = cnode_t(*n);
    let m = n.pins.len();
    let mut j: usize = 0;
    while j < m
        invariant
            nt == cnode_t(*n),
            m == n.pins@.len(),
            j <= m,
            forall|k: int| 0 <= k < j ==> (#[trigger] nt.pins[k]).id != pid.0,
        decreases m - j,
    {
        proof {
            assert(nt.pins[j as int] == crate::model::pin_t(n.pins@[j as int]));
        }
        if n.pins[j].id.0 == pid.0 {
            return true;
        }
        j += 1;
    }
    false
}

/// The pin an edge index maps this pin to (executable form).
fn edge_lookup(edges: &Vec<(PinId, PinId)>, from: PinId) -> (r: Option<PinId>)
    ensures
        r == edge_next(edges@, from),
{
    let n = edges.len();
    let mut i: usize = n;
    proof {
        assert(edges@.subrange(0, n as int) =~= edges@);
    }
    while i > 0
        invariant
            n == edges@.len(),
            i <= n,
            edge_next(edges@, from) == edge_next(edges@.subrange(0, i as int), from),
        decreases i,
    {
        i = i - 1;
        let ghost pre = edges@.subrange(0, i + 1);
        proof {
            assert(pre.last() == edges@[i as int]);
            assert(pre.drop_last() =~= edges@.subrange(0, i as int));
        }
        if edges[i].0.0 == from.0 {
            proof {
                assert(edges@[i as int].0 == from);
            }
            return Some(edges[i].1);
        }
        proof {
            assert(edges@[i as int].0 != from);
        }
    }
    None
}

impl Interpreter {
    /// An interpreter over this compiled graph, its store seeded from
    /// the compiled variable defaults.
    pub fn new(compiled: CompiledGraph) -> (r: Interpreter)
        ensures
            r.compiled == compiled,
            r.variables@ == compiled.variables@,
    {
        let variables = clone_props(&compiled.variables);
        Interpreter { compiled, variables }
    }

    /// The first lowered node with this id.
    fn find_node(&self, id: NodeId) -> (r: Option<&CompiledNode>)
        ensures
            match r {
                Some(n) => c_find_node(cgraph_t(self.compiled), id) == Some(cnode_t(*n)),
                None => c_find_node(cgraph_t(self.compiled), id) is None,
            },
    {
        let ghost ct = cgraph_t(self.compiled);
        let n = self.compiled.nodes.len();
        let mut i: usize = 0;
        while i < n
            invariant
                ct == cgraph_t(self.compiled),
                n == self.compiled.nodes@.len(),
                i <= n,
                forall|j: int| 0 <= j < i ==> (#[trigger] ct.nodes[j]).id != id,
            decreases n - i,
        {
            proof {
                assert(ct.nodes[i as int] == cnode_t(self.compiled.nodes@[i as int]));
            }
            if self.compiled.nodes[i].id.0 == id.0 {
                proof {
                    lemma_first_where_is(ct.nodes, |nn: CompiledNodeT| nn.id == id, i as int);
                }
                return Some(&self.compiled.nodes[i]);
            }
            i += 1;
        }
        proof {
            lemma_first_where_none(ct.nodes, |nn: CompiledNodeT| nn.id == id);
        }
        None
    }

    /// The id of the first lowered node owning this pin.
    fn pin_owner(&self, pid: PinId) -> (r: Option<NodeId>)
        ensures
            r == c_pin_owner(cgraph_t(self.compiled), pid),
    {
        let ghost ct = cgraph_t(self.compiled);
        let n = self.compiled.nodes.len();
        let mut i: usize = 0;
        while i < n
            invariant
                ct == cgraph_t(self.compiled),
                n == self.compiled.nodes@.len(),
                i <= n,
                forall|j: int| 0 <= j < i ==> !c_node_has_pin(#[trigger] ct.nodes[j], pid),
            decreases n - i,
        {
            proof {
                assert(ct.nodes[i as int] == cnode_t(self.compiled.nodes@[i as int]));
            }
            if cnode_has_pin(&self.compiled.nodes[i], pid) {
                proof {
                    lemma_first_where_is(
                        ct.nodes,
                        |nn: CompiledNodeT| c_node_has_pin(nn, pid),
                        i as int,
                    );
                }
                return Some(self.compiled.nodes[i].id);
            }
            i += 1;
        }
        proof {
            lemma_first_where_none(ct.nodes, |nn: CompiledNodeT| c_node_has_pin(nn, pid));
        }
        None
    }

    /// The exec input pin following this node's named exec output.
    pub(crate) fn next_exec(&self, node_id: NodeId, exec_out_name: &str) -> (r: Option<PinId>)
        ensures
            r == spec_next_exec(cgraph_t(self.compiled), node_id, exec_out_name@),
    {
        let node = match self.find_node(node_id) {
            Some(n) => n,
            None => {
                return None;
            },
        };
        match node.pin(exec_out_name) {
            Some((out_pin, _, ty)) => {
                let is_exec = match ty {
                    DataType::Exec => true,
                    _ => false,
                };
                if is_exec {
                    edge_lookup(&self.compiled.exec_edges, out_pin)
                } else {
                    None
                }
            },
            None => None,
        }
    }

    /// The effective type of this node's named pin, as compiled.
    pub(crate) fn input_pin_type(&self, node_id: NodeId, input_name: &str) -> (r: Option<
        DataType,
    >)
        ensures
            r == match c_find_node(cgraph_t(self.compiled), node_id) {
                Some(n) => match cpin_lookup(n, input_name@) {
                    Some(p) => Some(p.data_type),
                    None => None::<DataType>,
                },
                None => None::<DataType>,
            },
    {
        let node = match self.find_node(node_id) {
            Some(n) => n,
            None => {
                return None;
            },
        };
        match node.pin(input_name) {
            Some((_, _, ty)) => Some(ty),
            None => None,
        }
    }

    /// Writes a variable of the store.
    pub(crate) fn set_variable(&mut self, name: &str, value: Value)
        ensures
            final(self).compiled == old(self).compiled,
            props_t(final(self).variables@) == store_put(
                props_t(old(self).variables@),
                name@,
                value_t(value),
            ),
    {
        store_set(&mut self.variables, name, value);
    }

    /// Pull-based input resolution, as `spec_read_value` states it.
    pub(crate) fn read_value_input(&self, node_id: NodeId, input_name: &str) -> (r: Option<Value>)
        ensures
            match r {
                Some(v) => spec_read_value(
                    cgraph_t(self.compiled),
                    props_t(self.variables@),
                    node_id,
                    input_name@,
                ) == Some(value_t(v)),
                None => spec_read_value(
                    cgraph_t(self.compiled),
                    props_t(self.variables@),
                    node_id,
                    input_name@,
                ) is None,
            },
    {
        let node = match self.find_node(node_id) {
            Some(n) => n,
            None => {
                return None;
            },
        };
        let (input_pin, _, expected_ty) = match node.pin(input_name) {
            Some(p) => p,
            None => {
                return None;
            },
        };
        let from_pin = match edge_lookup(&self.compiled.data_edges, input_pin) {
            Some(p) => p,
            None => {
                return None;
            },
        };
        let from_node_id = match self.pin_owner(from_pin) {
            Some(n) => n,
            None => {
                return None;
            },
        };
        let from_node = match self.find_node(from_node_id) {
            Some(n) => n,
            None => {
                return None;
            },
        };
        let is_get = match from_node.kind {
            BuiltinNodeKind::GetVariable => true,
            _ => false,
        };
        if !is_get {
            return None;
        }
        proof {
            lemma_prop_get_bridge(from_node.properties@, "name"@);
        }
        let name = match prop_find(&from_node.properties, "name") {
            Some(Value::String(s)) => s,
            _ => {
                return None;
            },
        };
        let value = match store_read(&self.variables, name.as_str()) {
            Some(v) => v,
            None => {
                return None;
            },
        };
        if value.data_type().eq_kind(expected_ty) {
            Some(value)
        } else {
            None
        }
    }

    /// String form of input resolution.
    pub(crate) fn read_string_input(&self, node_id: NodeId, input_name: &str) -> (r: Option<
        String,
    >)
        ensures
            match r {
                Some(s) => spec_read_string(
                    cgraph_t(self.compiled),
                    props_t(self.variables@),
                    node_id,
                    input_name@,
                ) == Some(s@),
                None => spec_read_string(
                    cgraph_t(self.compiled),
                    props_t(self.variables@),
                    node_id,
                    input_name@,
                ) is None,
            },
    {
        match self.read_value_input(node_id, input_name) {
            Some(Value::String(s)) => Some(s),
            _ => None,
        }
    }

    /// Boolean form of input resolution.
    pub(crate) fn read_bool_input(&self, node_id: NodeId, input_name: &str) -> (r: Option<bool>)
        ensures
            match r {
                Some(b) => spec_read_bool(
                    cgraph_t(self.compiled),
                    props_t(self.variables@),
                    node_id,
                    input_name@,
                ) == Some(b),
                None => spec_read_bool(
                    cgraph_t(self.compiled),
                    props_t(self.variables@),
                    node_id,
                    input_name@,
                ) is None,
            },
    {
        match self.read_value_input(node_id, input_name) {
            Some(Value::Bool(b)) => Some(b),
            _ => None,
        }
    }
}

// ---------------------------------------------------------------------
// Run lemmas
// ---------------------------------------------------------------------

/// Prefixing twice is prefixing the concatenation.
pub proof fn lemma_run_prepend_assoc(e1: Seq<EventT>, e2: Seq<EventT>, r: RunT)
    ensures
        run_prepend(e1, run_prepend(e2, r)) == run_prepend(e1 + e2, r),
{
    assert(run_prepend(e1, run_prepend(e2, r)) =~~= run_prepend(e1 + e2, r));
}

/// One unfolding of `spec_run` at a pin whose owner exists.
pub proof fn lemma_run_unfold(
    c: CompiledGraphT,
    store: Seq<(Seq<char>, ValueT)>,
    pin: PinId,
    outs: Seq<OutcomeT>,
    fuel: nat,
)
    requires
        fuel > 0,
        c_pin_owner(c, pin) is Some,
    ensures
        ({
            let nid = match c_pin_owner(c, pin) {
                Some(nid) => nid,
                None => NodeId(0),
            };
            match c_find_node(c, nid) {
                None => spec_run(c, store, Some(pin), outs, fuel) == (RunT {
                    done: true,
                    events: seq![EventT::EnterNode(nid)],
                    store,
                }),
                Some(n) => {
                    let is_script = n.kind == BuiltinNodeKind::RhaiScript;
                    let o = if is_script && outs.len() > 0 {
                        outs[0]
                    } else {
                        no_outcome()
                    };
                    let rest = if is_script {
                        outs.drop_first()
                    } else {
                        outs
                    };
                    let st = spec_step(c, store, nid, n, o);
                    spec_run(c, store, Some(pin), outs, fuel) == run_prepend(
                        seq![EventT::EnterNode(nid)] + st.events,
                        spec_run(c, st.store, st.next, rest, (fuel - 1) as nat),
                    )
                },
            }
        }),
{
}

/// The image of an event log grows one entry per push.
pub proof fn lemma_events_t_push(s: Seq<ExecutionEvent>, e: ExecutionEvent)
    ensures
        events_t(s.push(e)) =~= events_t(s).push(event_t(e)),
{
}

/// Copies a lowered node; the copy has the same ghost image.
fn clone_compiled(n: &CompiledNode) -> (r: CompiledNode)
    ensures
        cnode_t(r) == cnode_t(*n),
{
    let np = n.pins.len();
    let mut pins: Vec<crate::model::Pin> = Vec::new();
    let mut j: usize = 0;
    while j < np
        invariant
            np == n.pins@.len(),
            j <= np,
            pins@.len() == j,
            forall|k: int| 0 <= k < j ==> #[trigger] pins@[k] == n.pins@[k],
        decreases np - j,
    {
        pins.push(crate::model::clone_pin(&n.pins[j]));
        j += 1;
    }
    let r = CompiledNode {
        id: n.id,
        kind: n.kind,
        properties: clone_props(&n.properties),
        pins,
    };
    proof {
        assert(r.pins@ =~= n.pins@);
        assert(cnode_t(r) =~~= cnode_t(*n));
    }
    r
}

impl Interpreter {
    /// Walks the exec chain hanging off this node's named exec output.
    /// Where the node, the pin or its exec type is missing, nothing
    /// runs and the output is empty. Otherwise the chain is executed to
    /// its end and the output carries the events and a store snapshot:
    /// a completed `spec_run` under some step count and script
    /// outcomes.
    #[verifier::rlimit(100)]
    fn run_from_exec_out(&mut self, start_node: NodeId, exec_out_pin: &str) -> (out:
        InterpreterOutput)
        requires
            c_flow_acyclic(cgraph_t(old(self).compiled)),
        ensures
            final(self).compiled == old(self).compiled,
            !spec_chain_ok(cgraph_t(old(self).compiled), start_node, exec_out_pin@) ==> {
                &&& out.events@.len() == 0
                &&& out.variables@.len() == 0
                &&& final(self).variables == old(self).variables
            },
            spec_chain_ok(cgraph_t(old(self).compiled), start_node, exec_out_pin@) ==> {
                &&& out.variables@ == final(self).variables@
                &&& spec_completed_run(
                    cgraph_t(old(self).compiled),
                    props_t(old(self).variables@),
                    start_node,
                    exec_out_pin@,
                    events_t(out.events@),
                    props_t(final(self).variables@),
                )
            },
    {
        let ghost ct = cgraph_t(self.compiled);
        let mut out = InterpreterOutput { events: Vec::new(), variables: Vec::new() };

        let out_pin_id: PinId = {
            let start = match self.find_node(start_node) {
                Some(n) => n,
                None => {
                    return out;
                },
            };
            match start.pin(exec_out_pin) {
                Some((pid, _, ty)) => {
                    let is_exec = match ty {
                        DataType::Exec => true,
                        _ => false,
                    };
                    if !is_exec {
                        return out;
                    }
                    pid
                },
                None => {
                    return out;
                },
            }
        };
        let mut next: Option<PinId> = edge_lookup(&self.compiled.exec_edges, out_pin_id);
        proof {
            assert(spec_chain_ok(ct, start_node, exec_out_pin@));
            assert(next == spec_next_exec(ct, start_node, exec_out_pin@));
        }

        let ghost st0 = props_t(self.variables@);
        let ghost cur0 = next;
        let ghost mut outs: Seq<OutcomeT> = Seq::empty();
        let ghost mut steps: nat = 0;
        let ghost mut trail: Seq<NodeId> = Seq::empty();
        proof {
            assert forall|rest: Seq<OutcomeT>, f: nat|
                #[trigger] spec_run(ct, st0, cur0, outs + rest, (steps + f) as nat) == run_prepend(
                    events_t(out.events@),
                    spec_run(ct, props_t(self.variables@), next, rest, f),
                ) by {
                assert(outs + rest =~= rest);
                assert(events_t(out.events@) =~= Seq::<EventT>::empty());
                assert(run_prepend(
                    events_t(out.events@),
                    spec_run(ct, props_t(self.variables@), next, rest, f),
                ) =~~= spec_run(ct, props_t(self.variables@), next, rest, f));
            }
        }
        loop
            invariant_except_break
                (match next {
                    Some(p) => match c_pin_owner(ct, p) {
                        Some(b) => trail.len() == 0 || c_step_succ(ct, trail.last(), b),
                        None => true,
                    },
                    None => true,
                }),
                forall|rest: Seq<OutcomeT>, f: nat|
                    #[trigger] spec_run(ct, st0, cur0, outs + rest, (steps + f) as nat)
                        == run_prepend(
                        events_t(out.events@),
                        spec_run(ct, props_t(self.variables@), next, rest, f),
                    ),
            invariant
                self.compiled == old(self).compiled,
                ct == cgraph_t(self.compiled),
                c_flow_acyclic(ct),
                out.variables@.len() == 0,
                trail.no_duplicates(),
                trail.len() == 0 || c_run_path(ct, trail),
                trail.len() <= ct.nodes.len(),
                forall|x: NodeId| #[trigger] trail.contains(x) ==> exists|i: int|
                    0 <= i < ct.nodes.len() && (#[trigger] ct.nodes[i]).id == x,
            ensures
                self.compiled == old(self).compiled,
                out.variables@.len() == 0,
                exists|o2: Seq<OutcomeT>, f2: nat|
                    #[trigger] spec_run(ct, st0, cur0, o2, f2) == (RunT {
                        done: true,
                        events: events_t(out.events@),
                        store: props_t(self.variables@),
                    }),
            decreases ct.nodes.len() + 1 - trail.len(),
        {
            let exec_in_pin = match next {
                Some(p) => p,
                None => {
                    proof {
                        assert(outs + Seq::<OutcomeT>::empty() =~= outs);
                        assert(spec_run(ct, st0, cur0, outs, (steps + 0) as nat) == run_prepend(
                            events_t(out.events@),
                            spec_run(ct, props_t(self.variables@), next, Seq::empty(), 0),
                        ));
                        assert(run_prepend(
                            events_t(out.events@),
                            spec_run(ct, props_t(self.variables@), next, Seq::empty(), 0),
                        ) =~~= (RunT {
                            done: true,
                            events: events_t(out.events@),
                            store: props_t(self.variables@),
                        }));
                    }
                    break;
                },
            };
            let node_id = match self.pin_owner(exec_in_pin) {
                Some(id) => id,
                None => {
                    proof {
                        assert(outs + Seq::<OutcomeT>::empty() =~= outs);
                        assert(spec_run(ct, st0, cur0, outs, (steps + 0) as nat) == run_prepend(
                            events_t(out.events@),
                            spec_run(ct, props_t(self.variables@), next, Seq::empty(), 0),
                        ));
                        assert(run_prepend(
                            events_t(out.events@),
                            spec_run(ct, props_t(self.variables@), next, Seq::empty(), 0),
                        ) =~~= (RunT {
                            done: true,
                            events: events_t(out.events@),
                            store: props_t(self.variables@),
                        }));
                    }
                    break;
                },
            };
            proof {
                // The node just entered is fresh: a repeat would close a
                // cycle of the runtime flow, which the caller excluded.
                if trail.contains(node_id) {
                    let i = choose|i: int| 0 <= i < trail.len() && trail[i] == node_id;
                    let cyc = trail.subrange(i, trail.len() as int).push(node_id);
                    assert(cyc.len() >= 2);
                    assert(cyc[0] == node_id && cyc.last() == node_id);
                    assert forall|j: int| 0 <= j < cyc.len() - 1 implies c_step_succ(
                        ct,
                        #[trigger] cyc[j],
                        cyc[j + 1],
                    ) by {
                        if j < cyc.len() - 2 {
                            assert(cyc[j] == trail[i + j] && cyc[j + 1] == trail[i + j + 1]);
                            assert(c_step_succ(ct, trail[i + j], trail[i + j + 1]));
                        } else {
                            assert(cyc[j] == trail.last());
                            assert(c_step_succ(ct, trail.last(), node_id));
                        }
                    }
                    assert(c_run_path(ct, cyc));
                    assert(false);
                }
                let ghost trail2 = trail.push(node_id);
                assert(trail2[trail2.len() - 1] == node_id);
                assert forall|x: NodeId| #[trigger] trail2.contains(x) implies (trail.contains(x)
                    || x == node_id) by {
                    let ix = choose|ix: int| 0 <= ix < trail2.len() && trail2[ix] == x;
                    if ix < trail.len() {
                        assert(trail[ix] == x);
                    }
                }
                assert(trail2.no_duplicates()) by {
                    assert forall|a: int, b: int|
                        0 <= a < trail2.len() && 0 <= b < trail2.len() && a != b implies trail2[a]
                        != trail2[b] by {
                        if a < trail.len() && b < trail.len() {
                        } else if a < trail.len() {
                            if trail2[a] == node_id {
                                assert(trail.contains(trail[a]));
                            }
                        } else if b < trail.len() {
                            if trail2[b] == node_id {
                                assert(trail.contains(trail[b]));
                            }
                        }
                    }
                }
                if trail.len() > 0 {
                    assert forall|j: int| 0 <= j < trail2.len() - 1 implies c_step_succ(
                        ct,
                        #[trigger] trail2[j],
                        trail2[j + 1],
                    ) by {
                        if j < trail2.len() - 2 {
                            assert(trail2[j] == trail[j] && trail2[j + 1] == trail[j + 1]);
                            assert(c_step_succ(ct, trail[j], trail[j + 1]));
                        } else {
                            assert(trail2[j] == trail.last());
                        }
                    }
                }
                assert(c_run_path(ct, trail2));
                crate::seq_search::lemma_first_where(
                    ct.nodes,
                    |nn: CompiledNodeT| c_node_has_pin(nn, exec_in_pin),
                );
                assert(trail2.contains(node_id));
                trail = trail2;
                lemma_c_id_bound(ct, trail);
            }
            let ghost evs0 = out.events@;
            out.events.push(ExecutionEvent::EnterNode(node_id));
            proof {
                lemma_events_t_push(evs0, ExecutionEvent::EnterNode(node_id));
            }
            let node = {
                match self.find_node(node_id) {
                    Some(n) => crate::interpret::clone_compiled(n),
                    None => {
                        proof {
                            assert(outs + Seq::<OutcomeT>::empty() =~= outs);
                            lemma_run_unfold(
                                ct,
                                props_t(self.variables@),
                                exec_in_pin,
                                Seq::empty(),
                                1,
                            );
                            assert(spec_run(
                                ct,
                                props_t(self.variables@),
                                next,
                                Seq::empty(),
                                1,
                            ) == (RunT {
                                done: true,
                                events: seq![EventT::EnterNode(node_id)],
                                store: props_t(self.variables@),
                            }));
                            assert(spec_run(ct, st0, cur0, outs, (steps + 1) as nat)
                                == run_prepend(
                                events_t(evs0),
                                spec_run(ct, props_t(self.variables@), next, Seq::empty(), 1),
                            ));
                            assert(run_prepend(
                                events_t(evs0),
                                spec_run(ct, props_t(self.variables@), next, Seq::empty(), 1),
                            ) =~~= (RunT {
                                done: true,
                                events: events_t(out.events@),
                                store: props_t(self.variables@),
                            }));
                        }
                        break;
                    },
                }
            };
            let ghost store_b = props_t(self.variables@);
            let ghost evs1 = out.events@;
            let ghost next_b = next;
            let stepped = crate::runtime::step_node(self, &mut out, node_id, &node);
            let ghost is_script = cnode_t(node).kind == BuiltinNodeKind::RhaiScript;
            let ghost o = if is_script {
                choose|o: OutcomeT|
                    spec_step_obs(
                        ct,
                        store_b,
                        node_id,
                        cnode_t(node),
                        o,
                        events_t(evs1),
                        events_t(out.events@),
                        props_t(self.variables@),
                        stepped,
                    )
            } else {
                no_outcome()
            };
            proof {
                let st = spec_step(ct, store_b, node_id, cnode_t(node), o);
                assert(events_t(out.events@) == events_t(evs1) + st.events);
                assert(props_t(self.variables@) == st.store);
                assert(stepped == st.next);
                let added: Seq<OutcomeT> = if is_script {
                    seq![o]
                } else {
                    Seq::empty()
                };
                let outs2 = outs + added;
                let steps2 = steps + 1;
                assert forall|rest: Seq<OutcomeT>, f: nat|
                    #[trigger] spec_run(ct, st0, cur0, outs2 + rest, (steps2 + f) as nat)
                        == run_prepend(
                        events_t(out.events@),
                        spec_run(ct, st.store, st.next, rest, f),
                    ) by {
                    let rest_x = added + rest;
                    assert(outs + rest_x =~= outs2 + rest);
                    assert(spec_run(ct, st0, cur0, outs + rest_x, (steps + (f + 1)) as nat)
                        == run_prepend(
                        events_t(evs0),
                        spec_run(ct, store_b, next_b, rest_x, (f + 1) as nat),
                    ));
                    lemma_run_unfold(ct, store_b, exec_in_pin, rest_x, (f + 1) as nat);
                    if is_script {
                        assert(rest_x[0] == o);
                        assert(rest_x.drop_first() =~= rest);
                    } else {
                        assert(rest_x =~= rest);
                    }
                    assert(spec_run(ct, store_b, next_b, rest_x, (f + 1) as nat) == run_prepend(
                        seq![EventT::EnterNode(node_id)] + st.events,
                        spec_run(ct, st.store, st.next, rest, f),
                    ));
                    lemma_run_prepend_assoc(
                        events_t(evs0),
                        seq![EventT::EnterNode(node_id)] + st.events,
                        spec_run(ct, st.store, st.next, rest, f),
                    );
                    assert(events_t(evs0) + (seq![EventT::EnterNode(node_id)] + st.events)
                        =~= events_t(out.events@));
                }
                outs = outs2;
                steps = steps2;
                match stepped {
                    Some(q) => match c_pin_owner(ct, q) {
                        Some(b2) => {
                            lemma_step_succ(ct, store_b, node_id, cnode_t(node), o, b2);
                            assert(trail.last() == node_id);
                        },
                        None => {},
                    },
                    None => {},
                }
            }
            next = stepped;
        }
        out.variables = clone_props(&self.variables);
        out
    }

    /// Runs the chain from an entry node's `then` output, or does
    /// nothing and reports an empty output where the entry is absent.
    fn run_entry(&mut self, entry: Option<NodeId>) -> (out: InterpreterOutput)
        requires
            c_flow_acyclic(cgraph_t(old(self).compiled)),
        ensures
            final(self).compiled == old(self).compiled,
            entry is None ==> {
                &&& out.events@.len() == 0
                &&& out.variables@.len() == 0
                &&& final(self).variables == old(self).variables
            },
            entry matches Some(id) ==> {
                &&& !spec_chain_ok(cgraph_t(old(self).compiled), id, "then"@) ==> {
                    &&& out.events@.len() == 0
                    &&& out.variables@.len() == 0
                    &&& final(self).variables == old(self).variables
                }
                &&& spec_chain_ok(cgraph_t(old(self).compiled), id, "then"@) ==> {
                    &&& out.variables@ == final(self).variables@
                    &&& spec_completed_run(
                        cgraph_t(old(self).compiled),
                        props_t(old(self).variables@),
                        id,
                        "then"@,
                        events_t(out.events@),
                        props_t(final(self).variables@),
                    )
                }
            },
    {
        match entry {
            Some(entry_node) => self.run_from_exec_out(entry_node, "then"),
            None => InterpreterOutput { events: Vec::new(), variables: Vec::new() },
        }
    }

    /// Runs the BeginPlay chain once, returning its events and a
    /// snapshot of the variable store. Callers hand in a compiled
    /// graph whose runtime flow is acyclic — what the compiler's
    /// acceptance establishes (see `lemma_accepted_flow_acyclic`).
    pub fn run_begin_play(&mut self) -> (out: InterpreterOutput)
        requires
            c_flow_acyclic(cgraph_t(old(self).compiled)),
        ensures
            final(self).compiled == old(self).compiled,
            ({
                let ct = cgraph_t(old(self).compiled);
                match ct.begin_play_entry {
                    None => out.events@.len() == 0 && out.variables@.len() == 0 && final(self).variables == old(self).variables,
                    Some(id) => if spec_chain_ok(ct, id, "then"@) {
                        out.variables@ == final(self).variables@
                        && spec_completed_run(
                            ct,
                            props_t(old(self).variables@),
                            id,
                            "then"@,
                            events_t(out.events@),
                            props_t(final(self).variables@),
                        )
                    } else {
                        out.events@.len() == 0 && out.variables@.len() == 0 && final(self).variables == old(self).variables
                    },
                }
            }),
    {
        let entry = self.compiled.begin_play_entry;
        self.run_entry(entry)
    }

    /// Runs the ConstructionScript chain once, returning its events and
    /// a snapshot of the variable store; acyclic runtime flow is
    /// required, as for `run_begin_play`.
    pub fn run_construction_script(&mut self) -> (out: InterpreterOutput)
        requires
            c_flow_acyclic(cgraph_t(old(self).compiled)),
        ensures
            final(self).compiled == old(self).compiled,
            ({
                let ct = cgraph_t(old(self).compiled);
                match ct.construction_entry {
                    None => out.events@.len() == 0 && out.variables@.len() == 0 && final(self).variables == old(self).variables,
                    Some(id) => if spec_chain_ok(ct, id, "then"@) {
                        out.variables@ == final(self).variables@
                        && spec_completed_run(
                            ct,
                            props_t(old(self).variables@),
                            id,
                            "then"@,
                            events_t(out.events@),
                            props_t(final(self).variables@),
                        )
                    } else {
                        out.events@.len() == 0 && out.variables@.len() == 0 && final(self).variables == old(self).variables
                    },
                }
            }),
    {
        let entry = self.compiled.construction_entry;
        self.run_entry(entry)
    }

    /// Runs the Tick chain once, writing the frame's delta time (as its
    /// bit pattern) into the reserved `__dt` slot first. Does nothing
    /// where no Tick entry exists; acyclic runtime flow is required,
    /// as for `run_begin_play`.
    pub fn tick(&mut self, dt_bits: u32) -> (out: InterpreterOutput)
        requires
            c_flow_acyclic(cgraph_t(old(self).compiled)),
        ensures
            final(self).compiled == old(self).compiled,
            ({
                let ct = cgraph_t(old(self).compiled);
                match ct.tick_entry {
                    None => out.events@.len() == 0 && out.variables@.len() == 0 && final(self).variables == old(self).variables,
                    Some(id) => {
                        let stored = store_put(
                            props_t(old(self).variables@),
                            "__dt"@,
                            ValueT::F32V(dt_bits),
                        );
                        if spec_chain_ok(ct, id, "then"@) {
                            out.variables@ == final(self).variables@
                            && spec_completed_run(
                                ct,
                                stored,
                                id,
                                "then"@,
                                events_t(out.events@),
                                props_t(final(self).variables@),
                            )
                        } else {
                            out.events@.len() == 0 && out.variables@.len() == 0 && props_t(
                                final(self).variables@,
                            ) == stored
                        }
                    },
                }
            }),
    {
        match self.compiled.tick_entry {
            Some(tick_node) => {
                self.set_variable("__dt", Value::F32(dt_bits));
                self.run_from_exec_out(tick_node, "then")
            },
            None => InterpreterOutput { events: Vec::new(), variables: Vec::new() },
        }
    }
}

} // verus!
