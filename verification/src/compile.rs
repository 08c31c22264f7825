//! The compiler: validation of the graph's structural and type
//! invariants, then lowering into a flat executable form.
//!
//! Validation applies the rules in a fixed order and stops at the first
//! failure; `spec_first_error` is the exact statement of that order.
//! Lowering is stated by `spec_lower`: the ghost image of a successful
//! result equals it.

use vstd::prelude::*;

use crate::error::{CompileError, ValidationError};
use crate::model::{
    BlueprintGraph, BuiltinNodeKind, DataType, Link, Node, NodeId, Pin, PinDirection, PinId, PinT,
    Value, VariableDef, clone_props, clone_value, pin_t, prop_find, prop_get, str_eq,
};
use crate::seq_search::{
    first_where, last_where, lemma_first_where_is, lemma_first_where_none,
    lemma_last_where_is, lemma_last_where_none,
};
use crate::views::{
    GraphT, NodeT, ValueT, VarT, graph_t, node_t, prop_get_t, props_t, value_t, var_t,
};

verus! {

// ---------------------------------------------------------------------
// Lookups over the ghost image of a graph
// ---------------------------------------------------------------------

/// Whether a node image owns a pin with this id.
pub open spec fn t_node_has_pin(n: NodeT, pid: PinId) -> bool {
    exists|j: int| 0 <= j < n.pins.len() && (#[trigger] n.pins[j]).id == pid.0
}

/// The first pin image with this id, searching nodes in held order and
/// pins in declaration order.
pub open spec fn t_find_pin(g: GraphT, pid: PinId) -> Option<PinT> {
    match first_where(g.nodes, |n: NodeT| t_node_has_pin(n, pid)) {
        Some(i) => match first_where(g.nodes[i].pins, |p: PinT| p.id == pid.0) {
            Some(j) => Some(g.nodes[i].pins[j]),
            None => None,
        },
        None => None,
    }
}

/// The image of the first node owning this pin.
pub open spec fn t_pin_owner(g: GraphT, pid: PinId) -> Option<NodeT> {
    match first_where(g.nodes, |n: NodeT| t_node_has_pin(n, pid)) {
        Some(i) => Some(g.nodes[i]),
        None => None,
    }
}

/// The first variable image with this name.
pub open spec fn t_var_lookup(vars: Seq<VarT>, name: Seq<char>) -> Option<VarT> {
    match first_where(vars, |v: VarT| v.name == name) {
        Some(i) => Some(vars[i]),
        None => None,
    }
}

/// The effective type of a pin: for the `value` pin of a variable node,
/// the type of the variable its `name` property refers to, where that
/// variable exists; the pin's own template type everywhere else. This
/// rule is applied wherever a pin type is consulted.
pub open spec fn t_effective_type(g: GraphT, owner: NodeT, pin: PinT) -> DataType {
    if (owner.kind == BuiltinNodeKind::GetVariable || owner.kind == BuiltinNodeKind::SetVariable)
        && pin.name == "value"@ {
        match prop_get_t(owner.properties, "name"@) {
            Some(ValueT::StringV(vn)) => match t_var_lookup(g.variables, vn) {
                Some(v) => v.data_type,
                None => pin.data_type,
            },
            _ => pin.data_type,
        }
    } else {
        pin.data_type
    }
}

/// The effective type of the pin with this id, if the pin exists.
pub open spec fn t_pin_type(g: GraphT, pid: PinId) -> Option<DataType> {
    match first_where(g.nodes, |n: NodeT| t_node_has_pin(n, pid)) {
        Some(i) => match first_where(g.nodes[i].pins, |p: PinT| p.id == pid.0) {
            Some(j) => Some(t_effective_type(g, g.nodes[i], g.nodes[i].pins[j])),
            None => None,
        },
        None => None,
    }
}

// ---------------------------------------------------------------------
// Validation, rule by rule
// ---------------------------------------------------------------------

/// Two variables share one name.
pub open spec fn spec_dup_vars(g: GraphT) -> bool {
    exists|i: int, j: int|
        0 <= i < j < g.variables.len()
            && (#[trigger] g.variables[i]).name == (#[trigger] g.variables[j]).name
}

/// What is wrong with one link, if anything: missing pins, a link across
/// partitions, wrong directions, or unequal effective types — in that
/// order, the first hit winning.
pub open spec fn spec_link_error(g: GraphT, l: Link) -> Option<CompileError> {
    match (t_find_pin(g, l.from), t_find_pin(g, l.to)) {
        (Option::None, _) => Some(
            CompileError { kind: ValidationError::UnknownPin, node: None, pin: Some(l.from) },
        ),
        (Option::Some(_), Option::None) => Some(
            CompileError { kind: ValidationError::UnknownPin, node: None, pin: Some(l.to) },
        ),
        (Option::Some(fp), Option::Some(tp)) => match (t_pin_owner(g, l.from), t_pin_owner(
            g,
            l.to,
        )) {
            (Option::Some(fo), Option::Some(to_)) => if fo.graph != to_.graph {
                Some(
                    CompileError {
                        kind: ValidationError::CrossGraphLink,
                        node: Some(to_.id),
                        pin: Some(l.to),
                    },
                )
            } else if fp.direction != PinDirection::Output || tp.direction != PinDirection::Input {
                Some(
                    CompileError {
                        kind: ValidationError::DirectionMismatch,
                        node: None,
                        pin: Some(l.to),
                    },
                )
            } else if t_effective_type(g, fo, fp) != t_effective_type(g, to_, tp) {
                Some(
                    CompileError {
                        kind: ValidationError::TypeMismatch,
                        node: None,
                        pin: Some(l.to),
                    },
                )
            } else {
                None
            },
            _ => None,
        },
    }
}

/// The error of the first link that has one.
pub open spec fn spec_first_link_error(g: GraphT) -> Option<CompileError> {
    match first_where(g.links, |l: Link| spec_link_error(g, l) is Some) {
        Some(i) => spec_link_error(g, g.links[i]),
        None => None,
    }
}

/// How many links end at this pin.
pub open spec fn spec_in_count(links: Seq<Link>, p: PinId) -> nat
    decreases links.len(),
{
    if links.len() == 0 {
        0
    } else {
        spec_in_count(links.drop_last(), p) + (if links.last().to == p {
            1nat
        } else {
            0nat
        })
    }
}

/// An exec input pin that receives more than one incoming link.
pub open spec fn spec_exec_offender(g: GraphT, p: PinId) -> bool {
    &&& t_pin_type(g, p) == Some(DataType::Exec)
    &&& spec_in_count(g.links, p) >= 2
}

/// The offender with the numerically least pin id.
pub open spec fn spec_least_offender(g: GraphT, p: PinId) -> bool {
    &&& spec_exec_offender(g, p)
    &&& forall|q: PinId| spec_exec_offender(g, q) ==> p.0 <= q.0
}

/// The fan-in failure, if some exec input has two or more sources.
pub open spec fn spec_multi_exec_error(g: GraphT) -> Option<CompileError> {
    if exists|p: PinId| spec_least_offender(g, p) {
        let p = choose|p: PinId| spec_least_offender(g, p);
        Some(
            CompileError {
                kind: ValidationError::MultipleExecInputs,
                node: match t_pin_owner(g, p) {
                    Some(n) => Some(n.id),
                    None => Some(NodeId(0)),
                },
                pin: Some(p),
            },
        )
    } else {
        None
    }
}

/// A variable node whose `name` property does not name an existing
/// variable (or is absent, or not a string).
pub open spec fn spec_node_bad_var(g: GraphT, n: NodeT) -> bool {
    &&& (n.kind == BuiltinNodeKind::GetVariable || n.kind == BuiltinNodeKind::SetVariable)
    &&& match prop_get_t(n.properties, "name"@) {
        Some(ValueT::StringV(vn)) => t_var_lookup(g.variables, vn) is None,
        _ => true,
    }
}

/// The unknown-variable failure, at the first offending node.
pub open spec fn spec_var_error(g: GraphT) -> Option<CompileError> {
    match first_where(g.nodes, |n: NodeT| spec_node_bad_var(g, n)) {
        Some(i) => Some(
            CompileError {
                kind: ValidationError::UnknownVariable,
                node: Some(g.nodes[i].id),
                pin: None,
            },
        ),
        None => None,
    }
}

// ---------------------------------------------------------------------
// Exec flow as a relation, paths, cycles
// ---------------------------------------------------------------------

/// A step of exec flow from node `a` to node `b`: some link whose source
/// pin has effective type Exec runs from a pin of `a` to a pin of `b`.
pub open spec fn t_exec_succ(g: GraphT, a: NodeId, b: NodeId) -> bool {
    exists|k: int|
        0 <= k < g.links.len() && {
            let l = #[trigger] g.links[k];
            &&& t_pin_type(g, l.from) == Some(DataType::Exec)
            &&& match t_pin_owner(g, l.from) {
                Some(n) => n.id == a,
                None => false,
            }
            &&& match t_pin_owner(g, l.to) {
                Some(n) => n.id == b,
                None => false,
            }
        }
}

/// A walk along exec flow: consecutive entries are exec successors.
pub open spec fn t_is_path(g: GraphT, p: Seq<NodeId>) -> bool {
    &&& p.len() >= 1
    &&& forall|i: int| 0 <= i < p.len() - 1 ==> t_exec_succ(g, #[trigger] p[i], p[i + 1])
}

/// `b` is reachable from `a` along exec flow (in zero or more steps).
pub open spec fn t_reaches(g: GraphT, a: NodeId, b: NodeId) -> bool {
    exists|p: Seq<NodeId>| t_is_path(g, p) && p[0] == a && p.last() == b
}

/// `m` lies on an exec cycle.
pub open spec fn t_on_cycle(g: GraphT, m: NodeId) -> bool {
    exists|s: NodeId| t_exec_succ(g, m, s) && t_reaches(g, s, m)
}

/// Some node from which an exec cycle can be reached.
pub open spec fn t_reaches_cycle(g: GraphT, n: NodeId) -> bool {
    exists|m: NodeId| t_reaches(g, n, m) && t_on_cycle(g, m)
}

/// The exec flow graph contains a cycle.
pub open spec fn spec_has_exec_cycle(g: GraphT) -> bool {
    exists|m: NodeId| t_on_cycle(g, m)
}

/// The cycle failure, attributed to the first node (in held order) from
/// which a cycle can be reached.
pub open spec fn spec_cycle_error(g: GraphT) -> Option<CompileError> {
    match first_where(g.nodes, |n: NodeT| t_reaches_cycle(g, n.id)) {
        Some(i) => Some(
            CompileError {
                kind: ValidationError::ExecCycle,
                node: Some(g.nodes[i].id),
                pin: None,
            },
        ),
        None => None,
    }
}

/// The whole of validation: the rules in order, the first failure winning.
pub open spec fn spec_first_error(g: GraphT) -> Option<CompileError> {
    if spec_dup_vars(g) {
        Some(CompileError { kind: ValidationError::DuplicateVariable, node: None, pin: None })
    } else if spec_first_link_error(g) is Some {
        spec_first_link_error(g)
    } else if spec_multi_exec_error(g) is Some {
        spec_multi_exec_error(g)
    } else if spec_var_error(g) is Some {
        spec_var_error(g)
    } else {
        spec_cycle_error(g)
    }
}

// ---------------------------------------------------------------------
// The compiled form and its ghost image
// ---------------------------------------------------------------------

/// A lowered node: its properties and a name-indexed pin table whose
/// types are the effective ones.
#[derive(Debug, Clone, PartialEq)]
pub struct CompiledNode {
    pub id: NodeId,
    pub kind: BuiltinNodeKind,
    pub properties: Vec<(String, Value)>,
    pub pins: Vec<Pin>,
}

/// Ghost image of a lowered node.
#[verifier::ext_equal]
pub ghost struct CompiledNodeT {
    pub id: NodeId,
    pub kind: BuiltinNodeKind,
    pub properties: Seq<(Seq<char>, ValueT)>,
    pub pins: Seq<PinT>,
}

/// The ghost image of a lowered node.
pub open spec fn cnode_t(c: CompiledNode) -> CompiledNodeT {
    CompiledNodeT {
        id: c.id,
        kind: c.kind,
        properties: props_t(c.properties@),
        pins: c.pins@.map_values(|p: Pin| pin_t(p)),
    }
}

/// The lowered graph: entry points, materialized variable defaults,
/// per-node pin tables, and the two edge indices. Exec edges are keyed
/// by source pin; data edges by destination pin, because a data input
/// has at most one source while an output may fan out.
#[derive(Debug, Clone, PartialEq)]
pub struct CompiledGraph {
    pub begin_play_entry: Option<NodeId>,
    pub construction_entry: Option<NodeId>,
    pub tick_entry: Option<NodeId>,
    pub variables: Vec<(String, Value)>,
    pub nodes: Vec<CompiledNode>,
    pub exec_edges: Vec<(PinId, PinId)>,
    pub data_edges: Vec<(PinId, PinId)>,
}

/// Ghost image of the lowered graph.
#[verifier::ext_equal]
pub ghost struct CompiledGraphT {
    pub begin_play_entry: Option<NodeId>,
    pub construction_entry: Option<NodeId>,
    pub tick_entry: Option<NodeId>,
    pub variables: Seq<(Seq<char>, ValueT)>,
    pub nodes: Seq<CompiledNodeT>,
    pub exec_edges: Seq<(PinId, PinId)>,
    pub data_edges: Seq<(PinId, PinId)>,
}

/// The ghost image of the lowered graph.
pub open spec fn cgraph_t(c: CompiledGraph) -> CompiledGraphT {
    CompiledGraphT {
        begin_play_entry: c.begin_play_entry,
        construction_entry: c.construction_entry,
        tick_entry: c.tick_entry,
        variables: props_t(c.variables@),
        nodes: c.nodes@.map_values(|n: CompiledNode| cnode_t(n)),
        exec_edges: c.exec_edges@,
        data_edges: c.data_edges@,
    }
}

// ---------------------------------------------------------------------
// Lowering, stated
// ---------------------------------------------------------------------

/// The value a variable starts with: its declared default, else the
/// zero value of its type.
pub open spec fn spec_default_value(v: VarT) -> ValueT {
    match v.default_value {
        Some(d) => d,
        None => match v.data_type {
            DataType::Bool => ValueT::BoolV(false),
            DataType::I32 => ValueT::I32V(0),
            DataType::F32 => ValueT::F32V(0),
            DataType::String => ValueT::StringV(Seq::empty()),
            DataType::Exec | DataType::Unit => ValueT::UnitV,
        },
    }
}

/// A lowered node image: the pins with their effective types.
pub open spec fn spec_lower_node(g: GraphT, n: NodeT) -> CompiledNodeT {
    CompiledNodeT {
        id: n.id,
        kind: n.kind,
        properties: n.properties,
        pins: n.pins.map_values(
            |p: PinT| PinT {
                id: p.id,
                name: p.name,
                direction: p.direction,
                data_type: t_effective_type(g, n, p),
            },
        ),
    }
}

/// The edge indices after classifying the first `upto` links: a link
/// whose source pin has effective type Exec feeds the exec index as
/// (source, destination); every other link feeds the data index as
/// (destination, source).
pub open spec fn spec_edges(g: GraphT, upto: int) -> (Seq<(PinId, PinId)>, Seq<(PinId, PinId)>)
    decreases upto,
{
    if upto <= 0 {
        (Seq::empty(), Seq::empty())
    } else {
        let (e, d) = spec_edges(g, upto - 1);
        let l = g.links[upto - 1];
        if t_pin_type(g, l.from) == Some(DataType::Exec) {
            (e.push((l.from, l.to)), d)
        } else {
            (e, d.push((l.to, l.from)))
        }
    }
}

/// The id of the first node of this kind, in held order.
pub open spec fn spec_entry(g: GraphT, kind: BuiltinNodeKind) -> Option<NodeId> {
    match first_where(g.nodes, |n: NodeT| n.kind == kind) {
        Some(i) => Some(g.nodes[i].id),
        None => None,
    }
}

/// What lowering produces, in full.
pub open spec fn spec_lower(g: GraphT) -> CompiledGraphT {
    CompiledGraphT {
        begin_play_entry: spec_entry(g, BuiltinNodeKind::BeginPlay),
        construction_entry: spec_entry(g, BuiltinNodeKind::ConstructionScript),
        tick_entry: spec_entry(g, BuiltinNodeKind::Tick),
        variables: g.variables.map_values(|v: VarT| (v.name, spec_default_value(v))),
        nodes: g.nodes.map_values(|n: NodeT| spec_lower_node(g, n)),
        exec_edges: spec_edges(g, g.links.len() as int).0,
        data_edges: spec_edges(g, g.links.len() as int).1,
    }
}

// ---------------------------------------------------------------------
// Bridges between executable lookups and image-level lookups
// ---------------------------------------------------------------------

/// Property lookup commutes with taking ghost images.
pub proof fn lemma_prop_get_bridge(props: Seq<(String, Value)>, key: Seq<char>)
    ensures
        prop_get_t(props_t(props), key) == match prop_get(props, key) {
            Some(v) => Some(value_t(v)),
            None => None::<ValueT>,
        },
    decreases props.len(),
{
    if props.len() > 0 {
        assert(props_t(props)[0] == (props[0].0@, value_t(props[0].1)));
        if props[0].0@ != key {
            assert(props_t(props).drop_first() =~= props_t(props.drop_first()));
            lemma_prop_get_bridge(props.drop_first(), key);
        }
    }
}

/// Pin ownership reads the same on a node and on its ghost image.
pub proof fn lemma_has_pin_t(n: Node, pid: PinId)
    ensures
        t_node_has_pin(crate::views::node_t(n), pid) == crate::model::spec_node_has_pin(n, pid),
{
    let nt = node_t(n);
    if t_node_has_pin(nt, pid) {
        let j = choose|j: int| 0 <= j < nt.pins.len() && (#[trigger] nt.pins[j]).id == pid.0;
        assert(nt.pins[j] == pin_t(n.pins@[j]));
        assert((#[trigger] n.pins@[j]).id == pid);
    }
    if crate::model::spec_node_has_pin(n, pid) {
        let j = choose|j: int|
            0 <= j < n.pins@.len() && (#[trigger] n.pins@[j]).id == pid;
        assert((#[trigger] nt.pins[j]).id == pid.0);
    }
}

// ---------------------------------------------------------------------
// Executable lookups, specified against the ghost image
// ---------------------------------------------------------------------

/// Position of the pin with this id: index of the owning node and of
/// the pin within it, as `t_find_pin` and `t_pin_owner` describe them.
fn find_pin_entry(g: &BlueprintGraph, pid: PinId) -> (r: Option<(usize, usize)>)
    ensures
        match r {
            Some((i, j)) => {
                &&& i < g.nodes@.len()
                &&& j < g.nodes@[i as int].pins@.len()
                &&& first_where(graph_t(*g).nodes, |n: NodeT| t_node_has_pin(n, pid))
                    == Some(i as int)
                &&& first_where(
                    graph_t(*g).nodes[i as int].pins,
                    |p: PinT| p.id == pid.0,
                ) == Some(j as int)
            },
            None => first_where(graph_t(*g).nodes, |n: NodeT| t_node_has_pin(n, pid)) is None,
        },
{
    let ghost gt = graph_t(*g);
    let n = g.nodes.len();
    let mut i: usize = 0;
    while i < n
        invariant
            gt == graph_t(*g),
            n == g.nodes@.len(),
            i <= n,
            forall|j: int| 0 <= j < i ==> !t_node_has_pin(#[trigger] gt.nodes[j], pid),
        decreases n - i,
    {
        let node = &g.nodes[i];
        let m = node.pins.len();
        let mut j: usize = 0;
        while j < m
            invariant
                gt == graph_t(*g),
                n == g.nodes@.len(),
                i < n,
                *node == g.nodes@[i as int],
                m == node.pins@.len(),
                j <= m,
                forall|jj: int| 0 <= jj < i ==> !t_node_has_pin(#[trigger] gt.nodes[jj], pid),
                forall|k: int| 0 <= k < j ==> (#[trigger] gt.nodes[i as int].pins[k]).id != pid.0,
            decreases m - j,
        {
            if node.pins[j].id.0 == pid.0 {
                proof {
                    assert(gt.nodes[i as int].pins[j as int] == pin_t(node.pins@[j as int]));
                    assert(t_node_has_pin(gt.nodes[i as int], pid));
                    lemma_first_where_is(gt.nodes, |nn: NodeT| t_node_has_pin(nn, pid), i as int);
                    lemma_first_where_is(
                        gt.nodes[i as int].pins,
                        |p: PinT| p.id == pid.0,
                        j as int,
                    );
                }
                return Some((i, j));
            }
            proof {
                assert(gt.nodes[i as int].pins[j as int] == pin_t(node.pins@[j as int]));
            }
            j += 1;
        }
        proof {
            assert(!t_node_has_pin(gt.nodes[i as int], pid));
        }
        i += 1;
    }
    proof {
        lemma_first_where_none(gt.nodes, |nn: NodeT| t_node_has_pin(nn, pid));
    }
    None
}

/// The declared type of the named variable, if one exists.
fn var_type(g: &BlueprintGraph, name: &str) -> (r: Option<DataType>)
    ensures
        r == match t_var_lookup(graph_t(*g).variables, name@) {
            Some(v) => Some(v.data_type),
            None => None::<DataType>,
        },
{
    let ghost gt = graph_t(*g);
    let n = g.variables.len();
    let mut i: usize = 0;
    while i < n
        invariant
            gt == graph_t(*g),
            n == g.variables@.len(),
            i <= n,
            forall|j: int| 0 <= j < i ==> (#[trigger] gt.variables[j]).name != name@,
        decreases n - i,
    {
        if str_eq(g.variables[i].name.as_str(), name) {
            proof {
                assert(gt.variables[i as int] == var_t(g.variables@[i as int]));
                lemma_first_where_is(gt.variables, |v: VarT| v.name == name@, i as int);
            }
            return Some(g.variables[i].data_type);
        }
        proof {
            assert(gt.variables[i as int] == var_t(g.variables@[i as int]));
        }
        i += 1;
    }
    proof {
        lemma_first_where_none(gt.variables, |v: VarT| v.name == name@);
    }
    None
}

/// The effective type of a pin of this node.
fn effective_type(g: &BlueprintGraph, owner: &Node, pin: &Pin) -> (r: DataType)
    ensures
        r == t_effective_type(graph_t(*g), node_t(*owner), pin_t(*pin)),
{
    proof {
        lemma_prop_get_bridge(owner.properties@, "name"@);
    }
    let is_var_node = match owner.kind {
        BuiltinNodeKind::GetVariable | BuiltinNodeKind::SetVariable => true,
        _ => false,
    };
    if is_var_node && str_eq(pin.name.as_str(), "value") {
        match prop_find(&owner.properties, "name") {
            Some(Value::String(vn)) => match var_type(g, vn.as_str()) {
                Some(dt) => dt,
                None => pin.data_type,
            },
            _ => pin.data_type,
        }
    } else {
        pin.data_type
    }
}

/// The effective type of the pin with this id, if the pin exists.
pub(crate) fn pin_type(g: &BlueprintGraph, pid: PinId) -> (r: Option<DataType>)
    ensures
        r == t_pin_type(graph_t(*g), pid),
{
    match find_pin_entry(g, pid) {
        Some((i, j)) => Some(effective_type(g, &g.nodes[i], &g.nodes[i].pins[j])),
        None => None,
    }
}

/// The id of the first node owning this pin, if any.
pub(crate) fn pin_owner_id(g: &BlueprintGraph, pid: PinId) -> (r: Option<NodeId>)
    ensures
        r == match t_pin_owner(graph_t(*g), pid) {
            Some(n) => Some(n.id),
            None => None::<NodeId>,
        },
{
    match find_pin_entry(g, pid) {
        Some((i, _)) => Some(g.nodes[i].id),
        None => None,
    }
}

/// What is wrong with one link, if anything.
fn link_error(g: &BlueprintGraph, l: Link) -> (r: Option<CompileError>)
    ensures
        r == spec_link_error(graph_t(*g), l),
{
    let ghost gt = graph_t(*g);
    let from_entry = match find_pin_entry(g, l.from) {
        Some(e) => e,
        None => {
            return Some(CompileError::new(ValidationError::UnknownPin).with_pin(l.from));
        },
    };
    let to_entry = match find_pin_entry(g, l.to) {
        Some(e) => e,
        None => {
            return Some(CompileError::new(ValidationError::UnknownPin).with_pin(l.to));
        },
    };
    let (fi, fj) = from_entry;
    let (ti, tj) = to_entry;
    let from_node = &g.nodes[fi];
    let to_node = &g.nodes[ti];
    let from_pin = &from_node.pins[fj];
    let to_pin = &to_node.pins[tj];
    proof {
        assert(gt.nodes[fi as int] == node_t(g.nodes@[fi as int]));
        assert(gt.nodes[ti as int] == node_t(g.nodes@[ti as int]));
        assert(gt.nodes[fi as int].pins[fj as int] == pin_t(g.nodes@[fi as int].pins@[fj as int]));
        assert(gt.nodes[ti as int].pins[tj as int] == pin_t(g.nodes@[ti as int].pins@[tj as int]));
    }
    if !str_eq(from_node.graph.as_str(), to_node.graph.as_str()) {
        return Some(
            CompileError::new(ValidationError::CrossGraphLink)
                .with_node(from_node.id)
                .with_node(to_node.id)
                .with_pin(l.from)
                .with_pin(l.to),
        );
    }
    let dir_ok = match (from_pin.direction, to_pin.direction) {
        (PinDirection::Output, PinDirection::Input) => true,
        _ => false,
    };
    if !dir_ok {
        return Some(
            CompileError::new(ValidationError::DirectionMismatch).with_pin(l.from).with_pin(l.to),
        );
    }
    let ft = effective_type(g, from_node, from_pin);
    let tt = effective_type(g, to_node, to_pin);
    if !ft.eq_kind(tt) {
        return Some(
            CompileError::new(ValidationError::TypeMismatch).with_pin(l.from).with_pin(l.to),
        );
    }
    None
}

impl DataType {
    /// Whether two scalar kinds are the same.
    pub fn eq_kind(self, other: DataType) -> (r: bool)
        ensures
            r == (self == other),
    {
        self == other
    }
}

// ---------------------------------------------------------------------
// Executable validation
// ---------------------------------------------------------------------

/// A positive incoming count names at least one link ending at the pin.
proof fn lemma_in_count_pos(links: Seq<Link>, p: PinId)
    requires
        spec_in_count(links, p) > 0,
    ensures
        exists|k: int| 0 <= k < links.len() && (#[trigger] links[k]).to == p,
    decreases links.len(),
{
    if links.last().to == p {
        assert(links[links.len() - 1].to == p);
    } else {
        lemma_in_count_pos(links.drop_last(), p);
        let k = choose|k: int|
            0 <= k < links.drop_last().len() && (#[trigger] links.drop_last()[k]).to == p;
        assert(links[k].to == p);
    }
}

/// How many links end at this pin (executable form).
fn count_links_to(links: &Vec<Link>, p: PinId) -> (r: usize)
    ensures
        r == spec_in_count(links@, p),
{
    let n = links.len();
    let mut count: usize = 0;
    let mut k: usize = 0;
    while k < n
        invariant
            n == links@.len(),
            k <= n,
            count <= k,
            count == spec_in_count(links@.subrange(0, k as int), p),
        decreases n - k,
    {
        proof {
            assert(links@.subrange(0, k + 1 as int).drop_last() =~= links@.subrange(0, k as int));
            assert(links@.subrange(0, k + 1 as int).last() == links@[k as int]);
        }
        if links[k].to.0 == p.0 {
            proof {
                assert(links@[k as int].to == p);
            }
            count = count + 1;
        }
        k += 1;
    }
    proof {
        assert(links@.subrange(0, n as int) =~= links@);
    }
    count
}

/// Whether this pin is an exec input with two or more incoming links.
fn is_exec_offender(g: &BlueprintGraph, p: PinId) -> (r: bool)
    ensures
        r == spec_exec_offender(graph_t(*g), p),
{
    let is_exec = match pin_type(g, p) {
        Some(DataType::Exec) => true,
        _ => false,
    };
    if !is_exec {
        return false;
    }
    count_links_to(&g.links, p) >= 2
}

/// The exec input pin with the least id among those with several
/// incoming links, if any pin has several.
fn find_multi_exec(g: &BlueprintGraph) -> (r: Option<PinId>)
    ensures
        match r {
            Some(p) => spec_least_offender(graph_t(*g), p),
            None => forall|q: PinId| !spec_exec_offender(graph_t(*g), q),
        },
{
    let ghost gt = graph_t(*g);
    let n = g.links.len();
    let mut best: Option<PinId> = None;
    let mut a: usize = 0;
    while a < n
        invariant
            gt == graph_t(*g),
            n == g.links@.len(),
            a <= n,
            match best {
                Some(b) => spec_exec_offender(gt, b) && forall|k: int|
                    0 <= k < a && spec_exec_offender(gt, (#[trigger] g.links@[k]).to)
                        ==> b.0 <= g.links@[k].to.0,
                None => forall|k: int|
                    0 <= k < a ==> !spec_exec_offender(gt, (#[trigger] g.links@[k]).to),
            },
        decreases n - a,
    {
        let p = g.links[a].to;
        if is_exec_offender(g, p) {
            best = match best {
                None => Some(p),
                Some(b) => if p.0 < b.0 {
                    Some(p)
                } else {
                    Some(b)
                },
            };
        }
        a += 1;
    }
    proof {
        match best {
            Some(b) => {
                assert forall|q: PinId| spec_exec_offender(gt, q) implies b.0 <= q.0 by {
                    lemma_in_count_pos(gt.links, q);
                    let k = choose|k: int|
                        0 <= k < gt.links.len() && (#[trigger] gt.links[k]).to == q;
                    assert(g.links@[k].to == q);
                }
            },
            None => {
                assert forall|q: PinId| !spec_exec_offender(gt, q) by {
                    if spec_exec_offender(gt, q) {
                        lemma_in_count_pos(gt.links, q);
                        let k = choose|k: int|
                            0 <= k < gt.links.len() && (#[trigger] gt.links[k]).to == q;
                        assert(g.links@[k].to == q);
                    }
                }
            },
        }
    }
    best
}

/// Whether this node is a variable node naming a missing variable.
fn node_bad_var(g: &BlueprintGraph, n: &Node) -> (r: bool)
    ensures
        r == spec_node_bad_var(graph_t(*g), node_t(*n)),
{
    proof {
        lemma_prop_get_bridge(n.properties@, "name"@);
    }
    let is_var_node = match n.kind {
        BuiltinNodeKind::GetVariable | BuiltinNodeKind::SetVariable => true,
        _ => false,
    };
    if !is_var_node {
        return false;
    }
    match prop_find(&n.properties, "name") {
        Some(Value::String(vn)) => match var_type(g, vn.as_str()) {
            Some(_) => false,
            None => true,
        },
        _ => true,
    }
}

/// Checks the graph against every validation rule, in order; the first
/// failure is returned, exactly as `spec_first_error` states it.
pub fn validate(graph: &BlueprintGraph) -> (r: Result<(), CompileError>)
    ensures
        match r {
            Ok(()) => spec_first_error(graph_t(*graph)) is None,
            Err(e) => spec_first_error(graph_t(*graph)) == Some(e),
        },
{
    let ghost gt = graph_t(*graph);

    // Rule: variable names are unique.
    let nv = graph.variables.len();
    let mut j: usize = 0;
    while j < nv
        invariant
            gt == graph_t(*graph),
            nv == graph.variables@.len(),
            j <= nv,
            forall|a: int, b: int| 0 <= a < b < j
                ==> (#[trigger] gt.variables[a]).name != (#[trigger] gt.variables[b]).name,
        decreases nv - j,
    {
        let mut i: usize = 0;
        while i < j
            invariant
                gt == graph_t(*graph),
                nv == graph.variables@.len(),
                j < nv,
                i <= j,
                forall|a: int, b: int| 0 <= a < b < j
                    ==> (#[trigger] gt.variables[a]).name != (#[trigger] gt.variables[b]).name,
                forall|a: int| 0 <= a < i
                    ==> (#[trigger] gt.variables[a]).name != gt.variables[j as int].name,
            decreases j - i,
        {
            if str_eq(graph.variables[i].name.as_str(), graph.variables[j].name.as_str()) {
                proof {
                    assert(gt.variables[i as int] == var_t(graph.variables@[i as int]));
                    assert(gt.variables[j as int] == var_t(graph.variables@[j as int]));
                    assert(spec_dup_vars(gt));
                }
                return Err(CompileError::new(ValidationError::DuplicateVariable));
            }
            proof {
                assert(gt.variables[i as int] == var_t(graph.variables@[i as int]));
                assert(gt.variables[j as int] == var_t(graph.variables@[j as int]));
            }
            i += 1;
        }
        j += 1;
    }
    proof {
        assert(!spec_dup_vars(gt));
    }

    // Rules on each link: pins exist, same partition, output to input,
    // equal effective types.
    let nl = graph.links.len();
    let mut k: usize = 0;
    while k < nl
        invariant
            gt == graph_t(*graph),
            nl == graph.links@.len(),
            k <= nl,
            !spec_dup_vars(gt),
            forall|a: int| 0 <= a < k
                ==> spec_link_error(gt, #[trigger] gt.links[a]) is None,
        decreases nl - k,
    {
        if let Some(e) = link_error(graph, graph.links[k]) {
            proof {
                assert(gt.links[k as int] == graph.links@[k as int]);
                lemma_first_where_is(
                    gt.links,
                    |l: Link| spec_link_error(gt, l) is Some,
                    k as int,
                );
            }
            return Err(e);
        }
        proof {
            assert(gt.links[k as int] == graph.links@[k as int]);
        }
        k += 1;
    }
    proof {
        lemma_first_where_none(gt.links, |l: Link| spec_link_error(gt, l) is Some);
    }

    // Rule: an exec input pin has at most one incoming link.
    if let Some(p) = find_multi_exec(graph) {
        let node = match find_pin_entry(graph, p) {
            Some((i, _)) => Some(graph.nodes[i].id),
            None => None,
        };
        let err = match node {
            Some(id) => CompileError::new(ValidationError::MultipleExecInputs)
                .with_pin(p)
                .with_node(id),
            None => CompileError::new(ValidationError::MultipleExecInputs)
                .with_pin(p)
                .with_node(NodeId(0)),
        };
        proof {
            assert(exists|q: PinId| spec_least_offender(gt, q));
            let cp = choose|q: PinId| spec_least_offender(gt, q);
            assert(cp.0 <= p.0 && p.0 <= cp.0);
            assert(cp == p);
        }
        return Err(err);
    }
    proof {
        assert(spec_multi_exec_error(gt) is None) by {
            if exists|q: PinId| spec_least_offender(gt, q) {
                let q = choose|q: PinId| spec_least_offender(gt, q);
                assert(spec_exec_offender(gt, q));
            }
        }
    }

    // Rule: variable nodes name existing variables.
    let nn = graph.nodes.len();
    let mut m: usize = 0;
    while m < nn
        invariant
            gt == graph_t(*graph),
            nn == graph.nodes@.len(),
            m <= nn,
            !spec_dup_vars(gt),
            spec_first_link_error(gt) is None,
            spec_multi_exec_error(gt) is None,
            forall|a: int| 0 <= a < m ==> !spec_node_bad_var(gt, #[trigger] gt.nodes[a]),
        decreases nn - m,
    {
        if node_bad_var(graph, &graph.nodes[m]) {
            proof {
                assert(gt.nodes[m as int] == node_t(graph.nodes@[m as int]));
                lemma_first_where_is(
                    gt.nodes,
                    |n: NodeT| spec_node_bad_var(gt, n),
                    m as int,
                );
            }
            return Err(
                CompileError::new(ValidationError::UnknownVariable).with_node(graph.nodes[m].id),
            );
        }
        proof {
            assert(gt.nodes[m as int] == node_t(graph.nodes@[m as int]));
        }
        m += 1;
    }
    proof {
        lemma_first_where_none(gt.nodes, |n: NodeT| spec_node_bad_var(gt, n));
    }

    // Rule: the exec flow graph is acyclic.
    match crate::cycle::find_cycle_root(graph) {
        Some(id) => {
            Err(CompileError::new(ValidationError::ExecCycle).with_node(id))
        },
        None => {
            Ok(())
        },
    }
}

// ---------------------------------------------------------------------
// Executable lowering
// ---------------------------------------------------------------------

/// The concrete value a variable starts with.
fn default_value(v: &VariableDef) -> (r: Value)
    ensures
        value_t(r) == spec_default_value(var_t(*v)),
{
    match &v.default_value {
        Some(d) => clone_value(d),
        None => match v.data_type {
            DataType::Bool => Value::Bool(false),
            DataType::I32 => Value::I32(0),
            DataType::F32 => Value::F32(0),
            DataType::String => Value::String(String::new()),
            DataType::Exec | DataType::Unit => Value::Unit,
        },
    }
}

/// The id of the first node of this kind, in held order.
fn find_entry(g: &BlueprintGraph, kind: BuiltinNodeKind) -> (r: Option<NodeId>)
    ensures
        r == spec_entry(graph_t(*g), kind),
{
    let ghost gt = graph_t(*g);
    let n = g.nodes.len();
    let mut i: usize = 0;
    while i < n
        invariant
            gt == graph_t(*g),
            n == g.nodes@.len(),
            i <= n,
            forall|j: int| 0 <= j < i ==> (#[trigger] gt.nodes[j]).kind != kind,
        decreases n - i,
    {
        proof {
            assert(gt.nodes[i as int] == node_t(g.nodes@[i as int]));
        }
        if g.nodes[i].kind.eq_kind(kind) {
            proof {
                lemma_first_where_is(gt.nodes, |nn: NodeT| nn.kind == kind, i as int);
            }
            return Some(g.nodes[i].id);
        }
        i += 1;
    }
    proof {
        lemma_first_where_none(gt.nodes, |nn: NodeT| nn.kind == kind);
    }
    None
}

impl BuiltinNodeKind {
    /// Whether two node kinds are the same.
    pub fn eq_kind(self, other: BuiltinNodeKind) -> (r: bool)
        ensures
            r == (self == other),
    {
        self == other
    }
}

/// Lowers one node: clones its properties and rewrites each pin to its
/// effective type.
fn lower_node(g: &BlueprintGraph, n: &Node) -> (r: CompiledNode)
    ensures
        cnode_t(r) == spec_lower_node(graph_t(*g), node_t(*n)),
{
    let ghost gt = graph_t(*g);
    let ghost nt = node_t(*n);
    let np = n.pins.len();
    let mut pins: Vec<Pin> = Vec::new();
    let mut j: usize = 0;
    while j < np
        invariant
            gt == graph_t(*g),
            nt == node_t(*n),
            np == n.pins@.len(),
            j <= np,
            pins@.len() == j,
            forall|k: int| 0 <= k < j ==> pin_t(#[trigger] pins@[k]) == (PinT {
                id: nt.pins[k].id,
                name: nt.pins[k].name,
                direction: nt.pins[k].direction,
                data_type: t_effective_type(gt, nt, nt.pins[k]),
            }),
        decreases np - j,
    {
        let p = &n.pins[j];
        let dt = effective_type(g, n, p);
        proof {
            assert(nt.pins[j as int] == pin_t(n.pins@[j as int]));
        }
        pins.push(Pin { id: p.id, name: p.name.clone(), direction: p.direction, data_type: dt });
        j += 1;
    }
    let r = CompiledNode { id: n.id, kind: n.kind, properties: clone_props(&n.properties), pins };
    proof {
        assert(cnode_t(r).pins =~= spec_lower_node(gt, nt).pins);
        assert(cnode_t(r) =~~= spec_lower_node(gt, nt));
    }
    r
}

/// Compiles the graph: validates it, then lowers it into the flat form.
/// On success the result's ghost image is exactly `spec_lower`; on
/// failure the error is exactly the first one in rule order.
pub fn compile(graph: &BlueprintGraph) -> (r: Result<CompiledGraph, CompileError>)
    ensures
        match r {
            Ok(c) => spec_first_error(graph_t(*graph)) is None && cgraph_t(c) == spec_lower(
                graph_t(*graph),
            ),
            Err(e) => spec_first_error(graph_t(*graph)) == Some(e),
        },
{
    let ghost gt = graph_t(*graph);
    if let Err(e) = validate(graph) {
        return Err(e);
    }

    // Materialize variable defaults.
    let nv = graph.variables.len();
    let mut variables: Vec<(String, Value)> = Vec::new();
    let mut i: usize = 0;
    while i < nv
        invariant
            gt == graph_t(*graph),
            nv == graph.variables@.len(),
            i <= nv,
            variables@.len() == i,
            forall|k: int| 0 <= k < i ==> (#[trigger] variables@[k]).0@ == gt.variables[k].name
                && value_t(variables@[k].1) == spec_default_value(gt.variables[k]),
        decreases nv - i,
    {
        let v = &graph.variables[i];
        proof {
            assert(gt.variables[i as int] == var_t(graph.variables@[i as int]));
        }
        variables.push((v.name.clone(), default_value(v)));
        i += 1;
    }

    // Lower every node.
    let nn = graph.nodes.len();
    let mut nodes: Vec<CompiledNode> = Vec::new();
    let mut m: usize = 0;
    while m < nn
        invariant
            gt == graph_t(*graph),
            nn == graph.nodes@.len(),
            m <= nn,
            nodes@.len() == m,
            forall|k: int| 0 <= k < m ==> cnode_t(#[trigger] nodes@[k]) == spec_lower_node(
                gt,
                gt.nodes[k],
            ),
        decreases nn - m,
    {
        proof {
            assert(gt.nodes[m as int] == node_t(graph.nodes@[m as int]));
        }
        nodes.push(lower_node(graph, &graph.nodes[m]));
        m += 1;
    }

    // Classify every link into the two edge indices.
    let nl = graph.links.len();
    let mut exec_edges: Vec<(PinId, PinId)> = Vec::new();
    let mut data_edges: Vec<(PinId, PinId)> = Vec::new();
    let mut k: usize = 0;
    while k < nl
        invariant
            gt == graph_t(*graph),
            nl == graph.links@.len(),
            k <= nl,
            exec_edges@ == spec_edges(gt, k as int).0,
            data_edges@ == spec_edges(gt, k as int).1,
        decreases nl - k,
    {
        let l = graph.links[k];
        proof {
            assert(gt.links[k as int] == graph.links@[k as int]);
        }
        let is_exec = match pin_type(graph, l.from) {
            Some(DataType::Exec) => true,
            _ => false,
        };
        if is_exec {
            exec_edges.push((l.from, l.to));
        } else {
            data_edges.push((l.to, l.from));
        }
        k += 1;
    }

    let c = CompiledGraph {
        begin_play_entry: find_entry(graph, BuiltinNodeKind::BeginPlay),
        construction_entry: find_entry(graph, BuiltinNodeKind::ConstructionScript),
        tick_entry: find_entry(graph, BuiltinNodeKind::Tick),
        variables,
        nodes,
        exec_edges,
        data_edges,
    };
    proof {
        assert(cgraph_t(c).variables =~= spec_lower(gt).variables);
        assert(cgraph_t(c).nodes =~= spec_lower(gt).nodes);
        assert(cgraph_t(c) =~~= spec_lower(gt));
    }
    Ok(c)
}

/// Last pin of a lowered node with the given name, if any: the lookup
/// the interpreter uses on the flat pin table.
pub open spec fn cpin_lookup(n: CompiledNodeT, name: Seq<char>) -> Option<PinT> {
    match last_where(n.pins, |p: PinT| p.name == name) {
        Some(i) => Some(n.pins[i]),
        None => None,
    }
}

impl CompiledNode {
    /// The pin with this name: its id, direction and effective type.
    pub fn pin(&self, name: &str) -> (r: Option<(PinId, PinDirection, DataType)>)
        ensures
            r == match cpin_lookup(cnode_t(*self), name@) {
                Some(p) => Some((PinId(p.id), p.direction, p.data_type)),
                None => None::<(PinId, PinDirection, DataType)>,
            },
    {
        let ghost nt = cnode_t(*self);
        let n = self.pins.len();
        let mut i: usize = n;
        while i > 0
            invariant
                nt == cnode_t(*self),
                n == self.pins@.len(),
                i <= n,
                forall|j: int| i <= j < n ==> (#[trigger] nt.pins[j]).name != name@,
            decreases i,
        {
            i = i - 1;
            proof {
                assert(nt.pins[i as int] == pin_t(self.pins@[i as int]));
            }
            if str_eq(self.pins[i].name.as_str(), name) {
                proof {
                    lemma_last_where_is(nt.pins, |p: PinT| p.name == name@, i as int);
                }
                let p = &self.pins[i];
                return Some((p.id, p.direction, p.data_type));
            }
        }
        proof {
            lemma_last_where_none(nt.pins, |p: PinT| p.name == name@);
        }
        None
    }
}

} // verus!
