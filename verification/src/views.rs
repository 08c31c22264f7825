//! Ghost images of the data model: the same shapes with every string
//! replaced by its character sequence. Contracts and laws are stated
//! over these images, so that two structures with the same content
//! are the same image, however their strings are allocated.

use vstd::prelude::*;

use crate::model::{
    BlueprintGraph, BuiltinNodeKind, DataType, GraphKind, Link, Node, NodeId, NodePosition, Pin,
    PinT, Value, VariableDef, pin_t,
};

verus! {

/// Ghost image of a value.
#[verifier::ext_equal]
pub ghost enum ValueT {
    BoolV(bool),
    I32V(i32),
    F32V(u32),
    StringV(Seq<char>),
    UnitV,
}

/// The scalar kind of a value image.
pub open spec fn value_t_type(v: ValueT) -> DataType {
    match v {
        ValueT::BoolV(_) => DataType::Bool,
        ValueT::I32V(_) => DataType::I32,
        ValueT::F32V(_) => DataType::F32,
        ValueT::StringV(_) => DataType::String,
        ValueT::UnitV => DataType::Unit,
    }
}

/// The ghost image of a value.
pub open spec fn value_t(v: Value) -> ValueT {
    match v {
        Value::Bool(b) => ValueT::BoolV(b),
        Value::I32(i) => ValueT::I32V(i),
        Value::F32(bits) => ValueT::F32V(bits),
        Value::String(s) => ValueT::StringV(s@),
        Value::Unit => ValueT::UnitV,
    }
}

/// The ghost image of a property list.
pub open spec fn props_t(props: Seq<(String, Value)>) -> Seq<(Seq<char>, ValueT)> {
    props.map_values(|p: (String, Value)| (p.0@, value_t(p.1)))
}

/// First property image with the given key, if any.
pub open spec fn prop_get_t(props: Seq<(Seq<char>, ValueT)>, key: Seq<char>) -> Option<ValueT>
    decreases props.len(),
{
    if props.len() == 0 {
        None
    } else if props[0].0 == key {
        Some(props[0].1)
    } else {
        prop_get_t(props.drop_first(), key)
    }
}

/// Ghost image of a variable definition.
#[verifier::ext_equal]
pub ghost struct VarT {
    pub name: Seq<char>,
    pub data_type: DataType,
    pub default_value: Option<ValueT>,
}

/// The ghost image of a variable definition.
pub open spec fn var_t(v: VariableDef) -> VarT {
    VarT {
        name: v.name@,
        data_type: v.data_type,
        default_value: match v.default_value {
            Some(d) => Some(value_t(d)),
            None => None,
        },
    }
}

/// Ghost image of a node.
#[verifier::ext_equal]
pub ghost struct NodeT {
    pub id: NodeId,
    pub kind: BuiltinNodeKind,
    pub graph: Seq<char>,
    pub position: NodePosition,
    pub pins: Seq<PinT>,
    pub properties: Seq<(Seq<char>, ValueT)>,
}

/// The ghost image of a node.
pub open spec fn node_t(n: Node) -> NodeT {
    NodeT {
        id: n.id,
        kind: n.kind,
        graph: n.graph@,
        position: n.position,
        pins: n.pins@.map_values(|p: Pin| pin_t(p)),
        properties: props_t(n.properties@),
    }
}

/// Ghost image of a whole blueprint graph.
#[verifier::ext_equal]
pub ghost struct GraphT {
    pub id: Seq<char>,
    pub graphs: Seq<(Seq<char>, GraphKind)>,
    pub nodes: Seq<NodeT>,
    pub links: Seq<Link>,
    pub variables: Seq<VarT>,
    pub next_node_id: u32,
    pub next_pin_id: u32,
}

/// The ghost image of a whole blueprint graph.
pub open spec fn graph_t(g: BlueprintGraph) -> GraphT {
    GraphT {
        id: g.id.0@,
        graphs: g.graphs@.map_values(
            |d: crate::model::GraphDef| (d.name@, d.kind),
        ),
        nodes: g.nodes@.map_values(|n: Node| node_t(n)),
        links: g.links@,
        variables: g.variables@.map_values(|v: VariableDef| var_t(v)),
        next_node_id: g.next_node_id,
        next_pin_id: g.next_pin_id,
    }
}

/// An observable interpreter event, as a ghost image.
#[verifier::ext_equal]
pub ghost enum EventT {
    EnterNode(NodeId),
    Print(Seq<char>),
}

} // verus!
