//! The persisted text format: round-tripping reproduces the graph, and
//! whatever it reproduces compiles to the same result.

use visual_scripting::{
    BlueprintGraph, BuiltinNodeKind, DataType, GraphId, GraphKind, Link, Node, NodeId, PinId,
    Value, VariableDef, compile, deserialize, serialize,
};

fn pin_of(graph: &BlueprintGraph, id: NodeId, name: &str) -> PinId {
    graph
        .nodes
        .iter()
        .find(|n| n.id == id)
        .unwrap()
        .pin_named(name)
        .unwrap()
}

fn rich_graph() -> BlueprintGraph {
    let mut graph = BlueprintGraph::new(GraphId("sample".to_string()));
    graph.add_graph("Helpers".to_string(), GraphKind::Function);
    graph.variables.push(VariableDef {
        name: "message".to_string(),
        data_type: DataType::String,
        default_value: Some(Value::String("Hello from variable!".to_string())),
    });
    graph.variables.push(VariableDef {
        name: "count".to_string(),
        data_type: DataType::I32,
        default_value: Some(Value::I32(-7)),
    });
    graph.variables.push(VariableDef {
        name: "speed".to_string(),
        data_type: DataType::F32,
        default_value: Some(Value::F32(1.5f32.to_bits())),
    });
    graph.variables.push(VariableDef {
        name: "armed".to_string(),
        data_type: DataType::Bool,
        default_value: None,
    });

    let begin_play = graph.add_node(Node::new(BuiltinNodeKind::BeginPlay));
    let mut print_node = Node::new(BuiltinNodeKind::Print);
    print_node.set_property_string("text", "héllo ✓ with unicode".to_string());
    let print = graph.add_node(print_node);
    let mut branch = Node::new(BuiltinNodeKind::Branch);
    branch.set_property_bool("condition", true);
    let branch_id = graph.add_node(branch);
    let script = graph.add_node(Node::new(BuiltinNodeKind::RhaiScript));
    let _ = script;

    graph.add_link(Link::exec(
        pin_of(&graph, begin_play, "then"),
        pin_of(&graph, branch_id, "exec"),
    ));
    graph.add_link(Link::exec(
        pin_of(&graph, branch_id, "true"),
        pin_of(&graph, print, "exec"),
    ));
    graph
}

#[test]
fn graph_round_trip_reproduces_the_graph() {
    let graph = rich_graph();
    let text = serialize(&graph);
    let parsed = deserialize(text.as_str()).expect("a serialized graph reads back");
    assert_eq!(parsed, graph);
}

#[test]
fn round_trip_compiles_identically() {
    let graph = rich_graph();
    let text = serialize(&graph);
    let parsed = deserialize(text.as_str()).expect("a serialized graph reads back");
    assert_eq!(compile(&parsed), compile(&graph));
}

#[test]
fn script_compiles_from_json() {
    // The persisted payload of an authored graph parses and compiles.
    let mut graph = BlueprintGraph::new(GraphId("test".to_string()));
    let begin = graph.add_node(Node::new(BuiltinNodeKind::BeginPlay));
    let mut print_node = Node::new(BuiltinNodeKind::Print);
    print_node.set_property_string("text", "Hello".to_string());
    let print = graph.add_node(print_node);
    graph.add_link(Link::exec(
        pin_of(&graph, begin, "then"),
        pin_of(&graph, print, "exec"),
    ));

    let payload = serialize(&graph);
    let parsed = deserialize(payload.as_str()).expect("payload parses");
    assert!(compile(&parsed).is_ok());
}

#[test]
fn malformed_payloads_are_rejected() {
    assert!(deserialize("").is_none());
    assert!(deserialize("not a graph").is_none());
    assert!(deserialize("00000001").is_none());

    let graph = rich_graph();
    let text = serialize(&graph);
    // Truncations and trailing garbage are rejected.
    let truncated: String = text.chars().take(text.chars().count() - 3).collect();
    assert!(deserialize(truncated.as_str()).is_none());
    let mut extended = text.clone();
    extended.push('x');
    assert!(deserialize(extended.as_str()).is_none());
}

#[test]
fn empty_graph_round_trips() {
    let graph = BlueprintGraph::new(GraphId(String::new()));
    let text = serialize(&graph);
    let parsed = deserialize(text.as_str()).expect("parses");
    assert_eq!(parsed, graph);
}
