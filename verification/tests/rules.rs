//! The validation rules and the flow guarantees, each on a concrete
//! graph: every error kind on an input that earns it, determinism of
//! compilation, and the branch choosing exactly one successor.

use visual_scripting::{
    BlueprintGraph, BuiltinNodeKind, DataType, ExecutionEvent, GraphId, Interpreter, Link, Node,
    NodeId, PinId, Value, ValidationError, VariableDef, compile,
};

fn node_in(graph: &BlueprintGraph, id: NodeId) -> &Node {
    graph.nodes.iter().find(|n| n.id == id).unwrap()
}

fn pin_of(graph: &BlueprintGraph, id: NodeId, name: &str) -> PinId {
    node_in(graph, id).pin_named(name).unwrap()
}

#[test]
fn compile_is_deterministic() {
    let mut graph = BlueprintGraph::new(GraphId("test".to_string()));
    graph.variables.push(VariableDef {
        name: "n".to_string(),
        data_type: DataType::I32,
        default_value: None,
    });
    let begin_play = graph.add_node(Node::new(BuiltinNodeKind::BeginPlay));
    let mut print_node = Node::new(BuiltinNodeKind::Print);
    print_node.set_property_string("text", "x".to_string());
    let print = graph.add_node(print_node);
    graph.add_link(Link::exec(
        pin_of(&graph, begin_play, "then"),
        pin_of(&graph, print, "exec"),
    ));

    let first = compile(&graph);
    let second = compile(&graph);
    assert_eq!(first, second);

    // The same holds of a rejected graph.
    graph.add_link(Link::exec(PinId(999), PinId(1000)));
    let first = compile(&graph);
    let second = compile(&graph);
    assert_eq!(first, second);
    assert!(first.is_err());
}

#[test]
fn exec_cycle_is_rejected() {
    let mut graph = BlueprintGraph::new(GraphId("test".to_string()));
    let a = graph.add_node(Node::new(BuiltinNodeKind::Print));
    let b = graph.add_node(Node::new(BuiltinNodeKind::Print));
    graph.add_link(Link::exec(pin_of(&graph, a, "then"), pin_of(&graph, b, "exec")));
    graph.add_link(Link::exec(pin_of(&graph, b, "then"), pin_of(&graph, a, "exec")));

    let err = compile(&graph).unwrap_err();
    assert_eq!(err.kind, ValidationError::ExecCycle);
}

#[test]
fn input_to_input_link_is_rejected() {
    let mut graph = BlueprintGraph::new(GraphId("test".to_string()));
    let a = graph.add_node(Node::new(BuiltinNodeKind::Print));
    let b = graph.add_node(Node::new(BuiltinNodeKind::Print));
    graph.add_link(Link::exec(pin_of(&graph, a, "exec"), pin_of(&graph, b, "exec")));

    let err = compile(&graph).unwrap_err();
    assert_eq!(err.kind, ValidationError::DirectionMismatch);
}

#[test]
fn cross_partition_link_is_rejected() {
    let mut graph = BlueprintGraph::new(GraphId("test".to_string()));
    let a = graph.add_node(Node::new(BuiltinNodeKind::BeginPlay));
    let mut other = Node::new(BuiltinNodeKind::Print);
    other.graph = "ConstructionScript".to_string();
    let b = graph.add_node(other);
    graph.add_link(Link::exec(pin_of(&graph, a, "then"), pin_of(&graph, b, "exec")));

    let err = compile(&graph).unwrap_err();
    assert_eq!(err.kind, ValidationError::CrossGraphLink);
}

#[test]
fn unknown_pin_is_rejected() {
    let mut graph = BlueprintGraph::new(GraphId("test".to_string()));
    graph.add_node(Node::new(BuiltinNodeKind::BeginPlay));
    graph.add_link(Link::exec(PinId(999), PinId(1000)));

    let err = compile(&graph).unwrap_err();
    assert_eq!(err.kind, ValidationError::UnknownPin);
    assert_eq!(err.pin, Some(PinId(999)));
}

#[test]
fn type_mismatch_is_rejected() {
    let mut graph = BlueprintGraph::new(GraphId("test".to_string()));
    graph.variables.push(VariableDef {
        name: "message".to_string(),
        data_type: DataType::String,
        default_value: None,
    });
    let mut get_var = Node::new(BuiltinNodeKind::GetVariable);
    get_var.set_property_string("name", "message".to_string());
    let get_var_id = graph.add_node(get_var);
    let branch = graph.add_node(Node::new(BuiltinNodeKind::Branch));

    // A String-typed variable output wired into a Bool condition input.
    graph.add_link(Link::exec(
        pin_of(&graph, get_var_id, "value"),
        pin_of(&graph, branch, "condition"),
    ));

    let err = compile(&graph).unwrap_err();
    assert_eq!(err.kind, ValidationError::TypeMismatch);
}

#[test]
fn multiple_exec_inputs_are_rejected() {
    let mut graph = BlueprintGraph::new(GraphId("test".to_string()));
    let a = graph.add_node(Node::new(BuiltinNodeKind::BeginPlay));
    let b = graph.add_node(Node::new(BuiltinNodeKind::ConstructionScript));
    let c = graph.add_node(Node::new(BuiltinNodeKind::Print));

    // The construction entry lives in another partition by default, so
    // keep everything in one partition for this test.
    let idx = graph.nodes.iter().position(|n| n.id == b).unwrap();
    graph.nodes[idx].graph = "EventGraph".to_string();

    graph.add_link(Link::exec(pin_of(&graph, a, "then"), pin_of(&graph, c, "exec")));
    graph.add_link(Link::exec(pin_of(&graph, b, "then"), pin_of(&graph, c, "exec")));

    let err = compile(&graph).unwrap_err();
    assert_eq!(err.kind, ValidationError::MultipleExecInputs);
    assert_eq!(err.pin, Some(pin_of(&graph, c, "exec")));
}

#[test]
fn duplicate_variable_is_rejected() {
    let mut graph = BlueprintGraph::new(GraphId("test".to_string()));
    graph.variables.push(VariableDef {
        name: "x".to_string(),
        data_type: DataType::I32,
        default_value: None,
    });
    graph.variables.push(VariableDef {
        name: "x".to_string(),
        data_type: DataType::Bool,
        default_value: None,
    });

    let err = compile(&graph).unwrap_err();
    assert_eq!(err.kind, ValidationError::DuplicateVariable);
}

#[test]
fn unknown_variable_is_rejected() {
    let mut graph = BlueprintGraph::new(GraphId("test".to_string()));
    let mut get_var = Node::new(BuiltinNodeKind::GetVariable);
    get_var.set_property_string("name", "missing".to_string());
    let id = graph.add_node(get_var);

    let err = compile(&graph).unwrap_err();
    assert_eq!(err.kind, ValidationError::UnknownVariable);
    assert_eq!(err.node, Some(id));
}

#[test]
fn variable_node_without_name_is_rejected() {
    let mut graph = BlueprintGraph::new(GraphId("test".to_string()));
    graph.add_node(Node::new(BuiltinNodeKind::SetVariable));

    let err = compile(&graph).unwrap_err();
    assert_eq!(err.kind, ValidationError::UnknownVariable);
}

fn branch_graph(condition: bool) -> Vec<ExecutionEvent> {
    let mut graph = BlueprintGraph::new(GraphId("test".to_string()));
    let begin_play = graph.add_node(Node::new(BuiltinNodeKind::BeginPlay));
    let mut branch = Node::new(BuiltinNodeKind::Branch);
    branch.set_property_bool("condition", condition);
    let branch_id = graph.add_node(branch);
    let mut yes = Node::new(BuiltinNodeKind::Print);
    yes.set_property_string("text", "taken".to_string());
    let yes_id = graph.add_node(yes);
    let mut no = Node::new(BuiltinNodeKind::Print);
    no.set_property_string("text", "skipped".to_string());
    let no_id = graph.add_node(no);

    graph.add_link(Link::exec(
        pin_of(&graph, begin_play, "then"),
        pin_of(&graph, branch_id, "exec"),
    ));
    graph.add_link(Link::exec(
        pin_of(&graph, branch_id, "true"),
        pin_of(&graph, yes_id, "exec"),
    ));
    graph.add_link(Link::exec(
        pin_of(&graph, branch_id, "false"),
        pin_of(&graph, no_id, "exec"),
    ));

    let compiled = compile(&graph).expect("compile");
    let mut interpreter = Interpreter::new(compiled);
    interpreter.run_begin_play().events
}

#[test]
fn branch_true_takes_only_the_true_successor() {
    let events = branch_graph(true);
    assert!(events
        .iter()
        .any(|e| matches!(e, ExecutionEvent::Print(s) if s == "taken")));
    assert!(!events
        .iter()
        .any(|e| matches!(e, ExecutionEvent::Print(s) if s == "skipped")));
}

#[test]
fn branch_false_takes_only_the_false_successor() {
    let events = branch_graph(false);
    assert!(events
        .iter()
        .any(|e| matches!(e, ExecutionEvent::Print(s) if s == "skipped")));
    assert!(!events
        .iter()
        .any(|e| matches!(e, ExecutionEvent::Print(s) if s == "taken")));
}

#[test]
fn construction_chain_does_not_run_on_begin_play() {
    let mut graph = BlueprintGraph::new(GraphId("test".to_string()));
    let construction = graph.add_node(Node::new(BuiltinNodeKind::ConstructionScript));
    let mut print_node = Node::new(BuiltinNodeKind::Print);
    print_node.set_property_string("text", "Built".to_string());
    let print = graph.add_node(print_node);
    graph.add_link(Link::exec(
        pin_of(&graph, construction, "then"),
        pin_of(&graph, print, "exec"),
    ));

    let compiled = compile(&graph).expect("compile");
    let mut interpreter = Interpreter::new(compiled);

    let on_begin = interpreter.run_begin_play();
    assert!(on_begin.events.is_empty());

    let on_construction = interpreter.run_construction_script();
    assert!(on_construction
        .events
        .iter()
        .any(|e| matches!(e, ExecutionEvent::Print(s) if s == "Built")));
}

#[test]
fn set_variable_updates_the_snapshot() {
    let mut graph = BlueprintGraph::new(GraphId("test".to_string()));
    graph.variables.push(VariableDef {
        name: "counter".to_string(),
        data_type: DataType::I32,
        default_value: Some(Value::I32(1)),
    });
    let begin_play = graph.add_node(Node::new(BuiltinNodeKind::BeginPlay));
    let mut set_var = Node::new(BuiltinNodeKind::SetVariable);
    set_var.set_property_string("name", "counter".to_string());
    set_var.set_property_i32("value", 7);
    let set_id = graph.add_node(set_var);
    graph.add_link(Link::exec(
        pin_of(&graph, begin_play, "then"),
        pin_of(&graph, set_id, "exec"),
    ));

    let compiled = compile(&graph).expect("compile");
    let mut interpreter = Interpreter::new(compiled);
    let out = interpreter.run_begin_play();

    assert!(out
        .variables
        .iter()
        .any(|(k, v)| k == "counter" && matches!(v, Value::I32(7))));
}

#[test]
fn missing_entries_run_as_no_ops() {
    let graph = BlueprintGraph::new(GraphId("empty".to_string()));
    let compiled = compile(&graph).expect("compile");
    assert_eq!(compiled.begin_play_entry, None);
    assert_eq!(compiled.construction_entry, None);
    assert_eq!(compiled.tick_entry, None);

    let mut interpreter = Interpreter::new(compiled);
    assert!(interpreter.run_begin_play().events.is_empty());
    assert!(interpreter.run_construction_script().events.is_empty());
    assert!(interpreter.tick(0.0f32.to_bits()).events.is_empty());
}

#[test]
fn missing_defaults_materialize_as_zero_values() {
    let mut graph = BlueprintGraph::new(GraphId("test".to_string()));
    for (name, data_type) in [
        ("b", DataType::Bool),
        ("i", DataType::I32),
        ("f", DataType::F32),
        ("s", DataType::String),
        ("u", DataType::Unit),
        ("x", DataType::Exec),
    ] {
        graph.variables.push(VariableDef {
            name: name.to_string(),
            data_type,
            default_value: None,
        });
    }

    let compiled = compile(&graph).expect("compile");
    let get = |name: &str| {
        compiled
            .variables
            .iter()
            .find(|(k, _)| k == name)
            .map(|(_, v)| v.clone())
            .unwrap()
    };
    assert_eq!(get("b"), Value::Bool(false));
    assert_eq!(get("i"), Value::I32(0));
    assert_eq!(get("f"), Value::F32(0));
    assert_eq!(get("s"), Value::String(String::new()));
    assert_eq!(get("u"), Value::Unit);
    assert_eq!(get("x"), Value::Unit);
}
