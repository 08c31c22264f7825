//! The end-to-end flows: author a graph, compile it, run it.

use visual_scripting::{
    BlueprintGraph, BuiltinNodeKind, DataType, ExecutionEvent, GraphId, Interpreter, Link, Node,
    NodeId, PinId, Value, VariableDef, compile,
};

fn node_in(graph: &BlueprintGraph, id: NodeId) -> &Node {
    graph.nodes.iter().find(|n| n.id == id).unwrap()
}

fn pin_of(graph: &BlueprintGraph, id: NodeId, name: &str) -> PinId {
    node_in(graph, id).pin_named(name).unwrap()
}

#[test]
fn begin_play_prints_hello() {
    let mut graph = BlueprintGraph::new(GraphId("test".to_string()));

    let begin_play = graph.add_node(Node::new(BuiltinNodeKind::BeginPlay));
    let mut print_node = Node::new(BuiltinNodeKind::Print);
    print_node.set_property_string("text", "Hello".to_string());
    let print = graph.add_node(print_node);

    let begin_then = pin_of(&graph, begin_play, "then");
    let print_exec_in = pin_of(&graph, print, "exec");
    graph.add_link(Link::exec(begin_then, print_exec_in));

    let compiled = compile(&graph).expect("compile");
    let mut interpreter = Interpreter::new(compiled);
    let out = interpreter.run_begin_play();

    assert!(out
        .events
        .iter()
        .any(|e| matches!(e, ExecutionEvent::Print(s) if s == "Hello")));
}

#[test]
fn construction_script_runs() {
    let mut graph = BlueprintGraph::new(GraphId("test".to_string()));

    let construction = graph.add_node(Node::new(BuiltinNodeKind::ConstructionScript));
    let mut print_node = Node::new(BuiltinNodeKind::Print);
    print_node.set_property_string("text", "Built".to_string());
    let print = graph.add_node(print_node);

    let then_pin = pin_of(&graph, construction, "then");
    let print_exec_in = pin_of(&graph, print, "exec");
    graph.add_link(Link::exec(then_pin, print_exec_in));

    let compiled = compile(&graph).expect("compile");
    let mut interpreter = Interpreter::new(compiled);
    let out = interpreter.run_construction_script();

    assert!(out
        .events
        .iter()
        .any(|e| matches!(e, ExecutionEvent::Print(s) if s == "Built")));
}

#[test]
fn variable_connects_to_print() {
    let mut graph = BlueprintGraph::new(GraphId("test".to_string()));

    graph.variables.push(VariableDef {
        name: "message".to_string(),
        data_type: DataType::String,
        default_value: Some(Value::String("Hello from variable!".to_string())),
    });

    let begin_play = graph.add_node(Node::new(BuiltinNodeKind::BeginPlay));

    let mut get_var = Node::new(BuiltinNodeKind::GetVariable);
    get_var.set_property_string("name", "message".to_string());
    let get_var_id = graph.add_node(get_var);

    let print = graph.add_node(Node::new(BuiltinNodeKind::Print));

    let begin_then = pin_of(&graph, begin_play, "then");
    let print_exec = pin_of(&graph, print, "exec");
    graph.add_link(Link::exec(begin_then, print_exec));

    let var_value_out = pin_of(&graph, get_var_id, "value");
    let print_text_in = pin_of(&graph, print, "text");
    graph.add_link(Link::exec(var_value_out, print_text_in));

    let compiled = compile(&graph).expect("compile should succeed with dynamic variable typing");
    let mut interpreter = Interpreter::new(compiled);
    let out = interpreter.run_begin_play();

    assert!(out
        .events
        .iter()
        .any(|e| matches!(e, ExecutionEvent::Print(s) if s == "Hello from variable!")));
}

#[test]
fn rhai_script_prints() {
    let mut graph = BlueprintGraph::new(GraphId("test".to_string()));

    let begin_play = graph.add_node(Node::new(BuiltinNodeKind::BeginPlay));

    let mut script = Node::new(BuiltinNodeKind::RhaiScript);
    script.set_property_string("code", "print(\"Hello from Rhai\");".to_string());
    let script_id = graph.add_node(script);

    let begin_then = pin_of(&graph, begin_play, "then");
    let script_exec = pin_of(&graph, script_id, "exec");
    graph.add_link(Link::exec(begin_then, script_exec));

    let compiled = compile(&graph).expect("compile");
    let mut interpreter = Interpreter::new(compiled);
    let out = interpreter.run_begin_play();

    assert!(out
        .events
        .iter()
        .any(|e| matches!(e, ExecutionEvent::Print(s) if s == "Hello from Rhai")));
}

#[test]
fn script_bridge_reads_and_writes_variables() {
    let mut graph = BlueprintGraph::new(GraphId("test".to_string()));

    graph.variables.push(VariableDef {
        name: "message".to_string(),
        data_type: DataType::String,
        default_value: Some(Value::String("before".to_string())),
    });

    let begin_play = graph.add_node(Node::new(BuiltinNodeKind::BeginPlay));

    let mut script = Node::new(BuiltinNodeKind::RhaiScript);
    script.set_property_string(
        "code",
        "print(get_var(\"message\")); set_var(\"message\", \"after\");".to_string(),
    );
    let script_id = graph.add_node(script);

    let mut get_var = Node::new(BuiltinNodeKind::GetVariable);
    get_var.set_property_string("name", "message".to_string());
    let get_var_id = graph.add_node(get_var);

    let print = graph.add_node(Node::new(BuiltinNodeKind::Print));

    graph.add_link(Link::exec(
        pin_of(&graph, begin_play, "then"),
        pin_of(&graph, script_id, "exec"),
    ));
    graph.add_link(Link::exec(
        pin_of(&graph, script_id, "then"),
        pin_of(&graph, print, "exec"),
    ));
    graph.add_link(Link::exec(
        pin_of(&graph, get_var_id, "value"),
        pin_of(&graph, print, "text"),
    ));

    let compiled = compile(&graph).expect("compile");
    let mut interpreter = Interpreter::new(compiled);
    let out = interpreter.run_begin_play();

    // The script saw the old value, and its write is visible to the
    // native print that follows it on the chain.
    assert!(out
        .events
        .iter()
        .any(|e| matches!(e, ExecutionEvent::Print(s) if s == "before")));
    assert!(out
        .events
        .iter()
        .any(|e| matches!(e, ExecutionEvent::Print(s) if s == "after")));
    assert!(out
        .variables
        .iter()
        .any(|(k, v)| k == "message" && matches!(v, Value::String(s) if s == "after")));
}

#[test]
fn tick_exposes_delta_time_to_scripts() {
    let mut graph = BlueprintGraph::new(GraphId("test".to_string()));

    let tick = graph.add_node(Node::new(BuiltinNodeKind::Tick));

    let mut script = Node::new(BuiltinNodeKind::RhaiScript);
    script.set_property_string("code", "print(\"dt is \" + dt().to_string());".to_string());
    let script_id = graph.add_node(script);

    graph.add_link(Link::exec(
        pin_of(&graph, tick, "then"),
        pin_of(&graph, script_id, "exec"),
    ));

    let compiled = compile(&graph).expect("compile");
    let mut interpreter = Interpreter::new(compiled);
    let out = interpreter.tick(0.25f32.to_bits());

    assert!(out
        .events
        .iter()
        .any(|e| matches!(e, ExecutionEvent::Print(s) if s == "dt is 0.25")));
}
