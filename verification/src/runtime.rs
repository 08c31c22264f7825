//! Runtime dispatch: one handler per node kind, each meeting the
//! single-step contract `spec_step`, selected by a flat match on the
//! kind. Kinds with no implemented side effects pass through.

use vstd::prelude::*;

use crate::compile::{CompiledNode, cgraph_t, cnode_t, lemma_prop_get_bridge};
use crate::interpret::{
    ExecutionEvent, Interpreter, InterpreterOutput, OutcomeT, c_find_node, events_t,
    lemma_events_t_push, no_outcome, outcome_t, spec_step,
};
use crate::model::{BuiltinNodeKind, DataType, NodeId, PinId, Value, clone_value, prop_find};
use crate::script::run_script;
use crate::views::{EventT, props_t};

verus! {

/// Default behavior: follow the `then` exec output if it exists.
pub struct PassthroughRuntime;

/// Emits its text input, literal property or nothing as a print event.
pub struct PrintRuntime;

/// Follows one of two exec outputs by a boolean condition.
pub struct BranchRuntime;

/// Writes a value into the variable store.
pub struct SetVariableRuntime;

/// Evaluates an embedded script snippet against the store.
pub struct RhaiScriptRuntime;

impl PassthroughRuntime {
    /// Continue via `then`, touching nothing.
    pub fn execute(
        &self,
        interpreter: &mut Interpreter,
        out: &mut InterpreterOutput,
        node_id: NodeId,
        node: &CompiledNode,
    ) -> (r: Option<PinId>)
        requires
            c_find_node(cgraph_t(old(interpreter).compiled), node_id) == Some(cnode_t(*node)),
            !(cnode_t(*node).kind == BuiltinNodeKind::Print),
            !(cnode_t(*node).kind == BuiltinNodeKind::Branch),
            !(cnode_t(*node).kind == BuiltinNodeKind::SetVariable),
            !(cnode_t(*node).kind == BuiltinNodeKind::RhaiScript),
        ensures
            final(interpreter).compiled == old(interpreter).compiled,
            final(out).variables == old(out).variables,
            ({
                let st = spec_step(
                    cgraph_t(old(interpreter).compiled),
                    props_t(old(interpreter).variables@),
                    node_id,
                    cnode_t(*node),
                    no_outcome(),
                );
                &&& events_t(final(out).events@) == events_t(old(out).events@) + st.events
                &&& props_t(final(interpreter).variables@) == st.store
                &&& r == st.next
            }),
    {
        proof {
            assert(events_t(out.events@) =~= events_t(out.events@) + Seq::<EventT>::empty());
        }
        interpreter.next_exec(node_id, "then")
    }
}

impl PrintRuntime {
    /// Read the `text` input — linked value, else literal property,
    /// else the empty string — emit it, continue via `then`.
    pub fn execute(
        &self,
        interpreter: &mut Interpreter,
        out: &mut InterpreterOutput,
        node_id: NodeId,
        node: &CompiledNode,
    ) -> (r: Option<PinId>)
        requires
            c_find_node(cgraph_t(old(interpreter).compiled), node_id) == Some(cnode_t(*node)),
            cnode_t(*node).kind == BuiltinNodeKind::Print,
        ensures
            final(interpreter).compiled == old(interpreter).compiled,
            final(out).variables == old(out).variables,
            ({
                let st = spec_step(
                    cgraph_t(old(interpreter).compiled),
                    props_t(old(interpreter).variables@),
                    node_id,
                    cnode_t(*node),
                    no_outcome(),
                );
                &&& events_t(final(out).events@) == events_t(old(out).events@) + st.events
                &&& props_t(final(interpreter).variables@) == st.store
                &&& r == st.next
            }),
    {
        proof {
            lemma_prop_get_bridge(node.properties@, "text"@);
        }
        let text = match interpreter.read_string_input(node_id, "text") {
            Some(s) => s,
            None => match prop_find(&node.properties, "text") {
                Some(Value::String(s)) => s.clone(),
                _ => String::new(),
            },
        };
        let ghost evs0 = out.events@;
        out.events.push(ExecutionEvent::Print(text));
        proof {
            lemma_events_t_push(evs0, ExecutionEvent::Print(text));
            assert(events_t(out.events@) =~= events_t(evs0) + seq![EventT::Print(text@)]);
        }
        interpreter.next_exec(node_id, "then")
    }
}

impl BranchRuntime {
    /// Read the `condition` input — linked value, else literal
    /// property, else false — and continue via `true` or `false`.
    pub fn execute(
        &self,
        interpreter: &mut Interpreter,
        out: &mut InterpreterOutput,
        node_id: NodeId,
        node: &CompiledNode,
    ) -> (r: Option<PinId>)
        requires
            c_find_node(cgraph_t(old(interpreter).compiled), node_id) == Some(cnode_t(*node)),
            cnode_t(*node).kind == BuiltinNodeKind::Branch,
        ensures
            final(interpreter).compiled == old(interpreter).compiled,
            final(out).variables == old(out).variables,
            ({
                let st = spec_step(
                    cgraph_t(old(interpreter).compiled),
                    props_t(old(interpreter).variables@),
                    node_id,
                    cnode_t(*node),
                    no_outcome(),
                );
                &&& events_t(final(out).events@) == events_t(old(out).events@) + st.events
                &&& props_t(final(interpreter).variables@) == st.store
                &&& r == st.next
            }),
    {
        proof {
            lemma_prop_get_bridge(node.properties@, "condition"@);
            assert(events_t(out.events@) =~= events_t(out.events@) + Seq::<EventT>::empty());
        }
        let condition = match interpreter.read_bool_input(node_id, "condition") {
            Some(b) => b,
            None => match prop_find(&node.properties, "condition") {
                Some(Value::Bool(b)) => *b,
                _ => false,
            },
        };
        if condition {
            interpreter.next_exec(node_id, "true")
        } else {
            interpreter.next_exec(node_id, "false")
        }
    }
}

impl SetVariableRuntime {
    /// Read the `value` input — linked value, else literal property
    /// filtered to the pin's effective type, else Unit — and write it
    /// under the node's `name` property; continue via `then`.
    pub fn execute(
        &self,
        interpreter: &mut Interpreter,
        out: &mut InterpreterOutput,
        node_id: NodeId,
        node: &CompiledNode,
    ) -> (r: Option<PinId>)
        requires
            c_find_node(cgraph_t(old(interpreter).compiled), node_id) == Some(cnode_t(*node)),
            cnode_t(*node).kind == BuiltinNodeKind::SetVariable,
        ensures
            final(interpreter).compiled == old(interpreter).compiled,
            final(out).variables == old(out).variables,
            ({
                let st = spec_step(
                    cgraph_t(old(interpreter).compiled),
                    props_t(old(interpreter).variables@),
                    node_id,
                    cnode_t(*node),
                    no_outcome(),
                );
                &&& events_t(final(out).events@) == events_t(old(out).events@) + st.events
                &&& props_t(final(interpreter).variables@) == st.store
                &&& r == st.next
            }),
    {
        proof {
            lemma_prop_get_bridge(node.properties@, "name"@);
            lemma_prop_get_bridge(node.properties@, "value"@);
            assert(events_t(out.events@) =~= events_t(out.events@) + Seq::<EventT>::empty());
        }
        let name = match prop_find(&node.properties, "name") {
            Some(Value::String(s)) => s.clone(),
            _ => "var".to_owned(),
        };
        let expected_ty = match interpreter.input_pin_type(node_id, "value") {
            Some(t) => t,
            None => DataType::Unit,
        };
        let value = match interpreter.read_value_input(node_id, "value") {
            Some(v) => v,
            None => match prop_find(&node.properties, "value") {
                Some(v) => if v.data_type().eq_kind(expected_ty) {
                    clone_value(v)
                } else {
                    Value::Unit
                },
                None => Value::Unit,
            },
        };
        interpreter.set_variable(name.as_str(), value);
        interpreter.next_exec(node_id, "then")
    }
}

impl RhaiScriptRuntime {
    /// Read the `code` input — linked value, else literal property,
    /// else the empty string — evaluate it against the store, merge the
    /// outcome back, and continue via `then`. Nothing is assumed of the
    /// script: the contract holds for some outcome.
    pub fn execute(
        &self,
        interpreter: &mut Interpreter,
        out: &mut InterpreterOutput,
        node_id: NodeId,
        node: &CompiledNode,
    ) -> (r: Option<PinId>)
        requires
            c_find_node(cgraph_t(old(interpreter).compiled), node_id) == Some(cnode_t(*node)),
            cnode_t(*node).kind == BuiltinNodeKind::RhaiScript,
        ensures
            final(interpreter).compiled == old(interpreter).compiled,
            final(out).variables == old(out).variables,
            exists|o: OutcomeT| #[trigger] crate::interpret::spec_step_obs(
                cgraph_t(old(interpreter).compiled),
                props_t(old(interpreter).variables@),
                node_id,
                cnode_t(*node),
                o,
                events_t(old(out).events@),
                events_t(final(out).events@),
                props_t(final(interpreter).variables@),
                r,
            ),
    {
        proof {
            lemma_prop_get_bridge(node.properties@, "code"@);
        }
        let code = match interpreter.read_string_input(node_id, "code") {
            Some(s) => s,
            None => match prop_find(&node.properties, "code") {
                Some(Value::String(s)) => s.clone(),
                _ => String::new(),
            },
        };
        let outcome = run_script(code.as_str(), &interpreter.variables);
        let ghost o = outcome_t(outcome);
        interpreter.variables = outcome.store;

        let ghost evs0 = out.events@;
        let np = outcome.prints.len();
        let mut i: usize = 0;
        while i < np
            invariant
                np == outcome.prints@.len(),
                i <= np,
                out.variables == old(out).variables,
                events_t(out.events@) =~= events_t(evs0) + outcome.prints@.subrange(
                    0,
                    i as int,
                ).map_values(|p: String| EventT::Print(p@)),
            decreases np - i,
        {
            let ghost evs_i = out.events@;
            out.events.push(ExecutionEvent::Print(outcome.prints[i].clone()));
            proof {
                lemma_events_t_push(evs_i, ExecutionEvent::Print(outcome.prints@[i as int]));
                assert(outcome.prints@.subrange(0, i + 1 as int) =~= outcome.prints@.subrange(
                    0,
                    i as int,
                ).push(outcome.prints@[i as int]));
                assert(events_t(out.events@) =~= events_t(evs0) + outcome.prints@.subrange(
                    0,
                    i + 1 as int,
                ).map_values(|p: String| EventT::Print(p@)));
            }
            i += 1;
        }
        proof {
            assert(outcome.prints@.subrange(0, np as int) =~= outcome.prints@);
        }
        match &outcome.error {
            Some(err) => {
                let mut message = "[Rhai error] ".to_owned();
                message.append(err.as_str());
                let ghost evs_e = out.events@;
                out.events.push(ExecutionEvent::Print(message));
                proof {
                    lemma_events_t_push(evs_e, ExecutionEvent::Print(message));
                    assert(events_t(out.events@) =~= events_t(evs0) + crate::interpret::script_events(
                        o,
                    ));
                }
            },
            None => {
                proof {
                    assert(events_t(out.events@) =~= events_t(evs0) + crate::interpret::script_events(
                        o,
                    ));
                }
            },
        }
        let r = interpreter.next_exec(node_id, "then");
        proof {
            assert(crate::interpret::spec_step_obs(
                cgraph_t(old(interpreter).compiled),
                props_t(old(interpreter).variables@),
                node_id,
                cnode_t(*node),
                o,
                events_t(old(out).events@),
                events_t(out.events@),
                props_t(interpreter.variables@),
                r,
            ));
        }
        r
    }
}

/// Selects and runs the handler for this node's kind.
pub(crate) fn step_node(
    interpreter: &mut Interpreter,
    out: &mut InterpreterOutput,
    node_id: NodeId,
    node: &CompiledNode,
) -> (r: Option<PinId>)
    requires
        c_find_node(cgraph_t(old(interpreter).compiled), node_id) == Some(cnode_t(*node)),
    ensures
        final(interpreter).compiled == old(interpreter).compiled,
        final(out).variables == old(out).variables,
        cnode_t(*node).kind != BuiltinNodeKind::RhaiScript ==> ({
            let st = spec_step(
                cgraph_t(old(interpreter).compiled),
                props_t(old(interpreter).variables@),
                node_id,
                cnode_t(*node),
                no_outcome(),
            );
            &&& events_t(final(out).events@) == events_t(old(out).events@) + st.events
            &&& props_t(final(interpreter).variables@) == st.store
            &&& r == st.next
        }),
        cnode_t(*node).kind == BuiltinNodeKind::RhaiScript ==> exists|o: OutcomeT|
            #[trigger] crate::interpret::spec_step_obs(
                cgraph_t(old(interpreter).compiled),
                props_t(old(interpreter).variables@),
                node_id,
                cnode_t(*node),
                o,
                events_t(old(out).events@),
                events_t(final(out).events@),
                props_t(final(interpreter).variables@),
                r,
            ),
{
    match node.kind {
        BuiltinNodeKind::Print => (PrintRuntime).execute(interpreter, out, node_id, node),
        BuiltinNodeKind::Branch => (BranchRuntime).execute(interpreter, out, node_id, node),
        BuiltinNodeKind::SetVariable => (SetVariableRuntime).execute(
            interpreter,
            out,
            node_id,
            node,
        ),
        BuiltinNodeKind::RhaiScript => (RhaiScriptRuntime).execute(
            interpreter,
            out,
            node_id,
            node,
        ),
        _ => (PassthroughRuntime).execute(interpreter, out, node_id, node),
    }
}

} // verus!
