//! The embedded-script bridge: evaluates a script snippet in a fresh
//! engine that sees exactly four host functions — read a variable,
//! write a variable, read the current delta time, and emit a print —
//! against a snapshot of the variable store, and hands back the store,
//! the prints and any evaluation error.
//!
//! The engine's work is outside code behind trusted items; everything
//! around the calls — the snapshot, the bridge state, the merge — is
//! verified. Nothing is assumed about what a script computes.

use vstd::prelude::*;

use std::rc::Rc;

use rhai::{Dynamic, FLOAT, INT};

use crate::model::{Value, clone_props, clone_value, prop_find};
use crate::views::{ValueT, prop_get_t, props_t, value_t};

verus! {

/// The state a running script sees and mutates through the bridge:
/// the variable store and the prints collected so far.
#[derive(Clone)]
pub struct EvalState {
    pub store: Vec<(String, Value)>,
    pub prints: Vec<String>,
}

/// What one evaluation produced: the store as the script left it, the
/// prints in order, and the error text if evaluation failed.
pub struct ScriptOutcome {
    pub store: Vec<(String, Value)>,
    pub prints: Vec<String>,
    pub error: Option<String>,
}

impl EvalState {
    /// The value of a variable, or Unit where it is not set.
    pub fn read_var(&self, name: &str) -> (r: Value)
        ensures
            value_t(r) == match prop_get_t(props_t(self.store@), name@) {
                Some(v) => v,
                None => ValueT::UnitV,
            },
    {
        proof {
            crate::compile::lemma_prop_get_bridge(self.store@, name@);
        }
        match prop_find(&self.store, name) {
            Some(v) => clone_value(v),
            None => Value::Unit,
        }
    }

    /// Writes a variable, replacing an earlier value of the same name.
    pub fn write_var(&mut self, name: &str, value: Value)
        ensures
            final(self).prints == old(self).prints,
            props_t(final(self).store@) == crate::interpret::store_put(
                props_t(old(self).store@),
                name@,
                value_t(value),
            ),
    {
        crate::interpret::store_set(&mut self.store, name, value);
    }

    /// Records one print emitted by the script.
    pub fn note_print(&mut self, text: String)
        ensures
            final(self).store == old(self).store,
            final(self).prints@ == old(self).prints@.push(text),
    {
        self.prints.push(text);
    }
}

// The engine and value types of the script crate, declared so that
// signatures can carry them; their insides stay opaque.

#[verifier::external_type_specification]
#[verifier::external_body]
pub struct ExEngine(rhai::Engine);

#[verifier::external_type_specification]
#[verifier::external_body]
pub struct ExDynamic(rhai::Dynamic);

#[verifier::external_type_specification]
#[verifier::external_body]
#[verifier::reject_recursive_types(T)]
pub struct ExRefCell<T: ?Sized>(core::cell::RefCell<T>);

/// Relies on rhai::Engine::new: a fresh engine with no host functions
/// registered yet.
#[verifier::external_body]
fn engine_new() -> rhai::Engine {
    rhai::Engine::new()
}

/// Relies on core::cell::RefCell::new: a cell holding the given state.
#[verifier::external_body]
fn state_cell_new(state: EvalState) -> core::cell::RefCell<EvalState> {
    core::cell::RefCell::new(state)
}

/// Relies on core::cell::RefCell::borrow: a clone of the held state.
#[verifier::external_body]
fn state_cell_read(cell: &Rc<core::cell::RefCell<EvalState>>) -> EvalState {
    cell.borrow().clone()
}

/// Relies on rhai::Engine::register_fn and rhai::Engine::on_print:
/// scripts calling `print(text)` append the text to the shared print
/// list and nowhere else; the engine's own print hook is silenced.
#[verifier::external_body]
fn register_print(engine: &mut rhai::Engine, state: &Rc<core::cell::RefCell<EvalState>>) {
    let c = state.clone();
    engine.register_fn("print", move |text: &str| {
        c.borrow_mut().note_print(text.to_owned());
        text.to_owned()
    });
    engine.on_print(|_| ());
}

/// Relies on rhai::Engine::register_fn: scripts calling `get_var(name)`
/// read the shared store, Unit mapping to the engine's unit value.
#[verifier::external_body]
fn register_get_var(engine: &mut rhai::Engine, state: &Rc<core::cell::RefCell<EvalState>>) {
    let c = state.clone();
    engine.register_fn("get_var", move |name: &str| match c.borrow().read_var(name) {
        Value::Bool(b) => Dynamic::from(b),
        Value::I32(i) => Dynamic::from(INT::from(i)),
        Value::F32(bits) => Dynamic::from(FLOAT::from_bits(bits)),
        Value::String(s) => Dynamic::from(s),
        Value::Unit => Dynamic::UNIT,
    });
}

/// Relies on rhai::Engine::register_fn: scripts calling
/// `set_var(name, value)` write the shared store; a value of a kind the
/// store cannot hold, or an integer out of range, is ignored.
#[verifier::external_body]
fn register_set_var(engine: &mut rhai::Engine, state: &Rc<core::cell::RefCell<EvalState>>) {
    let c = state.clone();
    engine.register_fn("set_var", move |n: &str, v: Dynamic| {
        let x = if v.is_unit() { Some(Value::Unit) }
        else if v.is::<bool>() { Some(Value::Bool(v.clone_cast())) }
        else if v.is::<INT>() { i32::try_from(v.clone_cast::<INT>()).ok().map(Value::I32) }
        else if v.is::<FLOAT>() { Some(Value::F32(v.clone_cast::<FLOAT>().to_bits())) }
        else if v.is::<String>() { Some(Value::String(v.clone_cast())) }
        else { None };
        if let Some(x) = x { c.borrow_mut().write_var(n, x); }
    });
}

/// Relies on rhai::Engine::register_fn: scripts calling `dt()` read the
/// reserved delta-time slot of the shared store, zero where unset.
#[verifier::external_body]
fn register_dt(engine: &mut rhai::Engine, state: &Rc<core::cell::RefCell<EvalState>>) {
    let c = state.clone();
    engine.register_fn("dt", move || match c.borrow().read_var("__dt") {
        Value::F32(bits) => FLOAT::from_bits(bits),
        _ => FLOAT::from_bits(0),
    });
}

/// Relies on rhai::Engine::eval: runs the snippet to completion in this
/// engine, returning the error text if evaluation failed.
#[verifier::external_body]
fn engine_eval(engine: &rhai::Engine, code: &str) -> Option<String> {
    match engine.eval::<Dynamic>(code) {
        Ok(_) => None,
        Err(err) => Some(err.to_string()),
    }
}

/// Evaluates a script snippet against a snapshot of the given store.
/// A fresh engine is built per call; the bridge shares the state with
/// the engine's four host functions, and what the script did to it is
/// read back once evaluation ends. Nothing is promised of the outcome:
/// the caller handles every possible store, print list and error.
pub(crate) fn run_script(code: &str, store: &Vec<(String, Value)>) -> ScriptOutcome {
    let state = EvalState { store: clone_props(store), prints: Vec::new() };
    let cell = Rc::new(state_cell_new(state));
    let mut engine = engine_new();
    register_print(&mut engine, &cell);
    register_get_var(&mut engine, &cell);
    register_set_var(&mut engine, &cell);
    register_dt(&mut engine, &cell);
    let error = engine_eval(&engine, code);
    let after = state_cell_read(&cell);
    ScriptOutcome { store: after.store, prints: after.prints, error }
}

} // verus!
