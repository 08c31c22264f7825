//! A visual-scripting graph language: a typed node/pin/link data model,
//! a validating compiler that lowers a graph into a flat executable form,
//! and an interpreter that runs that form.

pub mod compile;
pub mod cycle;
pub mod error;
pub mod interpret;
pub mod laws;
pub mod model;
pub mod nodes;
pub mod runtime;
pub mod script;
pub mod serial;
pub mod seq_search;
pub mod views;

pub use compile::{CompiledGraph, CompiledNode, compile, validate};

pub use error::{CompileError, ValidationError};
pub use interpret::{ExecutionEvent, Interpreter, InterpreterOutput};
pub use nodes::{
    BeginPlayNode, BranchNode, ConstructionScriptNode, GetActorByNameNode, GetActorNameNode,
    GetActorTransformNode, GetVariableNode, NodeCategory, NodeDefinition, PinDef, PrintNode,
    PropertyDef, RhaiScriptNode, SelfNode, SetActorTransformNode, SetVariableNode, SpawnActorNode,
    TickNode, pin_color_for_type,
};
pub use runtime::{BranchRuntime, PassthroughRuntime, PrintRuntime, RhaiScriptRuntime, SetVariableRuntime};
pub use script::ScriptOutcome;
pub use serial::{deserialize, serialize};
pub use model::{
    BlueprintGraph, BuiltinNodeKind, DataType, GraphDef, GraphId, GraphKind, Link, Node, NodeId,
    NodePosition, Pin, PinDirection, PinId, Value, VariableDef,
};

