//! Compile-time failures: one kind per validation rule, with the
//! offending node and pin where one is known.

use vstd::prelude::*;

use crate::model::{NodeId, PinId};

verus! {

/// The validation rule that failed.
#[derive(Debug, Copy, Clone, PartialEq, Eq)]
pub enum ValidationError {
    /// A link refers to a pin that no node owns.
    UnknownPin,
    /// A link does not run from an output pin to an input pin.
    DirectionMismatch,
    /// The effective types of a link's two pins differ.
    TypeMismatch,
    /// An exec input pin receives more than one incoming link.
    MultipleExecInputs,
    /// An entry node of the named kind is missing.
    MissingEntry(&'static str),
    /// The exec flow contains a cycle.
    ExecCycle,
    /// An exec link end has no owning node.
    BrokenExecLink,
    /// A link connects nodes of two different partitions.
    CrossGraphLink,
    /// Two variables share one name.
    DuplicateVariable,
    /// A variable node names a variable that does not exist.
    UnknownVariable,
}

/// A compile failure: the kind, and where it was found.
#[derive(Debug, Copy, Clone, PartialEq, Eq)]
pub struct CompileError {
    pub kind: ValidationError,
    pub node: Option<NodeId>,
    pub pin: Option<PinId>,
}

impl CompileError {
    /// A failure of the given kind with no location attached.
    pub fn new(kind: ValidationError) -> (r: Self)
        ensures
            r == (CompileError { kind, node: None, pin: None }),
    {
        Self { kind, node: None, pin: None }
    }

    /// The same failure, now pointing at this node.
    pub fn with_node(self, node: NodeId) -> (r: Self)
        ensures
            r == (CompileError { node: Some(node), ..self }),
    {
        Self { node: Some(node), ..self }
    }

    /// The same failure, now pointing at this pin.
    pub fn with_pin(self, pin: PinId) -> (r: Self)
        ensures
            r == (CompileError { pin: Some(pin), ..self }),
    {
        Self { pin: Some(pin), ..self }
    }
}

} // verus!
