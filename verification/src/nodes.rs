//! The node catalog: one definition per built-in node kind, giving its
//! name, palette category, pin template and default properties. The
//! authoring surface reads these; the compiler and interpreter do not.

use vstd::prelude::*;

use crate::model::{DataType, Pin, PinDirection, PinId, PinT, Value, pin_t, spec_value_type};

verus! {

/// Pin definition for node templates, before ids are assigned.
#[derive(Debug, Clone, PartialEq)]
pub struct PinDef {
    pub name: String,
    pub direction: PinDirection,
    pub data_type: DataType,
}

impl PinDef {
    /// An input pin of the given type.
    pub fn input(name: &str, data_type: DataType) -> (r: Self)
        ensures
            r.name@ == name@,
            r.direction == PinDirection::Input,
            r.data_type == data_type,
    {
        Self { name: name.to_owned(), direction: PinDirection::Input, data_type }
    }

    /// An output pin of the given type.
    pub fn output(name: &str, data_type: DataType) -> (r: Self)
        ensures
            r.name@ == name@,
            r.direction == PinDirection::Output,
            r.data_type == data_type,
    {
        Self { name: name.to_owned(), direction: PinDirection::Output, data_type }
    }

    /// An exec input pin.
    pub fn exec_in(name: &str) -> (r: Self)
        ensures
            r.name@ == name@,
            r.direction == PinDirection::Input,
            r.data_type == DataType::Exec,
    {
        Self::input(name, DataType::Exec)
    }

    /// An exec output pin.
    pub fn exec_out(name: &str) -> (r: Self)
        ensures
            r.name@ == name@,
            r.direction == PinDirection::Output,
            r.data_type == DataType::Exec,
    {
        Self::output(name, DataType::Exec)
    }

    /// A pin carrying this definition, under a placeholder id that the
    /// graph remaps on insertion.
    pub fn to_pin(&self, id: u32) -> (p: Pin)
        ensures
            pin_t(p) == (PinT {
                id,
                name: self.name@,
                direction: self.direction,
                data_type: self.data_type,
            }),
    {
        Pin {
            id: PinId(id),
            name: self.name.clone(),
            direction: self.direction,
            data_type: self.data_type,
        }
    }
}

/// Property definition for node configuration.
#[derive(Debug, Clone, PartialEq)]
pub struct PropertyDef {
    pub name: String,
    pub data_type: DataType,
    pub default_value: Value,
    /// Whether the editor shows an inline field in the node body.
    pub inline_editable: bool,
}

impl PropertyDef {
    /// A property taking its type from its default value.
    pub fn new(name: &str, default_value: Value) -> (r: Self)
        ensures
            r.name@ == name@,
            r.data_type == spec_value_type(default_value),
            r.default_value == default_value,
            !r.inline_editable,
    {
        let data_type = default_value.data_type();
        Self { name: name.to_owned(), data_type, default_value, inline_editable: false }
    }

    /// The same property, shown inline.
    pub fn inline(self) -> (r: Self)
        ensures
            r.name == self.name,
            r.data_type == self.data_type,
            r.default_value == self.default_value,
            r.inline_editable,
    {
        Self { inline_editable: true, ..self }
    }
}

/// Node category for organizing the editor palette.
#[derive(Debug, Clone, Copy, PartialEq, Eq, Hash, Structural)]
pub enum NodeCategory {
    Event,
    FlowControl,
    Utility,
    Variable,
    Math,
    String,
    Custom,
}

impl NodeCategory {
    /// The palette heading of this category.
    pub fn display_name(&self) -> (r: &'static str)
        ensures
            r@ == match *self {
                NodeCategory::Event => "Events"@,
                NodeCategory::FlowControl => "Flow Control"@,
                NodeCategory::Utility => "Utilities"@,
                NodeCategory::Variable => "Variables"@,
                NodeCategory::Math => "Math"@,
                NodeCategory::String => "String"@,
                NodeCategory::Custom => "Custom"@,
            },
    {
        match self {
            NodeCategory::Event => "Events",
            NodeCategory::FlowControl => "Flow Control",
            NodeCategory::Utility => "Utilities",
            NodeCategory::Variable => "Variables",
            NodeCategory::Math => "Math",
            NodeCategory::String => "String",
            NodeCategory::Custom => "Custom",
        }
    }

    /// The header color of this category, as red, green and blue.
    pub fn header_color(&self) -> (r: (u8, u8, u8))
        ensures
            r == match *self {
                NodeCategory::Event => (220u8, 64u8, 64u8),
                NodeCategory::FlowControl => (110u8, 110u8, 110u8),
                NodeCategory::Utility => (64u8, 180u8, 200u8),
                NodeCategory::Variable => (64u8, 180u8, 96u8),
                NodeCategory::Math => (80u8, 220u8, 80u8),
                NodeCategory::String => (255u8, 100u8, 220u8),
                NodeCategory::Custom => (120u8, 120u8, 120u8),
            },
    {
        match self {
            NodeCategory::Event => (220, 64, 64),
            NodeCategory::FlowControl => (110, 110, 110),
            NodeCategory::Utility => (64, 180, 200),
            NodeCategory::Variable => (64, 180, 96),
            NodeCategory::Math => (80, 220, 80),
            NodeCategory::String => (255, 100, 220),
            NodeCategory::Custom => (120, 120, 120),
        }
    }
}

/// The pin color for a data type, as red, green and blue.
pub fn pin_color_for_type(data_type: DataType) -> (r: (u8, u8, u8))
    ensures
        r == match data_type {
            DataType::Exec => (255u8, 255u8, 255u8),
            DataType::Bool => (220u8, 96u8, 96u8),
            DataType::I32 => (100u8, 220u8, 255u8),
            DataType::F32 => (120u8, 220u8, 100u8),
            DataType::String => (255u8, 100u8, 220u8),
            DataType::Unit => (160u8, 160u8, 160u8),
        },
{
    match data_type {
        DataType::Exec => (255, 255, 255),
        DataType::Bool => (220, 96, 96),
        DataType::I32 => (100, 220, 255),
        DataType::F32 => (120, 220, 100),
        DataType::String => (255, 100, 220),
        DataType::Unit => (160, 160, 160),
    }
}

/// What every node definition provides to the authoring surface.
pub trait NodeDefinition {
    /// Unique identifier of the node type.
    fn kind_name(&self) -> &'static str;

    /// Display name shown in the editor.
    fn display_name(&self) -> &'static str;

    /// Palette category.
    fn category(&self) -> NodeCategory;

    /// Tooltip text.
    fn description(&self) -> &'static str {
        ""
    }

    /// Pin definitions of the template.
    fn pins(&self) -> Vec<PinDef>;

    /// Property definitions of the template.
    fn properties(&self) -> Vec<PropertyDef> {
        Vec::new()
    }

    /// Whether the node starts an execution chain.
    fn is_entry(&self) -> bool {
        false
    }

    /// Whether the node has no side effects.
    fn is_pure(&self) -> bool {
        false
    }

    /// The partitions this node may appear in.
    fn allowed_graphs(&self) -> Vec<&'static str> {
        let mut graphs: Vec<&'static str> = Vec::new();
        graphs.push("EventGraph");
        graphs.push("ConstructionScript");
        graphs
    }

    /// The template pins, under sequential placeholder ids.
    fn create_pins(&self) -> Vec<Pin> {
        let defs = self.pins();
        let n = defs.len();
        let mut pins: Vec<Pin> = Vec::new();
        let mut i: usize = 0;
        while i < n
            invariant
                n == defs@.len(),
                i <= n,
            decreases n - i,
        {
            let id: u32 = #[verifier::truncate] (i as u32);
            pins.push(defs[i].to_pin(id));
            i += 1;
        }
        pins
    }

    /// The default property map.
    fn create_properties(&self) -> Vec<(String, Value)> {
        let defs = self.properties();
        let n = defs.len();
        let mut props: Vec<(String, Value)> = Vec::new();
        let mut i: usize = 0;
        while i < n
            invariant
                n == defs@.len(),
                i <= n,
            decreases n - i,
        {
            props.push((defs[i].name.clone(), crate::model::clone_value(&defs[i].default_value)));
            i += 1;
        }
        props
    }

    /// The property key edited inline, if any.
    fn inline_property_key(&self) -> Option<&'static str> {
        None
    }
}

/// BeginPlay event: fires once when the game starts.
pub struct BeginPlayNode;

impl NodeDefinition for BeginPlayNode {
    fn kind_name(&self) -> &'static str {
        "BeginPlay"
    }

    fn display_name(&self) -> &'static str {
        "Event BeginPlay"
    }

    fn category(&self) -> NodeCategory {
        NodeCategory::Event
    }

    fn description(&self) -> &'static str {
        "Fires once when the game starts or the actor is spawned."
    }

    fn pins(&self) -> Vec<PinDef> {
        let mut pins: Vec<PinDef> = Vec::new();
        pins.push(PinDef::exec_out("then"));
        pins
    }

    fn is_entry(&self) -> bool {
        true
    }

    fn allowed_graphs(&self) -> Vec<&'static str> {
        let mut graphs: Vec<&'static str> = Vec::new();
        graphs.push("EventGraph");
        graphs
    }
}

/// Tick event: fires every frame.
pub struct TickNode;

impl NodeDefinition for TickNode {
    fn kind_name(&self) -> &'static str {
        "Tick"
    }

    fn display_name(&self) -> &'static str {
        "Event Tick"
    }

    fn category(&self) -> NodeCategory {
        NodeCategory::Event
    }

    fn description(&self) -> &'static str {
        "Fires every frame. Use sparingly for performance."
    }

    fn pins(&self) -> Vec<PinDef> {
        let mut pins: Vec<PinDef> = Vec::new();
        pins.push(PinDef::exec_out("then"));
        pins.push(PinDef::output("deltaTime", DataType::F32));
        pins
    }

    fn is_entry(&self) -> bool {
        true
    }

    fn allowed_graphs(&self) -> Vec<&'static str> {
        let mut graphs: Vec<&'static str> = Vec::new();
        graphs.push("EventGraph");
        graphs
    }
}

/// Construction Script event: fires when the actor is constructed.
pub struct ConstructionScriptNode;

impl NodeDefinition for ConstructionScriptNode {
    fn kind_name(&self) -> &'static str {
        "ConstructionScript"
    }

    fn display_name(&self) -> &'static str {
        "Construction Script"
    }

    fn category(&self) -> NodeCategory {
        NodeCategory::Event
    }

    fn description(&self) -> &'static str {
        "Fires when the actor is constructed. Use for setup logic."
    }

    fn pins(&self) -> Vec<PinDef> {
        let mut pins: Vec<PinDef> = Vec::new();
        pins.push(PinDef::exec_out("then"));
        pins
    }

    fn is_entry(&self) -> bool {
        true
    }

    fn allowed_graphs(&self) -> Vec<&'static str> {
        let mut graphs: Vec<&'static str> = Vec::new();
        graphs.push("ConstructionScript");
        graphs
    }
}

/// Branch: if/else flow control.
pub struct BranchNode;

impl NodeDefinition for BranchNode {
    fn kind_name(&self) -> &'static str {
        "Branch"
    }

    fn display_name(&self) -> &'static str {
        "Branch"
    }

    fn category(&self) -> NodeCategory {
        NodeCategory::FlowControl
    }

    fn description(&self) -> &'static str {
        "Executes one of two paths based on a boolean condition."
    }

    fn pins(&self) -> Vec<PinDef> {
        let mut pins: Vec<PinDef> = Vec::new();
        pins.push(PinDef::exec_in("exec"));
        pins.push(PinDef::input("condition", DataType::Bool));
        pins.push(PinDef::exec_out("true"));
        pins.push(PinDef::exec_out("false"));
        pins
    }
}

/// Print: writes a line of text to the output log.
pub struct PrintNode;

impl NodeDefinition for PrintNode {
    fn kind_name(&self) -> &'static str {
        "Print"
    }

    fn display_name(&self) -> &'static str {
        "Print String"
    }

    fn category(&self) -> NodeCategory {
        NodeCategory::Utility
    }

    fn description(&self) -> &'static str {
        "Prints a string to the output log."
    }

    fn pins(&self) -> Vec<PinDef> {
        let mut pins: Vec<PinDef> = Vec::new();
        pins.push(PinDef::exec_in("exec"));
        pins.push(PinDef::exec_out("then"));
        pins.push(PinDef::input("text", DataType::String));
        pins
    }

    fn properties(&self) -> Vec<PropertyDef> {
        let mut props: Vec<PropertyDef> = Vec::new();
        props.push(PropertyDef::new("text", Value::String("Hello".to_owned())).inline());
        props
    }

    fn inline_property_key(&self) -> Option<&'static str> {
        Some("text")
    }
}

/// Script node: evaluates an embedded snippet with store access.
pub struct RhaiScriptNode;

impl NodeDefinition for RhaiScriptNode {
    fn kind_name(&self) -> &'static str {
        "RhaiScript"
    }

    fn display_name(&self) -> &'static str {
        "Rhai Script"
    }

    fn category(&self) -> NodeCategory {
        NodeCategory::Utility
    }

    fn description(&self) -> &'static str {
        "Runs a Rhai script. Use get_var(name), set_var(name, value), dt(), and print(text)."
    }

    fn pins(&self) -> Vec<PinDef> {
        let mut pins: Vec<PinDef> = Vec::new();
        pins.push(PinDef::exec_in("exec"));
        pins.push(PinDef::exec_out("then"));
        pins.push(PinDef::input("code", DataType::String));
        pins
    }

    fn properties(&self) -> Vec<PropertyDef> {
        let mut props: Vec<PropertyDef> = Vec::new();
        props.push(PropertyDef::new("code", Value::String(String::new())).inline());
        props
    }

    fn inline_property_key(&self) -> Option<&'static str> {
        Some("code")
    }
}

/// GetVariable: reads a variable value.
pub struct GetVariableNode;

impl NodeDefinition for GetVariableNode {
    fn kind_name(&self) -> &'static str {
        "GetVariable"
    }

    fn display_name(&self) -> &'static str {
        "Get"
    }

    fn category(&self) -> NodeCategory {
        NodeCategory::Variable
    }

    fn description(&self) -> &'static str {
        "Gets the value of a variable."
    }

    fn pins(&self) -> Vec<PinDef> {
        // The type of `value` is dynamic: the compiler re-derives it
        // from the referenced variable wherever it is consulted.
        let mut pins: Vec<PinDef> = Vec::new();
        pins.push(PinDef::output("value", DataType::String));
        pins
    }

    fn properties(&self) -> Vec<PropertyDef> {
        let mut props: Vec<PropertyDef> = Vec::new();
        props.push(PropertyDef::new("name", Value::String(String::new())).inline());
        props
    }

    fn is_pure(&self) -> bool {
        true
    }

    fn inline_property_key(&self) -> Option<&'static str> {
        Some("name")
    }
}

/// SetVariable: writes a variable value.
pub struct SetVariableNode;

impl NodeDefinition for SetVariableNode {
    fn kind_name(&self) -> &'static str {
        "SetVariable"
    }

    fn display_name(&self) -> &'static str {
        "Set"
    }

    fn category(&self) -> NodeCategory {
        NodeCategory::Variable
    }

    fn description(&self) -> &'static str {
        "Sets the value of a variable."
    }

    fn pins(&self) -> Vec<PinDef> {
        let mut pins: Vec<PinDef> = Vec::new();
        pins.push(PinDef::exec_in("exec"));
        pins.push(PinDef::exec_out("then"));
        pins.push(PinDef::input("value", DataType::String));
        pins
    }

    fn properties(&self) -> Vec<PropertyDef> {
        let mut props: Vec<PropertyDef> = Vec::new();
        props.push(PropertyDef::new("name", Value::String(String::new())).inline());
        props
    }

    fn inline_property_key(&self) -> Option<&'static str> {
        Some("name")
    }
}

/// Self: the actor handle running this graph.
pub struct SelfNode;

impl NodeDefinition for SelfNode {
    fn kind_name(&self) -> &'static str {
        "Self"
    }

    fn display_name(&self) -> &'static str {
        "Self"
    }

    fn category(&self) -> NodeCategory {
        NodeCategory::Utility
    }

    fn description(&self) -> &'static str {
        "Returns the current actor/node handle executing this graph."
    }

    fn pins(&self) -> Vec<PinDef> {
        let mut pins: Vec<PinDef> = Vec::new();
        pins.push(PinDef::output("handle", DataType::String));
        pins
    }

    fn is_pure(&self) -> bool {
        true
    }
}

/// GetActorTransform: reads an actor's position.
pub struct GetActorTransformNode;

impl NodeDefinition for GetActorTransformNode {
    fn kind_name(&self) -> &'static str {
        "GetActorTransform"
    }

    fn display_name(&self) -> &'static str {
        "Get Actor Transform"
    }

    fn category(&self) -> NodeCategory {
        NodeCategory::Utility
    }

    fn description(&self) -> &'static str {
        "Reads the transform (position, rotation, scale) of an actor."
    }

    fn pins(&self) -> Vec<PinDef> {
        let mut pins: Vec<PinDef> = Vec::new();
        pins.push(PinDef::exec_in("exec"));
        pins.push(PinDef::exec_out("then"));
        pins.push(PinDef::input("target", DataType::String));
        pins.push(PinDef::output("position_x", DataType::F32));
        pins.push(PinDef::output("position_y", DataType::F32));
        pins.push(PinDef::output("position_z", DataType::F32));
        pins
    }
}

/// SetActorTransform: moves an actor to a new position.
pub struct SetActorTransformNode;

impl NodeDefinition for SetActorTransformNode {
    fn kind_name(&self) -> &'static str {
        "SetActorTransform"
    }

    fn display_name(&self) -> &'static str {
        "Set Actor Transform"
    }

    fn category(&self) -> NodeCategory {
        NodeCategory::Utility
    }

    fn description(&self) -> &'static str {
        "Moves an actor to a new position."
    }

    fn pins(&self) -> Vec<PinDef> {
        let mut pins: Vec<PinDef> = Vec::new();
        pins.push(PinDef::exec_in("exec"));
        pins.push(PinDef::exec_out("then"));
        pins.push(PinDef::input("target", DataType::String));
        pins.push(PinDef::input("position_x", DataType::F32));
        pins.push(PinDef::input("position_y", DataType::F32));
        pins.push(PinDef::input("position_z", DataType::F32));
        pins
    }
}

/// SpawnActor: spawns an actor at a location.
pub struct SpawnActorNode;

impl NodeDefinition for SpawnActorNode {
    fn kind_name(&self) -> &'static str {
        "SpawnActor"
    }

    fn display_name(&self) -> &'static str {
        "Spawn Actor"
    }

    fn category(&self) -> NodeCategory {
        NodeCategory::Utility
    }

    fn description(&self) -> &'static str {
        "Spawns a new actor (or blueprint instance) at the given location."
    }

    fn pins(&self) -> Vec<PinDef> {
        let mut pins: Vec<PinDef> = Vec::new();
        pins.push(PinDef::exec_in("exec"));
        pins.push(PinDef::exec_out("then"));
        pins.push(PinDef::input("blueprint_name", DataType::String));
        pins.push(PinDef::input("position_x", DataType::F32));
        pins.push(PinDef::input("position_y", DataType::F32));
        pins.push(PinDef::input("position_z", DataType::F32));
        pins.push(PinDef::output("new_actor", DataType::String));
        pins
    }
}

/// GetActorByName: finds an actor in the scene by name.
pub struct GetActorByNameNode;

impl NodeDefinition for GetActorByNameNode {
    fn kind_name(&self) -> &'static str {
        "GetActorByName"
    }

    fn display_name(&self) -> &'static str {
        "Get Actor By Name"
    }

    fn category(&self) -> NodeCategory {
        NodeCategory::Utility
    }

    fn description(&self) -> &'static str {
        "Finds an actor in the scene by name. Returns the actor handle if found."
    }

    fn pins(&self) -> Vec<PinDef> {
        let mut pins: Vec<PinDef> = Vec::new();
        pins.push(PinDef::exec_in("exec"));
        pins.push(PinDef::exec_out("then"));
        pins.push(PinDef::input("name", DataType::String));
        pins.push(PinDef::output("actor", DataType::String));
        pins
    }
}

/// GetActorName: the name of an actor.
pub struct GetActorNameNode;

impl NodeDefinition for GetActorNameNode {
    fn kind_name(&self) -> &'static str {
        "GetActorName"
    }

    fn display_name(&self) -> &'static str {
        "Get Actor Name"
    }

    fn category(&self) -> NodeCategory {
        NodeCategory::Utility
    }

    fn description(&self) -> &'static str {
        "Gets the name of an actor."
    }

    fn pins(&self) -> Vec<PinDef> {
        let mut pins: Vec<PinDef> = Vec::new();
        pins.push(PinDef::input("target", DataType::String));
        pins.push(PinDef::output("name", DataType::String));
        pins
    }

    fn is_pure(&self) -> bool {
        true
    }
}

} // verus!
