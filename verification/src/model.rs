//! The graph data model: scalar kinds, values, pins, nodes, links,
//! variables and the owning blueprint graph aggregate.
//!
//! Single-precision coordinates and values are carried as their IEEE-754
//! bit patterns (`u32`): the core never does arithmetic on them, it only
//! stores and moves them, so the bits are a faithful representation.

use vstd::prelude::*;

use crate::seq_search::{first_where, lemma_first_where_is, lemma_first_where_none};

verus! {

/// Identifier of a whole blueprint graph asset.
#[derive(Debug, Clone, PartialEq, Eq, Hash)]
pub struct GraphId(pub String);

/// The role of a named sub-graph partition.
#[derive(Debug, Copy, Clone, PartialEq, Eq, Structural)]
pub enum GraphKind {
    Event,
    Construction,
    Function,
    Graph,
}

impl Default for GraphKind {
    fn default() -> (r: Self)
        ensures
            r == GraphKind::Graph,
    {
        GraphKind::Graph
    }
}

/// A named sub-graph partition. Partitions are not structurally nested:
/// each node carries the partition name as a tag.
#[derive(Debug, Clone, PartialEq)]
pub struct GraphDef {
    pub name: String,
    pub kind: GraphKind,
}

/// Identifier of a node, unique across the graph.
#[derive(Debug, Copy, Clone, PartialEq, Eq, PartialOrd, Ord, Hash, Structural)]
pub struct NodeId(pub u32);

/// Identifier of a pin, unique across the whole graph, not just per node.
#[derive(Debug, Copy, Clone, PartialEq, Eq, PartialOrd, Ord, Hash, Structural)]
pub struct PinId(pub u32);

/// Whether a pin receives or produces.
#[derive(Debug, Copy, Clone, PartialEq, Eq, Structural)]
pub enum PinDirection {
    Input,
    Output,
}

/// The closed set of scalar kinds a pin or value can have.
#[derive(Debug, Copy, Clone, PartialEq, Eq, Structural)]
pub enum DataType {
    Exec,
    Bool,
    I32,
    F32,
    String,
    Unit,
}

/// A concrete value. `F32` holds the bit pattern of a single-precision
/// number; the core stores and moves it without interpreting it.
#[derive(Debug, Clone, PartialEq)]
pub enum Value {
    Bool(bool),
    I32(i32),
    F32(u32),
    String(String),
    Unit,
}

/// The scalar kind of a value.
pub open spec fn spec_value_type(v: Value) -> DataType {
    match v {
        Value::Bool(_) => DataType::Bool,
        Value::I32(_) => DataType::I32,
        Value::F32(_) => DataType::F32,
        Value::String(_) => DataType::String,
        Value::Unit => DataType::Unit,
    }
}

impl Value {
    pub fn data_type(&self) -> (r: DataType)
        ensures
            r == spec_value_type(*self),
    {
        match self {
            Value::Bool(_) => DataType::Bool,
            Value::I32(_) => DataType::I32,
            Value::F32(_) => DataType::F32,
            Value::String(_) => DataType::String,
            Value::Unit => DataType::Unit,
        }
    }
}

/// Copies a value; the copy is equal to the original.
pub fn clone_value(v: &Value) -> (r: Value)
    ensures
        r == *v,
{
    match v {
        Value::Bool(b) => Value::Bool(*b),
        Value::I32(i) => Value::I32(*i),
        Value::F32(bits) => Value::F32(*bits),
        Value::String(s) => Value::String(s.clone()),
        Value::Unit => Value::Unit,
    }
}

/// Copies a property list; the copy is equal to the original.
pub fn clone_props(props: &Vec<(String, Value)>) -> (r: Vec<(String, Value)>)
    ensures
        r@ == props@,
{
    let n = props.len();
    let mut out: Vec<(String, Value)> = Vec::new();
    let mut i: usize = 0;
    while i < n
        invariant
            n == props@.len(),
            i <= n,
            out@ =~= props@.subrange(0, i as int),
        decreases n - i,
    {
        out.push((props[i].0.clone(), clone_value(&props[i].1)));
        i += 1;
    }
    proof {
        assert(out@ =~= props@);
    }
    out
}

/// Whether two string slices hold the same characters.
pub fn str_eq(a: &str, b: &str) -> (r: bool)
    ensures
        r == (a@ == b@),
{
    a.to_owned() == b.to_owned()
}

/// The fixed catalog of node kinds.
#[derive(Debug, Copy, Clone, PartialEq, Eq, Structural)]
pub enum BuiltinNodeKind {
    BeginPlay,
    Tick,
    ConstructionScript,
    Print,
    RhaiScript,
    Branch,
    GetVariable,
    SetVariable,
    Self_,
    GetActorTransform,
    SetActorTransform,
    SpawnActor,
    GetActorByName,
    GetActorName,
}

/// A connection point on a node.
#[derive(Debug, Clone, PartialEq)]
pub struct Pin {
    pub id: PinId,
    pub name: String,
    pub direction: PinDirection,
    pub data_type: DataType,
}

/// Ghost image of a pin: the name as a character sequence.
#[verifier::ext_equal]
pub ghost struct PinT {
    pub id: u32,
    pub name: Seq<char>,
    pub direction: PinDirection,
    pub data_type: DataType,
}

/// The ghost image of an executable pin.
pub open spec fn pin_t(p: Pin) -> PinT {
    PinT { id: p.id.0, name: p.name@, direction: p.direction, data_type: p.data_type }
}

/// Copies a pin; the copy is equal to the original.
pub fn clone_pin(p: &Pin) -> (r: Pin)
    ensures
        r == *p,
{
    Pin { id: p.id, name: p.name.clone(), direction: p.direction, data_type: p.data_type }
}

/// Position of a node on the editor canvas, as coordinate bit patterns.
/// Editor-only data: the compiler and the interpreter never read it.
#[derive(Debug, Copy, Clone, PartialEq, Eq, Structural, Default)]
pub struct NodePosition {
    pub x_bits: u32,
    pub y_bits: u32,
}

/// A node: a kind, a partition tag, pins and literal properties.
#[derive(Debug, Clone, PartialEq)]
pub struct Node {
    pub id: NodeId,
    pub kind: BuiltinNodeKind,
    pub graph: String,
    pub position: NodePosition,
    pub pins: Vec<Pin>,
    pub properties: Vec<(String, Value)>,
}

/// First property with the given key, if any.
pub open spec fn prop_get(props: Seq<(String, Value)>, key: Seq<char>) -> Option<Value>
    decreases props.len(),
{
    if props.len() == 0 {
        None
    } else if props[0].0@ == key {
        Some(props[0].1)
    } else {
        prop_get(props.drop_first(), key)
    }
}

/// Looking past the first element of a property list.
pub proof fn lemma_prop_get_step(props: Seq<(String, Value)>, key: Seq<char>, i: int)
    requires
        0 < i <= props.len(),
        forall|j: int| 0 <= j < i ==> props[j].0@ != key,
    ensures
        prop_get(props, key) == prop_get(props.subrange(i, props.len() as int), key),
    decreases i,
{
    assert(props.drop_first() =~= props.subrange(1, props.len() as int));
    if i > 1 {
        lemma_prop_get_step(props.drop_first(), key, i - 1);
        assert(props.drop_first().subrange(i - 1, props.drop_first().len() as int)
            =~= props.subrange(i, props.len() as int));
    }
}

/// Exec lookup of the first property with the given key.
pub fn prop_find<'a>(props: &'a Vec<(String, Value)>, key: &str) -> (r: Option<&'a Value>)
    ensures
        match r {
            Some(v) => prop_get(props@, key@) == Some(*v),
            None => prop_get(props@, key@) is None,
        },
{
    let n = props.len();
    let mut i: usize = 0;
    while i < n
        invariant
            n == props@.len(),
            i <= n,
            forall|j: int| 0 <= j < i ==> props@[j].0@ != key@,
        decreases n - i,
    {
        if str_eq(props[i].0.as_str(), key) {
            proof {
                if i > 0 {
                    lemma_prop_get_step(props@, key@, i as int);
                }
                assert(props@.subrange(i as int, props@.len() as int)[0] == props@[i as int]);
            }
            return Some(&props[i].1);
        }
        i += 1;
    }
    proof {
        if n > 0 {
            lemma_prop_get_step(props@, key@, n as int);
        }
    }
    None
}

/// Replaces the first property with the given key, or appends one.
/// Afterwards the key maps to exactly this value.
pub fn prop_set(props: &mut Vec<(String, Value)>, key: String, value: Value)
    ensures
        prop_get(final(props)@, key@) == Some(value),
        final(props)@.len() <= old(props)@.len() + 1,
        forall|k: Seq<char>| k != key@ ==>
            prop_get(final(props)@, k) == prop_get(old(props)@, k),
{
    let n = props.len();
    let mut i: usize = 0;
    while i < n
        invariant
            n == props@.len(),
            i <= n,
            *props == *old(props),
            forall|j: int| 0 <= j < i ==> props@[j].0@ != key@,
        decreases n - i,
    {
        if str_eq(props[i].0.as_str(), key.as_str()) {
            let ghost before = props@;
            props.set(i, (key, value));
            proof {
                lemma_prop_set_frame(before, props@, key@, i as int);
            }
            return;
        }
        i += 1;
    }
    let ghost before = props@;
    props.push((key, value));
    proof {
        assert(forall|j: int| 0 <= j < before.len() ==> props@[j] == before[j]);
        lemma_prop_set_frame(before, props@, key@, before.len() as int);
    }
}

/// A list that agrees with another except at one slot, whose key is `key`,
/// resolves keys the same way, except that `key` now resolves to that slot
/// if nothing earlier holds it.
proof fn lemma_prop_set_frame(
    before: Seq<(String, Value)>,
    after: Seq<(String, Value)>,
    key: Seq<char>,
    i: int,
)
    requires
        0 <= i < after.len(),
        before.len() == i || before.len() == after.len(),
        after.len() == if before.len() == i { i + 1 } else { before.len() as int },
        forall|j: int| 0 <= j < i ==> after[j] == before[j],
        forall|j: int| i < j < after.len() && j < before.len() ==> after[j] == before[j],
        forall|j: int| 0 <= j < i ==> #[trigger] before[j].0@ != key,
        after[i].0@ == key,
        before.len() == after.len() ==> before[i].0@ == key,
    ensures
        prop_get(after, key) == Some(after[i].1),
        forall|k: Seq<char>| k != key ==> prop_get(after, k) == prop_get(before, k),
    decreases i,
{
    if i == 0 {
        assert forall|k: Seq<char>| k != key implies prop_get(after, k) == prop_get(before, k) by {
            if before.len() == 0 {
                lemma_prop_get_none_tail(after, k, 0);
            } else {
                assert(after.drop_first() =~= before.drop_first());
            }
        }
    } else {
        lemma_prop_set_frame(before.drop_first(), after.drop_first(), key, i - 1);
        assert(after[0] == before[0]);
        assert(after.drop_first()[i - 1] == after[i]);
        assert(prop_get(after, key) == Some(after[i].1));
        assert forall|k: Seq<char>| k != key implies prop_get(after, k) == prop_get(before, k) by {
            assert(prop_get(after.drop_first(), k) == prop_get(before.drop_first(), k));
        }
    }
}

/// Past the end of a list whose remaining keys all differ from `key`...
/// if every slot from `i` on has a key other than `k`, and everything
/// before `i` also differs, the lookup fails.
proof fn lemma_prop_get_none_tail(props: Seq<(String, Value)>, k: Seq<char>, i: int)
    requires
        0 <= i <= props.len(),
        forall|j: int| i <= j < props.len() ==> #[trigger] props[j].0@ != k,
        forall|j: int| 0 <= j < i ==> #[trigger] props[j].0@ != k,
    ensures
        prop_get(props, k) is None,
    decreases props.len(),
{
    if props.len() > 0 {
        lemma_prop_get_none_tail(props.drop_first(), k, 0);
    }
}


/// Whether a pin list realizes a template: same length, and each pin's
/// ghost image equals the template entry.
pub open spec fn pins_match(pins: Seq<Pin>, t: Seq<PinT>) -> bool {
    &&& pins.len() == t.len()
    &&& forall|j: int| 0 <= j < t.len() ==> pin_t(#[trigger] pins[j]) == t[j]
}

/// The fixed pin template of each node kind. Pin ids here are per-node
/// placeholders; the graph remaps them when the node is inserted.
pub open spec fn spec_template_pins(kind: BuiltinNodeKind) -> Seq<PinT> {
    match kind {
        BuiltinNodeKind::BeginPlay | BuiltinNodeKind::ConstructionScript => seq![
            PinT { id: 0, name: "then"@, direction: PinDirection::Output, data_type: DataType::Exec },
        ],
        BuiltinNodeKind::Tick => seq![
            PinT { id: 0, name: "then"@, direction: PinDirection::Output, data_type: DataType::Exec },
            PinT { id: 1, name: "dt"@, direction: PinDirection::Output, data_type: DataType::F32 },
        ],
        BuiltinNodeKind::Print => seq![
            PinT { id: 0, name: "exec"@, direction: PinDirection::Input, data_type: DataType::Exec },
            PinT { id: 1, name: "then"@, direction: PinDirection::Output, data_type: DataType::Exec },
            PinT { id: 2, name: "text"@, direction: PinDirection::Input, data_type: DataType::String },
        ],
        BuiltinNodeKind::RhaiScript => seq![
            PinT { id: 0, name: "exec"@, direction: PinDirection::Input, data_type: DataType::Exec },
            PinT { id: 1, name: "then"@, direction: PinDirection::Output, data_type: DataType::Exec },
            PinT { id: 2, name: "code"@, direction: PinDirection::Input, data_type: DataType::String },
        ],
        BuiltinNodeKind::Branch => seq![
            PinT { id: 0, name: "exec"@, direction: PinDirection::Input, data_type: DataType::Exec },
            PinT { id: 1, name: "condition"@, direction: PinDirection::Input, data_type: DataType::Bool },
            PinT { id: 2, name: "true"@, direction: PinDirection::Output, data_type: DataType::Exec },
            PinT { id: 3, name: "false"@, direction: PinDirection::Output, data_type: DataType::Exec },
        ],
        BuiltinNodeKind::GetVariable => seq![
            PinT { id: 0, name: "value"@, direction: PinDirection::Output, data_type: DataType::String },
        ],
        BuiltinNodeKind::SetVariable => seq![
            PinT { id: 0, name: "exec"@, direction: PinDirection::Input, data_type: DataType::Exec },
            PinT { id: 1, name: "then"@, direction: PinDirection::Output, data_type: DataType::Exec },
            PinT { id: 2, name: "value"@, direction: PinDirection::Input, data_type: DataType::String },
        ],
        BuiltinNodeKind::Self_ => seq![
            PinT { id: 0, name: "self"@, direction: PinDirection::Output, data_type: DataType::String },
        ],
        BuiltinNodeKind::GetActorTransform => seq![
            PinT { id: 0, name: "exec"@, direction: PinDirection::Input, data_type: DataType::Exec },
            PinT { id: 1, name: "then"@, direction: PinDirection::Output, data_type: DataType::Exec },
            PinT { id: 2, name: "actor"@, direction: PinDirection::Input, data_type: DataType::String },
            PinT { id: 3, name: "position"@, direction: PinDirection::Output, data_type: DataType::String },
        ],
        BuiltinNodeKind::SetActorTransform => seq![
            PinT { id: 0, name: "exec"@, direction: PinDirection::Input, data_type: DataType::Exec },
            PinT { id: 1, name: "then"@, direction: PinDirection::Output, data_type: DataType::Exec },
            PinT { id: 2, name: "actor"@, direction: PinDirection::Input, data_type: DataType::String },
            PinT { id: 3, name: "position"@, direction: PinDirection::Input, data_type: DataType::String },
        ],
        BuiltinNodeKind::SpawnActor => seq![
            PinT { id: 0, name: "exec"@, direction: PinDirection::Input, data_type: DataType::Exec },
            PinT { id: 1, name: "then"@, direction: PinDirection::Output, data_type: DataType::Exec },
            PinT { id: 2, name: "class"@, direction: PinDirection::Input, data_type: DataType::String },
            PinT { id: 3, name: "actor"@, direction: PinDirection::Output, data_type: DataType::String },
        ],
        BuiltinNodeKind::GetActorByName => seq![
            PinT { id: 1, name: "exec"@, direction: PinDirection::Input, data_type: DataType::Exec },
            PinT { id: 2, name: "then"@, direction: PinDirection::Output, data_type: DataType::Exec },
            PinT { id: 3, name: "name"@, direction: PinDirection::Input, data_type: DataType::String },
            PinT { id: 4, name: "actor"@, direction: PinDirection::Output, data_type: DataType::String },
        ],
        BuiltinNodeKind::GetActorName => seq![
            PinT { id: 0, name: "actor"@, direction: PinDirection::Input, data_type: DataType::String },
            PinT { id: 1, name: "name"@, direction: PinDirection::Output, data_type: DataType::String },
        ],
    }
}

/// Builds one pin.
fn mk_pin(id: u32, name: &str, direction: PinDirection, data_type: DataType) -> (p: Pin)
    ensures
        pin_t(p) == (PinT { id, name: name@, direction, data_type }),
{
    Pin { id: PinId(id), name: name.to_owned(), direction, data_type }
}

/// The pin list a freshly created node of this kind starts with.
pub fn default_pins(kind: BuiltinNodeKind) -> (r: Vec<Pin>)
    ensures
        pins_match(r@, spec_template_pins(kind)),
{
    let mut pins: Vec<Pin> = Vec::new();
    match kind {
        BuiltinNodeKind::BeginPlay | BuiltinNodeKind::ConstructionScript => {
            pins.push(mk_pin(0, "then", PinDirection::Output, DataType::Exec));
        }
        BuiltinNodeKind::Tick => {
            pins.push(mk_pin(0, "then", PinDirection::Output, DataType::Exec));
            pins.push(mk_pin(1, "dt", PinDirection::Output, DataType::F32));
        }
        BuiltinNodeKind::Print => {
            pins.push(mk_pin(0, "exec", PinDirection::Input, DataType::Exec));
            pins.push(mk_pin(1, "then", PinDirection::Output, DataType::Exec));
            pins.push(mk_pin(2, "text", PinDirection::Input, DataType::String));
        }
        BuiltinNodeKind::RhaiScript => {
            pins.push(mk_pin(0, "exec", PinDirection::Input, DataType::Exec));
            pins.push(mk_pin(1, "then", PinDirection::Output, DataType::Exec));
            pins.push(mk_pin(2, "code", PinDirection::Input, DataType::String));
        }
        BuiltinNodeKind::Branch => {
            pins.push(mk_pin(0, "exec", PinDirection::Input, DataType::Exec));
            pins.push(mk_pin(1, "condition", PinDirection::Input, DataType::Bool));
            pins.push(mk_pin(2, "true", PinDirection::Output, DataType::Exec));
            pins.push(mk_pin(3, "false", PinDirection::Output, DataType::Exec));
        }
        BuiltinNodeKind::GetVariable => {
            pins.push(mk_pin(0, "value", PinDirection::Output, DataType::String));
        }
        BuiltinNodeKind::SetVariable => {
            pins.push(mk_pin(0, "exec", PinDirection::Input, DataType::Exec));
            pins.push(mk_pin(1, "then", PinDirection::Output, DataType::Exec));
            pins.push(mk_pin(2, "value", PinDirection::Input, DataType::String));
        }
        BuiltinNodeKind::Self_ => {
            pins.push(mk_pin(0, "self", PinDirection::Output, DataType::String));
        }
        BuiltinNodeKind::GetActorTransform => {
            pins.push(mk_pin(0, "exec", PinDirection::Input, DataType::Exec));
            pins.push(mk_pin(1, "then", PinDirection::Output, DataType::Exec));
            pins.push(mk_pin(2, "actor", PinDirection::Input, DataType::String));
            pins.push(mk_pin(3, "position", PinDirection::Output, DataType::String));
        }
        BuiltinNodeKind::SetActorTransform => {
            pins.push(mk_pin(0, "exec", PinDirection::Input, DataType::Exec));
            pins.push(mk_pin(1, "then", PinDirection::Output, DataType::Exec));
            pins.push(mk_pin(2, "actor", PinDirection::Input, DataType::String));
            pins.push(mk_pin(3, "position", PinDirection::Input, DataType::String));
        }
        BuiltinNodeKind::SpawnActor => {
            pins.push(mk_pin(0, "exec", PinDirection::Input, DataType::Exec));
            pins.push(mk_pin(1, "then", PinDirection::Output, DataType::Exec));
            pins.push(mk_pin(2, "class", PinDirection::Input, DataType::String));
            pins.push(mk_pin(3, "actor", PinDirection::Output, DataType::String));
        }
        BuiltinNodeKind::GetActorByName => {
            pins.push(mk_pin(1, "exec", PinDirection::Input, DataType::Exec));
            pins.push(mk_pin(2, "then", PinDirection::Output, DataType::Exec));
            pins.push(mk_pin(3, "name", PinDirection::Input, DataType::String));
            pins.push(mk_pin(4, "actor", PinDirection::Output, DataType::String));
        }
        BuiltinNodeKind::GetActorName => {
            pins.push(mk_pin(0, "actor", PinDirection::Input, DataType::String));
            pins.push(mk_pin(1, "name", PinDirection::Output, DataType::String));
        }
    }
    pins
}

/// The sample snippet a fresh script node carries.
pub open spec fn spec_rhai_snippet() -> Seq<char> {
    "// Rhai snippet examples\n//\n// 1) Log\n// print(\"Hello from Rhai\");\n//\n// 2) Use variables\n// set_var(\"message\", \"Hello\");\n// print(get_var(\"message\"));\n//\n// 3) Read delta time during Tick\n// print(\"dt = \" + dt().to_string());\n"@
}

/// First pin with the given name, if any.
pub open spec fn spec_pin_named(n: Node, name: Seq<char>) -> Option<PinId> {
    match first_where(n.pins@, |p: Pin| p.name@ == name) {
        Some(j) => Some(n.pins@[j].id),
        None => None,
    }
}

impl Node {
    /// A fresh node of the given kind, with its template pins, the default
    /// partition tag, and — for the script kind — a sample snippet property.
    /// Ids are placeholders; the graph assigns real ones on insertion.
    pub fn new(kind: BuiltinNodeKind) -> (r: Node)
        ensures
            r.id == NodeId(0),
            r.kind == kind,
            r.graph@ == "EventGraph"@,
            r.position == (NodePosition { x_bits: 0, y_bits: 0 }),
            pins_match(r.pins@, spec_template_pins(kind)),
            kind != BuiltinNodeKind::RhaiScript ==> r.properties@.len() == 0,
            kind == BuiltinNodeKind::RhaiScript ==> {
                &&& r.properties@.len() == 1
                &&& r.properties@[0].0@ == "code"@
                &&& r.properties@[0].1 matches Value::String(s) && s@ == spec_rhai_snippet()
            },
    {
        let mut properties: Vec<(String, Value)> = Vec::new();
        if let BuiltinNodeKind::RhaiScript = kind {
            let snippet = "// Rhai snippet examples\n//\n// 1) Log\n// print(\"Hello from Rhai\");\n//\n// 2) Use variables\n// set_var(\"message\", \"Hello\");\n// print(get_var(\"message\"));\n//\n// 3) Read delta time during Tick\n// print(\"dt = \" + dt().to_string());\n";
            properties.push(("code".to_owned(), Value::String(snippet.to_owned())));
        }
        Node {
            id: NodeId(0),
            kind,
            graph: "EventGraph".to_owned(),
            position: NodePosition { x_bits: 0, y_bits: 0 },
            pins: default_pins(kind),
            properties,
        }
    }

    /// Id of the first pin with this name, if the node has one.
    pub fn pin_named(&self, name: &str) -> (r: Option<PinId>)
        ensures
            r == spec_pin_named(*self, name@),
    {
        let n = self.pins.len();
        let mut i: usize = 0;
        while i < n
            invariant
                n == self.pins@.len(),
                i <= n,
                forall|j: int| 0 <= j < i ==> (#[trigger] self.pins@[j]).name@ != name@,
            decreases n - i,
        {
            if str_eq(self.pins[i].name.as_str(), name) {
                proof {
                    lemma_first_where_is(self.pins@, |q: Pin| q.name@ == name@, i as int);
                }
                return Some(self.pins[i].id);
            }
            i += 1;
        }
        proof {
            lemma_first_where_none(self.pins@, |q: Pin| q.name@ == name@);
        }
        None
    }

    /// Sets a string-typed literal property.
    pub fn set_property_string(&mut self, key: &str, value: String)
        ensures
            final(self).id == old(self).id,
            final(self).kind == old(self).kind,
            final(self).graph == old(self).graph,
            final(self).position == old(self).position,
            final(self).pins == old(self).pins,
            prop_get(final(self).properties@, key@) == Some(Value::String(value)),
            forall|k: Seq<char>| k != key@ ==>
                prop_get(final(self).properties@, k) == prop_get(old(self).properties@, k),
    {
        prop_set(&mut self.properties, key.to_owned(), Value::String(value));
    }

    /// Sets a boolean literal property.
    pub fn set_property_bool(&mut self, key: &str, value: bool)
        ensures
            final(self).id == old(self).id,
            final(self).kind == old(self).kind,
            final(self).graph == old(self).graph,
            final(self).position == old(self).position,
            final(self).pins == old(self).pins,
            prop_get(final(self).properties@, key@) == Some(Value::Bool(value)),
            forall|k: Seq<char>| k != key@ ==>
                prop_get(final(self).properties@, k) == prop_get(old(self).properties@, k),
    {
        prop_set(&mut self.properties, key.to_owned(), Value::Bool(value));
    }

    /// Sets an integer literal property.
    pub fn set_property_i32(&mut self, key: &str, value: i32)
        ensures
            final(self).id == old(self).id,
            final(self).kind == old(self).kind,
            final(self).graph == old(self).graph,
            final(self).position == old(self).position,
            final(self).pins == old(self).pins,
            prop_get(final(self).properties@, key@) == Some(Value::I32(value)),
            forall|k: Seq<char>| k != key@ ==>
                prop_get(final(self).properties@, k) == prop_get(old(self).properties@, k),
    {
        prop_set(&mut self.properties, key.to_owned(), Value::I32(value));
    }

    /// Sets a single-precision literal property from its bit pattern.
    pub fn set_property_f32(&mut self, key: &str, bits: u32)
        ensures
            final(self).id == old(self).id,
            final(self).kind == old(self).kind,
            final(self).graph == old(self).graph,
            final(self).position == old(self).position,
            final(self).pins == old(self).pins,
            prop_get(final(self).properties@, key@) == Some(Value::F32(bits)),
            forall|k: Seq<char>| k != key@ ==>
                prop_get(final(self).properties@, k) == prop_get(old(self).properties@, k),
    {
        prop_set(&mut self.properties, key.to_owned(), Value::F32(bits));
    }
}

/// A named variable with its declared type and optional default.
#[derive(Debug, Clone, PartialEq)]
pub struct VariableDef {
    pub name: String,
    pub data_type: DataType,
    pub default_value: Option<Value>,
}

/// A directed edge between two pins. The compiler, not this struct,
/// enforces that `from` is an output and `to` an input.
#[derive(Debug, Copy, Clone, PartialEq, Eq, Structural)]
pub struct Link {
    pub from: PinId,
    pub to: PinId,
}

impl Link {
    /// A link between the given pins.
    pub fn exec(from: PinId, to: PinId) -> (r: Self)
        ensures
            r == (Link { from, to }),
    {
        Self { from, to }
    }
}

/// The aggregate: partitions, nodes, links, variables and id counters.
#[derive(Debug, Clone, PartialEq)]
pub struct BlueprintGraph {
    pub id: GraphId,
    pub graphs: Vec<GraphDef>,
    pub nodes: Vec<Node>,
    pub links: Vec<Link>,
    pub variables: Vec<VariableDef>,
    pub next_node_id: u32,
    pub next_pin_id: u32,
}

/// Whether the graph holds a partition with this name.
pub open spec fn spec_has_graph(g: BlueprintGraph, name: Seq<char>) -> bool {
    exists|i: int| 0 <= i < g.graphs@.len() && (#[trigger] g.graphs@[i]).name@ == name
}

/// Whether a node owns a pin with this id.
pub open spec fn spec_node_has_pin(n: Node, pid: PinId) -> bool {
    exists|j: int| 0 <= j < n.pins@.len() && (#[trigger] n.pins@[j]).id == pid
}

/// The first pin in the graph with this id, searching nodes in order
/// of ascending id and pins in declaration order.
pub open spec fn spec_graph_pin(g: BlueprintGraph, pid: PinId) -> Option<Pin> {
    match first_where(g.nodes@, |n: Node| spec_node_has_pin(n, pid)) {
        Some(i) => match first_where(g.nodes@[i].pins@, |p: Pin| p.id == pid) {
            Some(j) => Some(g.nodes@[i].pins@[j]),
            None => None,
        },
        None => None,
    }
}

/// The id of the first node owning this pin.
pub open spec fn spec_pin_owner(g: BlueprintGraph, pid: PinId) -> Option<NodeId> {
    match first_where(g.nodes@, |n: Node| spec_node_has_pin(n, pid)) {
        Some(i) => Some(g.nodes@[i].id),
        None => None,
    }
}

/// Well-formedness of the aggregate: nodes are held in strictly
/// ascending id order, and all assigned ids stay below the counters.
pub open spec fn graph_wf(g: BlueprintGraph) -> bool {
    &&& forall|i: int, j: int| 0 <= i < j < g.nodes@.len() ==>
        (#[trigger] g.nodes@[i]).id.0 < (#[trigger] g.nodes@[j]).id.0
    &&& forall|i: int| 0 <= i < g.nodes@.len() ==>
        (#[trigger] g.nodes@[i]).id.0 < g.next_node_id
    &&& forall|i: int, j: int| 0 <= i < g.nodes@.len() && 0 <= j < g.nodes@[i].pins@.len() ==>
        (#[trigger] g.nodes@[i].pins@[j]).id.0 < g.next_pin_id
}

/// Whether a node owns a pin with this id (executable form).
pub(crate) fn node_has_pin(n: &Node, pid: PinId) -> (r: bool)
    ensures
        r == spec_node_has_pin(*n, pid),
{
    let m = n.pins.len();
    let mut j: usize = 0;
    while j < m
        invariant
            m == n.pins@.len(),
            j <= m,
            forall|k: int| 0 <= k < j ==> (#[trigger] n.pins@[k]).id != pid,
        decreases m - j,
    {
        if n.pins[j].id.0 == pid.0 {
            return true;
        }
        j += 1;
    }
    false
}

impl BlueprintGraph {
    /// An empty graph with the two built-in partitions and counters at one.
    pub fn new(id: GraphId) -> (r: Self)
        ensures
            r.id == id,
            r.graphs@.len() == 2,
            r.graphs@[0].name@ == "EventGraph"@ && r.graphs@[0].kind == GraphKind::Event,
            r.graphs@[1].name@ == "ConstructionScript"@
                && r.graphs@[1].kind == GraphKind::Construction,
            r.nodes@.len() == 0,
            r.links@.len() == 0,
            r.variables@.len() == 0,
            r.next_node_id == 1,
            r.next_pin_id == 1,
            graph_wf(r),
    {
        let mut graphs: Vec<GraphDef> = Vec::new();
        graphs.push(GraphDef { name: "EventGraph".to_owned(), kind: GraphKind::Event });
        graphs.push(GraphDef {
            name: "ConstructionScript".to_owned(),
            kind: GraphKind::Construction,
        });
        Self {
            id,
            graphs,
            nodes: Vec::new(),
            links: Vec::new(),
            variables: Vec::new(),
            next_node_id: 1,
            next_pin_id: 1,
        }
    }

    /// Whether some partition carries this name (executable form).
    fn has_graph_named(&self, name: &str) -> (r: bool)
        ensures
            r == spec_has_graph(*self, name@),
    {
        let n = self.graphs.len();
        let mut i: usize = 0;
        while i < n
            invariant
                n == self.graphs@.len(),
                i <= n,
                forall|j: int| 0 <= j < i ==> (#[trigger] self.graphs@[j]).name@ != name@,
            decreases n - i,
        {
            if str_eq(self.graphs[i].name.as_str(), name) {
                return true;
            }
            i += 1;
        }
        false
    }

    /// Appends the two built-in partitions where they are missing;
    /// existing entries stay untouched.
    pub fn ensure_builtin_graphs(&mut self)
        ensures
            final(self).id == old(self).id,
            final(self).nodes == old(self).nodes,
            final(self).links == old(self).links,
            final(self).variables == old(self).variables,
            final(self).next_node_id == old(self).next_node_id,
            final(self).next_pin_id == old(self).next_pin_id,
            final(self).graphs@.len() >= old(self).graphs@.len(),
            final(self).graphs@.subrange(0, old(self).graphs@.len() as int) == old(self).graphs@,
            spec_has_graph(*final(self), "EventGraph"@),
            spec_has_graph(*final(self), "ConstructionScript"@),
            final(self).graphs@.len() <= old(self).graphs@.len() + 2,
            spec_has_graph(*old(self), "EventGraph"@)
                && spec_has_graph(*old(self), "ConstructionScript"@)
                ==> final(self).graphs == old(self).graphs,
    {
        let has_event = self.has_graph_named("EventGraph");
        let has_construction = self.has_graph_named("ConstructionScript");
        if !has_event {
            let ghost before = self.graphs@;
            self.graphs.push(GraphDef { name: "EventGraph".to_owned(), kind: GraphKind::Event });
            proof {
                assert(before =~= self.graphs@.subrange(0, before.len() as int));
            }
        }
        if !has_construction {
            let ghost before0 = old(self).graphs@;
            let ghost before = self.graphs@;
            self.graphs.push(GraphDef {
                name: "ConstructionScript".to_owned(),
                kind: GraphKind::Construction,
            });
            proof {
                assert(before =~= self.graphs@.subrange(0, before.len() as int));
                assert(before0 =~= self.graphs@.subrange(0, before0.len() as int));
            }
        }
        proof {
            assert(old(self).graphs@ =~= self.graphs@.subrange(0, old(self).graphs@.len() as int));
            let pre = self.graphs@.subrange(0, old(self).graphs@.len() as int);
            if has_event {
                let i = choose|i: int|
                    0 <= i < old(self).graphs@.len()
                        && (#[trigger] old(self).graphs@[i]).name@ == "EventGraph"@;
                assert(self.graphs@[i] == pre[i]);
            } else {
                assert(self.graphs@[old(self).graphs@.len() as int].name@ == "EventGraph"@);
            }
            if has_construction {
                let i = choose|i: int|
                    0 <= i < old(self).graphs@.len()
                        && (#[trigger] old(self).graphs@[i]).name@ == "ConstructionScript"@;
                assert(self.graphs@[i] == pre[i]);
            } else {
                let last = self.graphs@.len() - 1;
                assert(self.graphs@[last].name@ == "ConstructionScript"@);
            }
        }
    }

    /// Adds a partition unless one of that name already exists.
    pub fn add_graph(&mut self, name: String, kind: GraphKind)
        ensures
            final(self).id == old(self).id,
            final(self).nodes == old(self).nodes,
            final(self).links == old(self).links,
            final(self).variables == old(self).variables,
            final(self).next_node_id == old(self).next_node_id,
            final(self).next_pin_id == old(self).next_pin_id,
            spec_has_graph(*old(self), name@) ==> final(self).graphs == old(self).graphs,
            !spec_has_graph(*old(self), name@) ==> {
                &&& final(self).graphs@.len() == old(self).graphs@.len() + 1
                &&& final(self).graphs@.subrange(0, old(self).graphs@.len() as int)
                    == old(self).graphs@
                &&& final(self).graphs@.last().name@ == name@
                &&& final(self).graphs@.last().kind == kind
            },
    {
        if self.has_graph_named(name.as_str()) {
            return;
        }
        let ghost before = self.graphs@;
        self.graphs.push(GraphDef { name, kind });
        proof {
            assert(before =~= self.graphs@.subrange(0, before.len() as int));
        }
    }

    /// Inserts a node, assigning it the next node id and remapping each of
    /// its pins to the next pin ids, in pin order. Returns the node's id.
    pub fn add_node(&mut self, node: Node) -> (r: NodeId)
        requires
            graph_wf(*old(self)),
            old(self).next_node_id < u32::MAX,
            old(self).next_pin_id + node.pins@.len() <= u32::MAX,
        ensures
            graph_wf(*final(self)),
            r == NodeId(old(self).next_node_id),
            final(self).id == old(self).id,
            final(self).graphs == old(self).graphs,
            final(self).links == old(self).links,
            final(self).variables == old(self).variables,
            final(self).next_node_id == old(self).next_node_id + 1,
            final(self).next_pin_id == old(self).next_pin_id + node.pins@.len(),
            final(self).nodes@.len() == old(self).nodes@.len() + 1,
            final(self).nodes@.subrange(0, old(self).nodes@.len() as int) == old(self).nodes@,
            ({
                let added = final(self).nodes@.last();
                &&& added.id == r
                &&& added.kind == node.kind
                &&& added.graph == node.graph
                &&& added.position == node.position
                &&& added.properties == node.properties
                &&& added.pins@.len() == node.pins@.len()
                &&& forall|j: int| 0 <= j < node.pins@.len() ==> {
                    &&& (#[trigger] added.pins@[j]).id.0 == old(self).next_pin_id + j
                    &&& added.pins@[j].name == node.pins@[j].name
                    &&& added.pins@[j].direction == node.pins@[j].direction
                    &&& added.pins@[j].data_type == node.pins@[j].data_type
                }
            }),
    {
        let node_id = NodeId(self.next_node_id);
        self.next_node_id = self.next_node_id + 1;

        let ghost node0 = node;
        let mut node = node;
        node.id = node_id;
        let m = node.pins.len();
        let mut j: usize = 0;
        while j < m
            invariant
                m == node.pins@.len(),
                j <= m,
                self.next_pin_id + (m - j) <= u32::MAX,
                self.next_pin_id == old(self).next_pin_id + j,
                forall|k: int| 0 <= k < j ==> {
                    &&& (#[trigger] node.pins@[k]).id.0 == old(self).next_pin_id + k
                    &&& node.pins@[k].name == node0.pins@[k].name
                    &&& node.pins@[k].direction == node0.pins@[k].direction
                    &&& node.pins@[k].data_type == node0.pins@[k].data_type
                },
                forall|k: int| j <= k < m ==> node.pins@[k] == node0.pins@[k],
                node.id == node_id,
                node.kind == node0.kind,
                node.graph == node0.graph,
                node.position == node0.position,
                node.properties == node0.properties,
                self.id == old(self).id,
                self.graphs == old(self).graphs,
                self.nodes == old(self).nodes,
                self.links == old(self).links,
                self.variables == old(self).variables,
                self.next_node_id == old(self).next_node_id + 1,
            decreases m - j,
        {
            let pid = self.next_pin_id;
            let mut pin = clone_pin(&node.pins[j]);
            pin.id = PinId(pid);
            node.pins.set(j, pin);
            self.next_pin_id = self.next_pin_id + 1;
            j += 1;
        }

        let ghost before = self.nodes@;
        self.nodes.push(node);
        proof {
            assert(before =~= self.nodes@.subrange(0, before.len() as int));
        }
        node_id
    }

    /// Appends a link between two pins.
    pub fn add_link(&mut self, link: Link)
        ensures
            final(self).id == old(self).id,
            final(self).graphs == old(self).graphs,
            final(self).nodes == old(self).nodes,
            final(self).variables == old(self).variables,
            final(self).next_node_id == old(self).next_node_id,
            final(self).next_pin_id == old(self).next_pin_id,
            final(self).links@ == old(self).links@.push(link),
    {
        self.links.push(link);
    }

    /// The id of the first node owning this pin, if any.
    pub fn pin_owner(&self, pin_id: PinId) -> (r: Option<NodeId>)
        ensures
            r == spec_pin_owner(*self, pin_id),
    {
        let n = self.nodes.len();
        let mut i: usize = 0;
        while i < n
            invariant
                n == self.nodes@.len(),
                i <= n,
                forall|j: int| 0 <= j < i ==> !spec_node_has_pin(#[trigger] self.nodes@[j], pin_id),
            decreases n - i,
        {
            if node_has_pin(&self.nodes[i], pin_id) {
                proof {
                    lemma_first_where_is(self.nodes@, |n: Node| spec_node_has_pin(n, pin_id), i as int);
                }
                return Some(self.nodes[i].id);
            }
            i += 1;
        }
        proof {
            lemma_first_where_none(self.nodes@, |n: Node| spec_node_has_pin(n, pin_id));
        }
        None
    }

    /// The first pin with this id, if any.
    pub fn pin(&self, pin_id: PinId) -> (r: Option<&Pin>)
        ensures
            match r {
                Some(p) => spec_graph_pin(*self, pin_id) == Some(*p),
                None => spec_graph_pin(*self, pin_id) is None,
            },
    {
        let n = self.nodes.len();
        let mut i: usize = 0;
        while i < n
            invariant
                n == self.nodes@.len(),
                i <= n,
                forall|j: int| 0 <= j < i ==> !spec_node_has_pin(#[trigger] self.nodes@[j], pin_id),
            decreases n - i,
        {
            let node = &self.nodes[i];
            let m = node.pins.len();
            let mut j: usize = 0;
            while j < m
                invariant
                    n == self.nodes@.len(),
                    i < n,
                    *node == self.nodes@[i as int],
                    m == node.pins@.len(),
                    j <= m,
                    forall|jj: int| 0 <= jj < i
                        ==> !spec_node_has_pin(#[trigger] self.nodes@[jj], pin_id),
                    forall|k: int| 0 <= k < j ==> (#[trigger] node.pins@[k]).id != pin_id,
                decreases m - j,
            {
                if node.pins[j].id.0 == pin_id.0 {
                    proof {
                        assert(node.pins@[j as int].id == pin_id);
                        assert(spec_node_has_pin(self.nodes@[i as int], pin_id));
                        lemma_first_where_is(
                            self.nodes@,
                            |n: Node| spec_node_has_pin(n, pin_id),
                            i as int,
                        );
                        lemma_first_where_is(node.pins@, |p: Pin| p.id == pin_id, j as int);
                    }
                    return Some(&node.pins[j]);
                }
                j += 1;
            }
            proof {
                assert(!spec_node_has_pin(self.nodes@[i as int], pin_id));
            }
            i += 1;
        }
        proof {
            lemma_first_where_none(self.nodes@, |n: Node| spec_node_has_pin(n, pin_id));
        }
        None
    }
}

} // verus!
