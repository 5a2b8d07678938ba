//! Nodes, wires and the graph document, with the editing operations.
use vstd::prelude::*;
use vstd::string::*;
use crate::scalar::{Scalar, constant_ok, is_decimal_text, is_finite_bits, within_million};
use super::pins::{NodeKind, PinType, TextureSlot, input_pins};

verus! {

/// A constant on an unconnected input pin.
#[derive(Clone, Debug, PartialEq)]
pub enum Value {
    Float(Scalar),
    Vector([Scalar; 3]),
}

pub open spec fn value_kind(v: Value) -> PinType {
    match v {
        Value::Float(_) => PinType::Float,
        Value::Vector(_) => PinType::Vector,
    }
}

/// Every component is finite and written as a decimal text.
pub open spec fn value_valid(v: Value) -> bool {
    match v {
        Value::Float(n) => constant_ok(n),
        Value::Vector(a) => constant_ok(a[0]) && constant_ok(a[1]) && constant_ok(a[2]),
    }
}

/// The components of a value.
pub open spec fn value_scalars(v: Value) -> Seq<Scalar> {
    match v {
        Value::Float(n) => seq![n],
        Value::Vector(a) => seq![a[0], a[1], a[2]],
    }
}

/// A value is valid exactly when each of its components is a finite pattern
/// written as a decimal text; nothing else about the number matters.
pub proof fn lemma_value_valid_components(v: Value)
    ensures
        value_valid(v) <==> forall|j: int| 0 <= j < value_scalars(v).len() ==>
            is_finite_bits((#[trigger] value_scalars(v)[j]).bits) && is_decimal_text(value_scalars(v)[j].text@),
        value_scalars(v) == match v {
            Value::Float(n) => seq![n],
            Value::Vector(a) => seq![a[0], a[1], a[2]],
        },
{
    match v {
        Value::Float(n) => {
            assert(value_scalars(v)[0] == n);
        },
        Value::Vector(a) => {
            assert(value_scalars(v)[0] == a[0]);
            assert(value_scalars(v)[1] == a[1]);
            assert(value_scalars(v)[2] == a[2]);
        },
    }
}

impl Value {
    pub fn kind(&self) -> (r: PinType)
        ensures
            r == value_kind(*self),
    {
        match self {
            Value::Float(_) => PinType::Float,
            Value::Vector(_) => PinType::Vector,
        }
    }

    pub fn valid(&self) -> (r: bool)
        ensures
            r == value_valid(*self),
    {
        match self {
            Value::Float(n) => n.is_constant_ok(),
            Value::Vector(v) => v[0].is_constant_ok() && v[1].is_constant_ok() && v[2].is_constant_ok(),
        }
    }
}

#[derive(Clone, Debug, PartialEq)]
pub struct Node {
    pub id: u32,
    pub position: [Scalar; 2],
    pub kind: NodeKind,
    pub inputs: Vec<Value>,
    pub slot: TextureSlot,
}

/// The constant a new node puts on input `port`: (bits, decimal text).
/// Lerp's Factor starts at 0.5, a Color at white, everything else at zero.
pub open spec fn default_scalar(kind: NodeKind, port: int) -> (u32, Seq<char>) {
    let pin = input_pins(kind)[port];
    match pin.1 {
        PinType::Float => if kind == NodeKind::Lerp && pin.0 == "Factor"@ {
            (0x3f00_0000u32, "0.5"@)
        } else {
            (0u32, "0"@)
        },
        PinType::Vector => if kind == NodeKind::Color {
            (0x3f80_0000u32, "1"@)
        } else {
            (0u32, "0"@)
        },
    }
}

/// `v` is the constant a new node of `kind` puts on input `port`.
pub open spec fn is_default_input(kind: NodeKind, port: int, v: Value) -> bool {
    &&& value_kind(v) == input_pins(kind)[port].1
    &&& forall|j: int| 0 <= j < value_scalars(v).len() ==>
        (#[trigger] value_scalars(v)[j]).bits == default_scalar(kind, port).0
            && value_scalars(v)[j].text@ == default_scalar(kind, port).1
}

/// One value per input pin, of the pin's type, every component finite.
pub open spec fn inputs_ok(n: Node) -> bool {
    &&& n.inputs@.len() == input_pins(n.kind).len()
    &&& forall|i: int| 0 <= i < n.inputs@.len() ==>
        value_kind(#[trigger] n.inputs@[i]) == input_pins(n.kind)[i].1 && value_valid(n.inputs@[i])
}

/// Both coordinates finite and within one million.
pub open spec fn position_ok(n: Node) -> bool {
    within_million(n.position[0].bits) && within_million(n.position[1].bits)
}

proof fn lemma_default_texts_decimal()
    ensures
        is_decimal_text("0"@),
        is_decimal_text("0.5"@),
        is_decimal_text("1"@),
{
    reveal_strlit("0");
    reveal_strlit("0.5");
    reveal_strlit("1");
    let h = "0.5"@;
    assert(h.len() == 3 && h[0] == '0' && h[1] == '.' && h[2] == '5');
    assert forall|i: int, j: int| #![trigger h[i], h[j]] 0 <= i < j < h.len() && h[i] == '.' implies h[j] != '.' by {
        assert(i == 1);
    }
}

fn default_value(kind: NodeKind, port: usize, t: PinType) -> (v: Value)
    requires
        port < input_pins(kind).len(),
        t == input_pins(kind)[port as int].1,
    ensures
        is_default_input(kind, port as int, v),
{
    proof {
        reveal_strlit("A");
        reveal_strlit("B");
        reveal_strlit("Factor");
        if kind == NodeKind::Lerp {
            assert("A"@.len() == 1 && "B"@.len() == 1 && "Factor"@.len() == 6);
            assert(input_pins(kind)[port as int].0 == "Factor"@ <==> port == 2);
        }
    }
    match t {
        PinType::Float => {
            if kind == NodeKind::Lerp && port == 2 {
                Value::Float(Scalar::half())
            } else {
                Value::Float(Scalar::zero())
            }
        },
        PinType::Vector => {
            if kind == NodeKind::Color {
                Value::Vector([Scalar::one(), Scalar::one(), Scalar::one()])
            } else {
                Value::Vector([Scalar::zero(), Scalar::zero(), Scalar::zero()])
            }
        },
    }
}

impl Node {
    pub fn new(id: u32, kind: NodeKind, position: [Scalar; 2]) -> (r: Node)
        ensures
            r.id == id,
            r.kind == kind,
            r.position == position,
            r.slot == TextureSlot::BaseColor,
            r.inputs@.len() == input_pins(kind).len(),
            forall|i: int| 0 <= i < r.inputs@.len() ==> is_default_input(kind, i, #[trigger] r.inputs@[i]),
            inputs_ok(r),
    {
        let pins = kind.inputs();
        let mut inputs: Vec<Value> = Vec::new();
        let mut i: usize = 0;
        while i < pins.len()
            invariant
                i <= pins@.len(),
                pins@.len() == input_pins(kind).len(),
                super::pins::pin_table_view(pins@) == input_pins(kind),
                forall|j: int| 0 <= j < pins@.len() ==> (#[trigger] pins@[j]).1 == input_pins(kind)[j].1,
                inputs@.len() == i,
                forall|j: int| 0 <= j < i ==> is_default_input(kind, j, #[trigger] inputs@[j]),
            decreases pins@.len() - i,
        {
            proof {
                assert(super::pins::pin_table_view(pins@)[i as int] == input_pins(kind)[i as int]);
            }
            let v = default_value(kind, i, pins[i].1);
            inputs.push(v);
            i = i + 1;
        }
        let r = Node { id, position, kind, inputs, slot: TextureSlot::BaseColor };
        assert forall|j: int| 0 <= j < r.inputs@.len() implies value_kind(#[trigger] r.inputs@[j]) == input_pins(kind)[j].1
            && value_valid(r.inputs@[j]) by {
            assert(is_default_input(kind, j, r.inputs@[j]));
            lemma_default_texts_decimal();
            assert(value_scalars(r.inputs@[j]).len() >= 1);
            match r.inputs@[j] {
                Value::Float(n) => { assert(value_scalars(r.inputs@[j])[0] == n); },
                Value::Vector(a) => {
                    assert(value_scalars(r.inputs@[j])[0] == a[0]);
                    assert(value_scalars(r.inputs@[j])[1] == a[1]);
                    assert(value_scalars(r.inputs@[j])[2] == a[2]);
                },
            }
        }
        r
    }
}

#[derive(Clone, Copy, Debug, PartialEq, Eq, PartialOrd, Ord, Structural)]
pub struct Socket {
    pub node: u32,
    pub port: usize,
}

#[derive(Clone, Copy, Debug, PartialEq, Eq, Structural)]
pub struct Wire {
    pub from: Socket,
    pub to: Socket,
}

#[derive(Clone, Debug, PartialEq)]
pub struct ShaderGraph {
    pub version: u32,
    pub name: String,
    pub nodes: Vec<Node>,
    pub wires: Vec<Wire>,
}

} // verus!
