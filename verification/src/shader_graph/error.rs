//! Why a shader graph was refused.
use vstd::prelude::*;
use vstd::string::*;
use crate::text::{decimal, push_decimal};

verus! {

#[derive(Clone, Copy, Debug, PartialEq, Eq, Structural)]
pub enum GraphError {
    /// The JSON document exceeds 1 MiB.
    SourceTooLarge,
    UnsupportedVersion,
    InvalidName,
    /// More than 128 nodes or 512 wires.
    TooLarge,
    DuplicateNodeId,
    InvalidPosition,
    /// The node with this ID has inputs that do not match its pins.
    InvalidInputs(u32),
    MasterCount,
    MissingNode,
    InvalidOutputPin,
    InvalidInputPin,
    PinTypeMismatch,
    InputAlreadyConnected,
    Cycle,
}

pub open spec fn error_message(e: GraphError) -> Seq<char> {
    match e {
        GraphError::SourceTooLarge => "shader graph exceeds 1 MiB"@,
        GraphError::UnsupportedVersion => "unsupported shader graph version"@,
        GraphError::InvalidName => "shader graph needs a name (1\u{2013}128 bytes)"@,
        GraphError::TooLarge => "shader graph limit: 128 nodes, 512 wires"@,
        GraphError::DuplicateNodeId => "duplicate shader graph node ID"@,
        GraphError::InvalidPosition => "invalid node position"@,
        GraphError::InvalidInputs(id) => "invalid inputs on node "@ + decimal(id as nat),
        GraphError::MasterCount => "shader graph needs exactly one Master node"@,
        GraphError::MissingNode => "missing shader graph node"@,
        GraphError::InvalidOutputPin => "invalid output pin"@,
        GraphError::InvalidInputPin => "invalid input pin"@,
        GraphError::PinTypeMismatch => "pin types do not match"@,
        GraphError::InputAlreadyConnected => "input already connected"@,
        GraphError::Cycle => "shader graphs cannot cycle"@,
    }
}

impl GraphError {
    /// The human-readable message for the editor status line.
    pub fn message(&self) -> (r: String)
        ensures
            r@ == error_message(*self),
    {
        let mut r = String::new();
        match self {
            GraphError::SourceTooLarge => r.append("shader graph exceeds 1 MiB"),
            GraphError::UnsupportedVersion => r.append("unsupported shader graph version"),
            GraphError::InvalidName => r.append("shader graph needs a name (1\u{2013}128 bytes)"),
            GraphError::TooLarge => r.append("shader graph limit: 128 nodes, 512 wires"),
            GraphError::DuplicateNodeId => r.append("duplicate shader graph node ID"),
            GraphError::InvalidPosition => r.append("invalid node position"),
            GraphError::InvalidInputs(id) => {
                r.append("invalid inputs on node ");
                push_decimal(&mut r, *id as u64);
            },
            GraphError::MasterCount => r.append("shader graph needs exactly one Master node"),
            GraphError::MissingNode => r.append("missing shader graph node"),
            GraphError::InvalidOutputPin => r.append("invalid output pin"),
            GraphError::InvalidInputPin => r.append("invalid input pin"),
            GraphError::PinTypeMismatch => r.append("pin types do not match"),
            GraphError::InputAlreadyConnected => r.append("input already connected"),
            GraphError::Cycle => r.append("shader graphs cannot cycle"),
        }
        r
    }
}

} // verus!
