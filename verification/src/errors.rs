//! Error taxonomy: wiring errors, compilation refusal, and failures reported
//! by the scripted evaluator.

use vstd::prelude::*;

verus! {

/// Why two endpoints could not be wired. All wiring errors are recoverable
/// and leave the circuit unchanged.
#[derive(Debug, Clone, Copy, PartialEq, Eq, Structural)]
pub enum CantConnect {
    /// The boundary-input index is not smaller than the number of boundary inputs.
    InputOutOfRange,
    /// The boundary-output index is not smaller than the number of boundary outputs.
    OutputOutOfRange,
    /// The named member was never registered in the circuit.
    GateNotInCircuit,
    /// Some connection already feeds the requested boundary output.
    OutputAlreadyConnected,
}

impl CantConnect {
    pub fn message(&self) -> String {
        match self {
            CantConnect::InputOutOfRange => String::from_str("input number out of range"),
            CantConnect::OutputOutOfRange => String::from_str("output number out of range"),
            CantConnect::GateNotInCircuit => String::from_str("gate not in circuit"),
            CantConnect::OutputAlreadyConnected => String::from_str(
                "output already has a producing connection",
            ),
        }
    }
}

/// The compilation target holds memory, directly or in a member, or a member
/// failed while the input space was being enumerated.
#[derive(Debug, Clone, Copy, PartialEq, Eq, Structural)]
pub struct CantCompileGate;

impl CantCompileGate {
    pub fn message(&self) -> String {
        String::from_str("can't compile gate to truth table")
    }
}

/// A scripted evaluation failed.
#[derive(Debug)]
pub enum EvaluationError {
    /// The script does not declare the mandatory arity metadata.
    MissingMetadata,
    /// The script returned an output vector whose length disagrees with the
    /// declared arity or with the output pin count.
    OutputArityMismatch,
    /// The script left a memory vector of a different length than it found.
    MemoryArityMismatch,
    /// The evaluator itself reported an error while running the script.
    Script(String),
}

impl EvaluationError {
    pub fn message(&self) -> String {
        match self {
            EvaluationError::MissingMetadata => String::from_str(
                "script lacks NUM_OF_INS or NUM_OF_OUTS",
            ),
            EvaluationError::OutputArityMismatch => String::from_str(
                "script returned an output vector of the wrong length",
            ),
            EvaluationError::MemoryArityMismatch => String::from_str(
                "script left a memory vector of the wrong length",
            ),
            EvaluationError::Script(s) => s.clone(),
        }
    }
}

} // verus!
