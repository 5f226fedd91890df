//! A verified core for a boolean logic-gate simulator: gates whose behaviour
//! comes from an external scripted evaluator or from a pre-compiled truth
//! table, circuits that wire gates together and propagate values breadth-first
//! from their boundary inputs, and compilation of any memory-free component
//! into an exhaustive truth table that can be embedded as a gate again.

pub mod circuit;
pub mod codec;
pub mod errors;
pub mod eval;
pub mod gate;
pub mod placement;
pub mod shape;
pub mod special;
pub mod state;
pub mod table;

pub use shape::Connection;
pub use shape::NodeId;
pub use special::ButtonGate;
pub use special::LampGate;

pub use gate::BasicGate;
pub use gate::CalcMode;
pub use gate::Gate;
pub use gate::LuaCode;
pub use gate::compile_gate_to_truth_table;

pub use circuit::Circuit;
pub use circuit::CircuitBus;
pub use circuit::Component;
pub use errors::CantCompileGate;
pub use errors::CantConnect;
pub use errors::EvaluationError;
pub use codec::TableFormatError;
pub use codec::table_json_round_trip;
pub use codec::truth_table_from_json;
pub use codec::truth_table_to_json;
pub use placement::GateProps;
pub use placement::InOutPosition;
pub use placement::Orientation;
pub use table::TruthTable;
pub use table::string_to_vec_bool;
pub use table::vec_bool_to_string;

