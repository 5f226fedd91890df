//! Circuits: an arena of member components addressed by index, wired by
//! `Connection`s, with boundary buses marking where external inputs and
//! outputs attach. A circuit is itself a component, so a compiled circuit
//! can be registered as a single member inside a larger one.

use vstd::prelude::*;
use vstd::string::*;
use crate::errors::CantCompileGate;
use crate::errors::CantConnect;
use crate::errors::EvaluationError;
use crate::gate::BasicGate;
use crate::gate::CalcMode;
use crate::gate::GateState;
use crate::gate::table_step;
use crate::shape::CircuitShape;
use crate::shape::CompShape;
use crate::shape::Connection;
use crate::shape::NodeId;
use crate::shape::circuit_shape_wf;
use crate::shape::lemma_member_depth;
use crate::shape::lemma_members_compilable_all;
use crate::shape::lemma_members_compilable_at;
use crate::shape::lemma_members_script_free_at;
use crate::shape::input_bus_targeted;
use crate::shape::lemma_members_wf_all;
use crate::shape::lemma_members_wf_at;
use crate::shape::member_pin_targeted;
use crate::shape::members_compilable;
use crate::shape::members_script_free;
use crate::shape::output_bus_targeted;
use crate::shape::shape_compilable;
use crate::shape::shape_conn_valid;
use crate::shape::shape_checks_input_index;
use crate::shape::shape_depth;
use crate::shape::shape_n_inputs;
use crate::shape::shape_n_outputs;
use crate::shape::shape_node_checks_input;
use crate::shape::shape_node_in_arity;
use crate::shape::shape_node_out_arity;
use crate::shape::shape_node_valid;
use crate::shape::shape_script_free;
use crate::shape::shape_wf;
use crate::special::ButtonGate;
use crate::state::CircState;
use crate::state::CompState;
use crate::state::FrontResult;
use crate::state::compile_row_outputs;
use crate::state::compile_step_state;
use crate::state::conns_from;
use crate::state::count_falses;
use crate::state::front_from;
use crate::state::initial_frontier;
use crate::state::lemma_count_falses_update;
use crate::state::member_with_input;
use crate::state::spec_node_slot;
use crate::state::state_calc_member;
use crate::state::state_node_output;
use crate::state::state_rounds;
use crate::state::state_sweep;
use crate::state::state_write_input;
use crate::state::with_inputs;
use crate::special::LampGate;
use crate::table::TruthTable;
use crate::table::index_to_pattern;
use crate::table::pattern_of;
use crate::table::pow2_usize;
use crate::table::two_pow;

verus! {

broadcast use vstd::std_specs::vec::group_vec_axioms;

/// A boundary bus: one pin whose input and output alias the same value, so
/// the same object serves as an external write target and an internal read
/// source, or the other way around.
pub struct CircuitBus {
    pub mem: bool,
}

impl CircuitBus {
    pub fn new() -> (r: CircuitBus)
        ensures
            r.mem == false,
    {
        CircuitBus { mem: false }
    }

    pub fn get_name(&self) -> (r: String)
        ensures
            r@ == "BUS"@,
    {
        String::from_str("BUS")
    }

    pub fn get_inputs(&self) -> (r: Vec<bool>)
        ensures
            r@ == seq![self.mem],
    {
        let mut v: Vec<bool> = Vec::new();
        v.push(self.mem);
        proof {
            assert(v@ =~= seq![self.mem]);
        }
        v
    }

    pub fn get_outputs(&self) -> (r: Vec<bool>)
        ensures
            r@ == seq![self.mem],
    {
        self.get_inputs()
    }

    /// Writing either pin of a bus updates its one value; the index is
    /// ignored.
    pub fn set_input(&mut self, _index: usize, value: bool)
        ensures
            final(self).mem == value,
    {
        self.mem = value;
    }

    pub fn set_output(&mut self, _index: usize, value: bool)
        ensures
            final(self).mem == value,
    {
        self.mem = value;
    }

    /// A bus computes nothing: it passes its value through.
    pub fn calculate(&mut self) -> (r: Result<(), EvaluationError>)
        ensures
            *final(self) == *old(self),
            r is Ok,
    {
        Ok(())
    }

    pub fn compilable(&self) -> (r: bool)
        ensures
            r,
    {
        true
    }

    pub fn get_input_num(&self) -> (r: usize)
        ensures
            r == 1,
    {
        1
    }

    pub fn get_output_num(&self) -> (r: usize)
        ensures
            r == 1,
    {
        1
    }

    /// The truth table of a pass-through: each value maps to itself.
    pub fn compile(&self) -> (r: Result<TruthTable, CantCompileGate>)
        ensures
            r matches Ok(t) && t.wf() && t.spec_len() == 2 && t@ == Map::<Seq<bool>, Seq<bool>>::empty()
                .insert(seq![false], seq![false]).insert(seq![true], seq![true]),
    {
        let mut t = TruthTable::new();
        let mut k0: Vec<bool> = Vec::new();
        k0.push(false);
        let mut v0: Vec<bool> = Vec::new();
        v0.push(false);
        let mut k1: Vec<bool> = Vec::new();
        k1.push(true);
        let mut v1: Vec<bool> = Vec::new();
        v1.push(true);
        proof {
            assert(k0@ =~= seq![false]);
            assert(v0@ =~= seq![false]);
            assert(k1@ =~= seq![true]);
            assert(v1@ =~= seq![true]);
            assert(seq![false][0] == false && seq![true][0] == true);
        }
        t.add(k0, v0);
        t.add(k1, v1);
        Ok(t)
    }
}

/// One member of a circuit: a primitive gate, a nested circuit, a boundary
/// bus, a button or a lamp. A tagged variant stands in for polymorphism over
/// the component capability set.
pub enum Component {
    Basic(BasicGate),
    Composite(Circuit),
    Bus(CircuitBus),
    Button(ButtonGate),
    Lamp(LampGate),
}

/// A circuit: registered members (each tagged with a caller-supplied
/// identity), the connections among them, and boundary buses. Members and
/// buses are addressed by index, so node identity is a plain integer.
pub struct Circuit {
    pub name: String,
    pub gates: Vec<Component>,
    pub gate_ids: Vec<u128>,
    pub connections: Vec<Connection>,
    pub inputs: Vec<CircuitBus>,
    pub outputs: Vec<CircuitBus>,
}

/// The shapes of a member sequence, index by index.
pub open spec fn members_shapes(gates: Seq<Component>) -> Seq<CompShape>
    decreases gates,
{
    Seq::new(
        gates.len(),
        |i: int|
            if 0 <= i < gates.len() {
                gates[i].shape()
            } else {
                CompShape::Bus
            },
    )
}

/// The value states of a member sequence, index by index.
pub open spec fn members_states(gates: Seq<Component>) -> Seq<CompState>
    decreases gates,
{
    Seq::new(
        gates.len(),
        |i: int|
            if 0 <= i < gates.len() {
                gates[i].state()
            } else {
                CompState::Bus(false)
            },
    )
}

impl Component {
    /// The values this component currently holds.
    pub open spec fn state(self) -> CompState
        decreases self,
    {
        match self {
            Component::Basic(g) => CompState::Basic {
                inputs: g.gate@.inputs,
                outputs: g.gate@.outputs,
                memory: g.gate@.memory,
            },
            Component::Composite(c) => CompState::Composite(c.state()),
            Component::Bus(b) => CompState::Bus(b.mem),
            Component::Button(b) => CompState::Button(b.state),
            Component::Lamp(l) => CompState::Lamp(l.state),
        }
    }

    /// What a recomputation pass preserves of this component.
    pub open spec fn shape(self) -> CompShape
        decreases self,
    {
        match self {
            Component::Basic(g) => CompShape::Basic {
                name: g.gate@.name,
                n_in: g.gate@.inputs.len(),
                n_out: g.gate@.outputs.len(),
                n_mem: g.gate@.memory.len(),
                mode: g.calc_mode,
            },
            Component::Composite(c) => CompShape::Composite(c.shape()),
            Component::Bus(_) => CompShape::Bus,
            Component::Button(_) => CompShape::Button,
            Component::Lamp(_) => CompShape::Lamp,
        }
    }

    pub open spec fn wf(self) -> bool {
        shape_wf(self.shape())
    }

    pub open spec fn n_inputs(self) -> nat {
        shape_n_inputs(self.shape())
    }

    pub open spec fn n_outputs(self) -> nat {
        shape_n_outputs(self.shape())
    }

    /// The value on output pin `i`.
    pub open spec fn output_val(self, i: int) -> bool {
        match self {
            Component::Basic(g) => g.gate@.outputs[i],
            Component::Composite(c) => c.outputs@[i].mem,
            Component::Bus(b) => b.mem,
            Component::Button(b) => b.state,
            Component::Lamp(_) => false,
        }
    }

    /// The value on input pin `i`.
    pub open spec fn input_val(self, i: int) -> bool {
        match self {
            Component::Basic(g) => g.gate@.inputs[i],
            Component::Composite(c) => c.inputs@[i].mem,
            Component::Bus(b) => b.mem,
            Component::Button(_) => false,
            Component::Lamp(l) => l.state,
        }
    }
}

impl Circuit {
    /// The values this circuit currently holds.
    pub open spec fn state(self) -> CircState
        decreases self,
    {
        CircState {
            inputs: self.input_vals(),
            outputs: self.output_vals(),
            members: members_states(self.gates@),
        }
    }

    /// What a recomputation pass preserves of this circuit.
    pub open spec fn shape(self) -> CircuitShape
        decreases self,
    {
        CircuitShape {
            name: self.name@,
            ids: self.gate_ids@,
            connections: self.connections@,
            n_in: self.inputs@.len(),
            n_out: self.outputs@.len(),
            members: members_shapes(self.gates@),
        }
    }

    pub open spec fn wf(self) -> bool {
        circuit_shape_wf(self.shape())
    }

    /// The values on the boundary-input buses.
    pub open spec fn input_vals(self) -> Seq<bool> {
        Seq::new(self.inputs@.len(), |i: int| self.inputs@[i].mem)
    }

    /// The values on the boundary-output buses.
    pub open spec fn output_vals(self) -> Seq<bool> {
        Seq::new(self.outputs@.len(), |i: int| self.outputs@[i].mem)
    }

    /// Whether a node name refers to an actual node of this circuit.
    pub open spec fn node_valid(self, n: NodeId) -> bool {
        shape_node_valid(self.shape(), n)
    }

    /// Whether a connection can be applied without running off a pin vector.
    pub open spec fn conn_ok(self, c: Connection) -> bool {
        shape_conn_valid(self.shape(), c)
    }

    /// The current value on an output pin of a node.
    pub open spec fn node_output_val(self, n: NodeId, pin: int) -> bool {
        match n {
            NodeId::BoundaryInput(i) => self.inputs@[i as int].mem,
            NodeId::BoundaryOutput(i) => self.outputs@[i as int].mem,
            NodeId::Gate(g) => self.gates@[g as int].output_val(pin),
        }
    }

    /// An empty circuit of the given name.
    pub fn new(name: String) -> (r: Circuit)
        ensures
            r.name@ == name@,
            r.gates@.len() == 0,
            r.gate_ids@.len() == 0,
            r.connections@.len() == 0,
            r.inputs@.len() == 0,
            r.outputs@.len() == 0,
            r.wf(),
    {
        let r = Circuit {
            name,
            gates: Vec::new(),
            gate_ids: Vec::new(),
            connections: Vec::new(),
            inputs: Vec::new(),
            outputs: Vec::new(),
        };
        proof {
            assert(members_shapes(r.gates@) =~= Seq::<CompShape>::empty());
        }
        r
    }

    pub fn get_name(&self) -> (r: String)
        ensures
            r@ == self.name@,
    {
        self.name.clone()
    }

    pub fn get_gate_num(&self) -> (r: usize)
        ensures
            r == self.gates@.len(),
    {
        self.gates.len()
    }

    pub fn get_input_num(&self) -> (r: usize)
        ensures
            r == self.inputs@.len(),
    {
        self.inputs.len()
    }

    pub fn get_output_num(&self) -> (r: usize)
        ensures
            r == self.outputs@.len(),
    {
        self.outputs.len()
    }

    /// Index of the first registered member tagged with the given identity.
    pub fn find_gate(&self, id: u128) -> (r: Option<usize>)
        ensures
            match r {
                Some(i) => i < self.gate_ids@.len() && self.gate_ids@[i as int] == id && (forall|
                    j: int,
                | 0 <= j < i ==> self.gate_ids@[j] != id),
                None => forall|j: int| 0 <= j < self.gate_ids@.len() ==> self.gate_ids@[j] != id,
            },
    {
        let mut i: usize = 0;
        while i < self.gate_ids.len()
            invariant
                i <= self.gate_ids@.len(),
                forall|j: int| 0 <= j < i ==> self.gate_ids@[j] != id,
            decreases self.gate_ids@.len() - i,
        {
            if self.gate_ids[i] == id {
                return Some(i);
            }
            i = i + 1;
        }
        None
    }

    /// Register a boundary-input bus; its index addresses it from now on.
    pub fn add_input(&mut self, input: CircuitBus) -> (idx: usize)
        requires
            old(self).inputs@.len() + old(self).gates@.len() + old(self).outputs@.len()
                < usize::MAX,
        ensures
            idx == old(self).inputs@.len(),
            final(self).inputs@ == old(self).inputs@.push(input),
            final(self).name == old(self).name,
            final(self).gates@ == old(self).gates@,
            final(self).gate_ids@ == old(self).gate_ids@,
            final(self).connections@ == old(self).connections@,
            final(self).outputs@ == old(self).outputs@,
            old(self).wf() ==> final(self).wf(),
    {
        let idx = self.inputs.len();
        self.inputs.push(input);
        proof {
            if old(self).wf() {
                lemma_wf_after_boundary_growth(*old(self), *self);
            }
        }
        idx
    }

    /// Register a boundary-output bus; its index addresses it from now on.
    pub fn add_output(&mut self, output: CircuitBus) -> (idx: usize)
        requires
            old(self).inputs@.len() + old(self).gates@.len() + old(self).outputs@.len()
                < usize::MAX,
        ensures
            idx == old(self).outputs@.len(),
            final(self).outputs@ == old(self).outputs@.push(output),
            final(self).name == old(self).name,
            final(self).gates@ == old(self).gates@,
            final(self).gate_ids@ == old(self).gate_ids@,
            final(self).connections@ == old(self).connections@,
            final(self).inputs@ == old(self).inputs@,
            old(self).wf() ==> final(self).wf(),
    {
        let idx = self.outputs.len();
        self.outputs.push(output);
        proof {
            if old(self).wf() {
                lemma_wf_after_boundary_growth(*old(self), *self);
            }
        }
        idx
    }

    /// Register a member, tagged with a caller-supplied identity; the
    /// returned index addresses it from now on.
    pub fn add_gate(&mut self, gate: Component, id: u128) -> (idx: usize)
        requires
            old(self).inputs@.len() + old(self).gates@.len() + old(self).outputs@.len()
                < usize::MAX,
        ensures
            idx == old(self).gates@.len(),
            final(self).gates@ == old(self).gates@.push(gate),
            final(self).gate_ids@ == old(self).gate_ids@.push(id),
            final(self).name == old(self).name,
            final(self).connections@ == old(self).connections@,
            final(self).inputs@ == old(self).inputs@,
            final(self).outputs@ == old(self).outputs@,
            (old(self).wf() && gate.wf()) ==> final(self).wf(),
    {
        let idx = self.gates.len();
        self.gates.push(gate);
        self.gate_ids.push(id);
        proof {
            assert(members_shapes(self.gates@) =~= members_shapes(old(self).gates@).push(
                gate.shape(),
            ));
            if old(self).wf() && gate.wf() {
                lemma_wf_after_member_growth(*old(self), *self, gate);
            }
        }
        idx
    }

    /// Record an unconditional internal wire. No endpoint or pin validation
    /// happens here, unlike the boundary wiring calls: an out-of-range
    /// connection is accepted and only rejected by `calculate`'s
    /// well-formedness demand.
    pub fn connect(&mut self, src_gate: NodeId, src_index: usize, dest_gate: NodeId, dest_index: usize)
        ensures
            final(self).connections@ == old(self).connections@.push(
                Connection { src_gate, src_index, dest_gate, dest_index },
            ),
            final(self).name == old(self).name,
            final(self).gates@ == old(self).gates@,
            final(self).gate_ids@ == old(self).gate_ids@,
            final(self).inputs@ == old(self).inputs@,
            final(self).outputs@ == old(self).outputs@,
            (old(self).wf() && old(self).conn_ok(
                Connection { src_gate, src_index, dest_gate, dest_index },
            )) ==> final(self).wf(),
    {
        let conn = Connection::new(src_gate, src_index, dest_gate, dest_index);
        self.connections.push(conn);
        proof {
            lemma_wf_after_connection_push(*old(self), *self, conn);
        }
    }

    /// Wire boundary input `input_num` to pin `dest_in_num` of member `gate`.
    /// Fails, leaving the circuit unchanged, when the input index or the
    /// member index is out of range; the pin index is not validated.
    pub fn conn_input_to_gate(&mut self, input_num: usize, gate: usize, dest_in_num: usize) -> (r:
        Result<(), CantConnect>)
        ensures
            r == Err::<(), CantConnect>(CantConnect::InputOutOfRange) <==> input_num >= old(
                self,
            ).inputs@.len(),
            r == Err::<(), CantConnect>(CantConnect::GateNotInCircuit) <==> (input_num < old(
                self,
            ).inputs@.len() && gate >= old(self).gates@.len()),
            r is Err ==> *final(self) == *old(self),
            r is Ok <==> (input_num < old(self).inputs@.len() && gate < old(self).gates@.len()),
            r is Ok ==> final(self).connections@ == old(self).connections@.push(
                Connection {
                    src_gate: NodeId::BoundaryInput(input_num),
                    src_index: 0,
                    dest_gate: NodeId::Gate(gate),
                    dest_index: dest_in_num,
                },
            ) && final(self).name == old(self).name && final(self).gates@ == old(self).gates@
                && final(self).gate_ids@ == old(self).gate_ids@ && final(self).inputs@ == old(
                self,
            ).inputs@ && final(self).outputs@ == old(self).outputs@,
            (r is Ok && old(self).wf() && old(self).conn_ok(
                Connection {
                    src_gate: NodeId::BoundaryInput(input_num),
                    src_index: 0,
                    dest_gate: NodeId::Gate(gate),
                    dest_index: dest_in_num,
                },
            )) ==> final(self).wf(),
    {
        if input_num >= self.inputs.len() {
            return Err(CantConnect::InputOutOfRange);
        }
        if gate >= self.gates.len() {
            return Err(CantConnect::GateNotInCircuit);
        }
        let conn = Connection::new(
            NodeId::BoundaryInput(input_num),
            0,
            NodeId::Gate(gate),
            dest_in_num,
        );
        self.connections.push(conn);
        proof {
            lemma_wf_after_connection_push(*old(self), *self, conn);
        }
        Ok(())
    }

    /// Wire pin `src_out_num` of member `gate` to boundary output
    /// `output_num`. Fails, leaving the circuit unchanged, when the output
    /// index or the member index is out of range, or when some connection
    /// already feeds that boundary output; each boundary output accepts at
    /// most one producer.
    pub fn conn_gate_to_output(&mut self, output_num: usize, gate: usize, src_out_num: usize) -> (r:
        Result<(), CantConnect>)
        ensures
            r == Err::<(), CantConnect>(CantConnect::OutputOutOfRange) <==> output_num >= old(
                self,
            ).outputs@.len(),
            r == Err::<(), CantConnect>(CantConnect::GateNotInCircuit) <==> (output_num < old(
                self,
            ).outputs@.len() && gate >= old(self).gates@.len()),
            r == Err::<(), CantConnect>(CantConnect::OutputAlreadyConnected) <==> (output_num < old(
                self,
            ).outputs@.len() && gate < old(self).gates@.len() && exists|i: int|
                0 <= i < old(self).connections@.len() && (#[trigger] old(
                    self,
                ).connections@[i]).dest_gate == NodeId::BoundaryOutput(output_num)),
            r is Err ==> *final(self) == *old(self),
            r is Ok <==> (output_num < old(self).outputs@.len() && gate < old(self).gates@.len()
                && !(exists|i: int|
                0 <= i < old(self).connections@.len() && (#[trigger] old(
                    self,
                ).connections@[i]).dest_gate == NodeId::BoundaryOutput(output_num))),
            r is Ok ==> final(self).connections@ == old(self).connections@.push(
                Connection {
                    src_gate: NodeId::Gate(gate),
                    src_index: src_out_num,
                    dest_gate: NodeId::BoundaryOutput(output_num),
                    dest_index: 0,
                },
            ) && final(self).name == old(self).name && final(self).gates@ == old(self).gates@
                && final(self).gate_ids@ == old(self).gate_ids@ && final(self).inputs@ == old(
                self,
            ).inputs@ && final(self).outputs@ == old(self).outputs@,
            (r is Ok && old(self).wf() && old(self).conn_ok(
                Connection {
                    src_gate: NodeId::Gate(gate),
                    src_index: src_out_num,
                    dest_gate: NodeId::BoundaryOutput(output_num),
                    dest_index: 0,
                },
            )) ==> final(self).wf(),
    {
        if output_num >= self.outputs.len() {
            return Err(CantConnect::OutputOutOfRange);
        }
        if gate >= self.gates.len() {
            return Err(CantConnect::GateNotInCircuit);
        }
        let mut i: usize = 0;
        while i < self.connections.len()
            invariant
                *self == *old(self),
                output_num < self.outputs@.len(),
                gate < self.gates@.len(),
                i <= self.connections@.len(),
                forall|j: int|
                    0 <= j < i ==> (#[trigger] self.connections@[j]).dest_gate
                        != NodeId::BoundaryOutput(output_num),
            decreases self.connections@.len() - i,
        {
            if self.connections[i].dest_gate == NodeId::BoundaryOutput(output_num) {
                return Err(CantConnect::OutputAlreadyConnected);
            }
            i = i + 1;
        }
        let conn = Connection::new(
            NodeId::Gate(gate),
            src_out_num,
            NodeId::BoundaryOutput(output_num),
            0,
        );
        self.connections.push(conn);
        proof {
            lemma_wf_after_connection_push(*old(self), *self, conn);
        }
        Ok(())
    }

    /// The boundary-input values, first bus first.
    pub fn get_inputs(&self) -> (r: Vec<bool>)
        ensures
            r@ == self.input_vals(),
    {
        let mut r: Vec<bool> = Vec::new();
        let mut i: usize = 0;
        while i < self.inputs.len()
            invariant
                i <= self.inputs@.len(),
                r@.len() == i,
                forall|j: int| 0 <= j < i ==> r@[j] == self.inputs@[j].mem,
            decreases self.inputs@.len() - i,
        {
            r.push(self.inputs[i].mem);
            i = i + 1;
        }
        proof {
            assert(r@ =~= self.input_vals());
        }
        r
    }

    /// The boundary-output values, first bus first.
    pub fn get_outputs(&self) -> (r: Vec<bool>)
        ensures
            r@ == self.output_vals(),
    {
        let mut r: Vec<bool> = Vec::new();
        let mut i: usize = 0;
        while i < self.outputs.len()
            invariant
                i <= self.outputs@.len(),
                r@.len() == i,
                forall|j: int| 0 <= j < i ==> r@[j] == self.outputs@[j].mem,
            decreases self.outputs@.len() - i,
        {
            r.push(self.outputs[i].mem);
            i = i + 1;
        }
        proof {
            assert(r@ =~= self.output_vals());
        }
        r
    }

    /// Write a boundary-input bus. Writing the bus's input and output pins
    /// aliases the same value.
    pub fn set_input(&mut self, index: usize, value: bool)
        requires
            index < old(self).inputs@.len(),
        ensures
            final(self).inputs@ == old(self).inputs@.update(index as int, CircuitBus { mem: value }),
            final(self).name == old(self).name,
            final(self).gates@ == old(self).gates@,
            final(self).gate_ids@ == old(self).gate_ids@,
            final(self).connections@ == old(self).connections@,
            final(self).outputs@ == old(self).outputs@,
            final(self).shape() == old(self).shape(),
            final(self).input_vals() == old(self).input_vals().update(index as int, value),
    {
        self.inputs[index] = CircuitBus { mem: value };
        proof {
            assert(self.shape() =~= old(self).shape()) by {
                assert(members_shapes(self.gates@) =~= members_shapes(old(self).gates@));
            }
            assert(self.input_vals() =~= old(self).input_vals().update(index as int, value));
        }
    }

    /// Write a boundary-output bus.
    pub fn set_output(&mut self, index: usize, value: bool)
        requires
            index < old(self).outputs@.len(),
        ensures
            final(self).outputs@ == old(self).outputs@.update(
                index as int,
                CircuitBus { mem: value },
            ),
            final(self).name == old(self).name,
            final(self).gates@ == old(self).gates@,
            final(self).gate_ids@ == old(self).gate_ids@,
            final(self).connections@ == old(self).connections@,
            final(self).inputs@ == old(self).inputs@,
            final(self).shape() == old(self).shape(),
            final(self).output_vals() == old(self).output_vals().update(index as int, value),
    {
        self.outputs[index] = CircuitBus { mem: value };
        proof {
            assert(self.shape() =~= old(self).shape()) by {
                assert(members_shapes(self.gates@) =~= members_shapes(old(self).gates@));
            }
            assert(self.output_vals() =~= old(self).output_vals().update(index as int, value));
        }
    }
}

/// Growing a boundary (with members, connections and the other boundary
/// unchanged) keeps a circuit well formed: node validity only loosens.
proof fn lemma_wf_after_boundary_growth(a: Circuit, b: Circuit)
    requires
        a.wf(),
        b.gates@ == a.gates@,
        b.gate_ids@ == a.gate_ids@,
        b.connections@ == a.connections@,
        a.inputs@.len() <= b.inputs@.len(),
        a.outputs@.len() <= b.outputs@.len(),
        b.inputs@.len() + b.gates@.len() + b.outputs@.len() <= usize::MAX,
    ensures
        b.wf(),
{
    assert(members_shapes(b.gates@) =~= members_shapes(a.gates@));
    let sa = a.shape();
    let sb = b.shape();
    assert forall|i: int|
        0 <= i < sb.connections.len() implies shape_conn_valid(sb, #[trigger] sb.connections[i]) by {
        assert(shape_conn_valid(sa, sa.connections[i]));
    }
}

/// Registering a well-formed member keeps a circuit well formed: existing
/// connections see the same arities and node validity only loosens.
proof fn lemma_wf_after_member_growth(a: Circuit, b: Circuit, gate: Component)
    requires
        a.wf(),
        gate.wf(),
        b.gates@ == a.gates@.push(gate),
        b.gate_ids@.len() == a.gate_ids@.len() + 1,
        b.connections@ == a.connections@,
        b.inputs@ == a.inputs@,
        b.outputs@ == a.outputs@,
        b.inputs@.len() + b.gates@.len() + b.outputs@.len() <= usize::MAX,
    ensures
        b.wf(),
{
    let sa = a.shape();
    let sb = b.shape();
    assert(sb.members =~= sa.members.push(gate.shape()));
    assert forall|j: int| 0 <= j < sb.members.len() implies shape_wf(#[trigger] sb.members[j]) by {
        if j < sa.members.len() {
            lemma_members_wf_at(sa.members, 0, j);
        }
    }
    lemma_members_wf_all(sb.members, 0);
    assert forall|i: int|
        0 <= i < sb.connections.len() implies shape_conn_valid(sb, #[trigger] sb.connections[i]) by {
        assert(shape_conn_valid(sa, sa.connections[i]));
        let c = sa.connections[i];
        match c.src_gate {
            NodeId::Gate(g) => {
                assert(sb.members[g as int] == sa.members[g as int]);
            },
            _ => {},
        }
        match c.dest_gate {
            NodeId::Gate(g) => {
                assert(sb.members[g as int] == sa.members[g as int]);
            },
            _ => {},
        }
    }
}

/// The second component is the first with `v` written to input pin `i`: a
/// gate or composite updates the indexed pin, a bus or lamp takes the value
/// whatever the index, and a button ignores the write.
pub open spec fn input_written(before: Component, after: Component, i: int, v: bool) -> bool {
    match before {
        Component::Basic(g) => after matches Component::Basic(g2) && g2.calc_mode == g.calc_mode
            && g2.gate@ == (GateState { inputs: g.gate@.inputs.update(i, v), ..g.gate@ }),
        Component::Composite(c) => after matches Component::Composite(c2) && c2.name@ == c.name@
            && c2.gates@ == c.gates@ && c2.gate_ids@ == c.gate_ids@ && c2.connections@
            == c.connections@ && c2.outputs@ == c.outputs@ && c2.inputs@ == c.inputs@.update(
            i,
            CircuitBus { mem: v },
        ),
        Component::Bus(_) => after == Component::Bus(CircuitBus { mem: v }),
        Component::Button(_) => after == before,
        Component::Lamp(_) => after == Component::Lamp(LampGate { state: v }),
    }
}

/// Writing the same value to the same pin twice is the same as writing it
/// once: applying a connection is idempotent while its source is unchanged.
pub proof fn lemma_input_written_idempotent(a: Component, b: Component, c: Component, i: int, v: bool)
    requires
        shape_checks_input_index(a.shape()) ==> 0 <= i < shape_n_inputs(a.shape()),
        input_written(a, b, i, v),
        input_written(b, c, i, v),
    ensures
        input_written(a, c, i, v),
{
    match a {
        Component::Basic(g) => {
            assert(g.gate@.inputs.update(i, v).update(i, v) =~= g.gate@.inputs.update(i, v));
        },
        Component::Composite(cc) => {
            assert(cc.inputs@.update(i, CircuitBus { mem: v }).update(i, CircuitBus { mem: v })
                =~= cc.inputs@.update(i, CircuitBus { mem: v }));
        },
        _ => {},
    }
}

/// The second circuit is the first with `v` written to input pin `pin` of
/// node `node`, and nothing else changed.
pub open spec fn circuit_input_written(
    before: Circuit,
    after: Circuit,
    node: NodeId,
    pin: int,
    v: bool,
) -> bool {
    &&& after.name == before.name
    &&& after.gate_ids == before.gate_ids
    &&& after.connections == before.connections
    &&& match node {
        NodeId::BoundaryInput(i) => after.inputs@ == before.inputs@.update(
            i as int,
            CircuitBus { mem: v },
        ) && after.gates == before.gates && after.outputs == before.outputs,
        NodeId::BoundaryOutput(i) => after.outputs@ == before.outputs@.update(
            i as int,
            CircuitBus { mem: v },
        ) && after.gates == before.gates && after.inputs == before.inputs,
        NodeId::Gate(g) => after.inputs == before.inputs && after.outputs == before.outputs
            && after.gates@.len() == before.gates@.len() && (forall|j: int|
            0 <= j < before.gates@.len() && j != g as int ==> after.gates@[j]
                == before.gates@[j]) && input_written(
            before.gates@[g as int],
            after.gates@[g as int],
            pin,
            v,
        ),
    }
}

/// The second circuit is the first after applying connection `c`: the value
/// that was on `c`'s source pin has been written to its destination pin.
pub open spec fn conn_applied(before: Circuit, after: Circuit, c: Connection) -> bool {
    circuit_input_written(
        before,
        after,
        c.dest_gate,
        c.dest_index as int,
        before.node_output_val(c.src_gate, c.src_index as int),
    )
}

/// What one recomputation guarantees of a component, whatever the scripted
/// evaluator did: the shape is preserved; buses, buttons and lamps are
/// untouched and succeed; a gate keeps its name, inputs and mode, and in
/// table mode it takes exactly one table step; a component with no script
/// anywhere inside succeeds.
pub open spec fn calc_rel(before: Component, after: Component, ok: bool) -> bool {
    &&& after.shape() == before.shape()
    &&& (shape_script_free(before.shape()) ==> after.state() == state_calc_member(
        before.state(),
        before.shape(),
    ))
    &&& ((before is Bus || before is Button || before is Lamp) ==> (after == before && ok))
    &&& (before matches Component::Basic(g) ==> (after matches Component::Basic(g2)
        && g2.calc_mode == g.calc_mode && g2.gate@.name == g.gate@.name && g2.gate@.inputs
        == g.gate@.inputs && (g.gate@.memory.len() == 0 ==> g2.gate@.memory == g.gate@.memory) && (
    g.calc_mode matches CalcMode::TruthTable(t) ==> ok && g2.gate@ == table_step(g.gate@, t@))))
    &&& (shape_script_free(before.shape()) ==> ok)
}

fn node_slot(n: NodeId, n_in: usize, n_gates: usize, n_out: usize) -> (r: usize)
    requires
        n_in + n_gates + n_out <= usize::MAX,
        match n {
            NodeId::BoundaryInput(i) => i < n_in,
            NodeId::Gate(g) => g < n_gates,
            NodeId::BoundaryOutput(o) => o < n_out,
        },
    ensures
        r == spec_node_slot(n, n_in as nat, n_gates as nat),
        r < n_in + n_gates + n_out,
{
    match n {
        NodeId::BoundaryInput(i) => i,
        NodeId::Gate(g) => n_in + g,
        NodeId::BoundaryOutput(o) => n_in + n_gates + o,
    }
}

impl Component {
    pub fn num_inputs(&self) -> (r: usize)
        ensures
            r == self.n_inputs(),
    {
        match self {
            Component::Basic(g) => g.gate.inputs.len(),
            Component::Composite(c) => c.inputs.len(),
            Component::Bus(_) => 1,
            Component::Button(_) => 0,
            Component::Lamp(_) => 1,
        }
    }

    pub fn num_outputs(&self) -> (r: usize)
        ensures
            r == self.n_outputs(),
    {
        match self {
            Component::Basic(g) => g.gate.outputs.len(),
            Component::Composite(c) => c.outputs.len(),
            Component::Bus(_) => 1,
            Component::Button(_) => 1,
            Component::Lamp(_) => 0,
        }
    }

    /// The current values on the input pins.
    pub fn get_inputs(&self) -> (r: Vec<bool>)
        ensures
            r@.len() == self.n_inputs(),
            forall|p: int| 0 <= p < r@.len() ==> r@[p] == self.input_val(p),
    {
        match self {
            Component::Basic(g) => g.get_inputs(),
            Component::Composite(c) => c.get_inputs(),
            Component::Bus(b) => b.get_inputs(),
            Component::Button(b) => b.get_inputs(),
            Component::Lamp(l) => l.get_inputs(),
        }
    }

    /// The current values on the output pins.
    pub fn get_outputs(&self) -> (r: Vec<bool>)
        ensures
            r@.len() == self.n_outputs(),
            forall|p: int| 0 <= p < r@.len() ==> r@[p] == self.output_val(p),
    {
        match self {
            Component::Basic(g) => g.get_outputs(),
            Component::Composite(c) => c.get_outputs(),
            Component::Bus(b) => b.get_outputs(),
            Component::Button(b) => b.get_outputs(),
            Component::Lamp(l) => l.get_outputs(),
        }
    }

    /// The current value on one output pin.
    pub fn get_output(&self, index: usize) -> (r: bool)
        requires
            index < self.n_outputs(),
        ensures
            r == self.output_val(index as int),
    {
        match self {
            Component::Basic(g) => g.gate.outputs[index],
            Component::Composite(c) => c.outputs[index].mem,
            Component::Bus(b) => b.mem,
            Component::Button(b) => b.state,
            Component::Lamp(_) => {
                proof {
                    assert(false);
                }
                false
            },
        }
    }

    /// Write one input pin; see `input_written` for what each kind does.
    pub fn set_input(&mut self, index: usize, value: bool)
        requires
            shape_checks_input_index(old(self).shape()) ==> index < old(self).n_inputs(),
        ensures
            final(self).shape() == old(self).shape(),
            input_written(*old(self), *final(self), index as int, value),
    {
        let mut tmp = Component::Bus(CircuitBus::new());
        core::mem::swap(self, &mut tmp);
        let updated = match tmp {
            Component::Basic(mut g) => {
                g.set_input(index, value);
                Component::Basic(g)
            },
            Component::Composite(mut c) => {
                c.set_input(index, value);
                Component::Composite(c)
            },
            Component::Bus(mut b) => {
                b.set_input(index, value);
                Component::Bus(b)
            },
            Component::Button(mut b) => {
                b.set_input(index, value);
                Component::Button(b)
            },
            Component::Lamp(mut l) => {
                l.set_input(index, value);
                Component::Lamp(l)
            },
        };
        *self = updated;
    }

    /// Whether this component can be compiled: it holds no memory anywhere.
    pub fn compilable(&self) -> (r: bool)
        ensures
            r == shape_compilable(self.shape()),
        decreases shape_depth(self.shape()), 1nat,
    {
        match self {
            Component::Basic(g) => g.compilable(),
            Component::Composite(c) => c.compilable(),
            Component::Bus(b) => b.compilable(),
            Component::Button(b) => b.compilable(),
            Component::Lamp(l) => l.compilable(),
        }
    }

    /// Recompute this component in place; see `calc_rel` for the guarantees.
    pub fn calculate(&mut self) -> (r: Result<(), EvaluationError>)
        requires
            old(self).wf(),
        ensures
            final(self).wf(),
            calc_rel(*old(self), *final(self), r is Ok),
    {
        let mut tmp = Component::Bus(CircuitBus::new());
        core::mem::swap(self, &mut tmp);
        let (done, r) = component_calculate(tmp);
        *self = done;
        r
    }

    /// Compile this component to a truth table; a component holding memory
    /// anywhere is refused, and the component itself is preserved. A
    /// compilable component with no script anywhere always compiles. Any
    /// returned table serves the component's full input space; where the
    /// table is freshly enumerated (everywhere but a gate that already
    /// carries one), its keys are exactly the input vectors of the
    /// component's arity, one row each.
    pub fn compile(&mut self) -> (r: Result<TruthTable, CantCompileGate>)
        requires
            old(self).wf(),
            two_pow(shape_n_inputs(old(self).shape())) <= usize::MAX,
        ensures
            final(self).shape() == old(self).shape(),
            final(self).wf(),
            !shape_compilable(old(self).shape()) ==> r is Err,
            r is Ok ==> shape_compilable(old(self).shape()),
            (shape_compilable(old(self).shape()) && shape_script_free(old(self).shape())) ==> r
                is Ok,
            r matches Ok(t) ==> t.wf() && (forall|k: Seq<bool>|
                k.len() == shape_n_inputs(old(self).shape()) ==> #[trigger] t@.contains_key(k)
                    && t@[k].len() == shape_n_outputs(old(self).shape())),
            old(self).shape() matches CompShape::Basic { mode: CalcMode::TruthTable(tt), .. }
                ==> (r matches Ok(t) ==> t@ == tt@),
            freshly_enumerated(old(self).shape()) ==> (r matches Ok(t) ==> {
                &&& forall|k: Seq<bool>| t@.contains_key(k) <==> k.len() == shape_n_inputs(
                    old(self).shape(),
                )
                &&& t.spec_len() == two_pow(shape_n_inputs(old(self).shape()))
            }),
    {
        let mut tmp = Component::Bus(CircuitBus::new());
        core::mem::swap(self, &mut tmp);
        match tmp {
            Component::Basic(mut g) => {
                let ghost g0 = g;
                let r = g.compile();
                proof {
                    assert(*old(self) matches Component::Basic(gb) && gb == g0);
                    if freshly_enumerated(old(self).shape()) {
                        assert(g0.calc_mode is Lua);
                    }
                    match &r {
                        Ok(t) => {
                            match &g.calc_mode {
                                CalcMode::TruthTable(tt) => {
                                    assert(tt.wf());
                                },
                                CalcMode::Lua(_, _) => {},
                            }
                        },
                        Err(_) => {},
                    }
                }
                *self = Component::Basic(g);
                r
            },
            Component::Composite(mut c) => {
                let r = c.compile();
                *self = Component::Composite(c);
                r
            },
            Component::Bus(b) => {
                let r = b.compile();
                proof {
                    assert(two_pow(1) == 2) by {
                        reveal_with_fuel(two_pow, 2);
                    }
                    match &r {
                        Ok(t) => {
                            lemma_one_bit_table_is_exact(*t);
                        },
                        Err(_) => {},
                    }
                }
                *self = Component::Bus(b);
                r
            },
            Component::Button(b) => {
                let r = b.compile();
                *self = Component::Button(b);
                r
            },
            Component::Lamp(l) => {
                let r = l.compile();
                *self = Component::Lamp(l);
                r
            },
        }
    }
}

/// Recompute one component, by value; see `calc_rel` for the guarantees.
fn component_calculate(c: Component) -> (r: (Component, Result<(), EvaluationError>))
    requires
        c.wf(),
    ensures
        r.0.wf(),
        calc_rel(c, r.0, r.1 is Ok),
    decreases shape_depth(c.shape()), 1nat,
{
    match c {
        Component::Basic(mut g) => {
            let res = g.calculate();
            (Component::Basic(g), res)
        },
        Component::Composite(circ) => {
            let (c2, res) = circuit_sweep(circ);
            (Component::Composite(c2), res)
        },
        Component::Bus(b) => (Component::Bus(b), Ok(())),
        Component::Button(b) => (Component::Button(b), Ok(())),
        Component::Lamp(l) => (Component::Lamp(l), Ok(())),
    }
}

/// One whole-circuit propagation pass, breadth-first from the boundary
/// inputs.
///
/// A frontier starts at the boundary-input buses. Each round recomputes
/// every frontier node not yet visited this pass, marks it visited, applies
/// every connection whose source is that node (copying the fresh value into
/// the destination pin), and queues each such destination for the next
/// round. A node already visited is skipped, so every node is recomputed at
/// most once per pass and feedback cycles are evaluated with one round of
/// lag instead of looping forever. Within a round, nodes are taken in
/// insertion order, never by value. A member's failure aborts the pass at
/// once; members already recomputed keep their new state.
///
/// On a circuit with no scripted member anywhere, the pass is exactly the
/// mathematical `state_sweep` of the starting state.
#[verifier::loop_isolation(false)]
#[verifier::rlimit(60)]
fn circuit_sweep(c: Circuit) -> (r: (Circuit, Result<(), EvaluationError>))
    requires
        c.wf(),
    ensures
        r.0.wf(),
        r.0.shape() == c.shape(),
        members_script_free(c.shape().members, 0) ==> r.1 is Ok,
        members_script_free(c.shape().members, 0) ==> r.0.state() == state_sweep(
            c.state(),
            c.shape(),
        ),
        forall|i: int|
            0 <= i < c.inputs@.len() && !input_bus_targeted(c.shape(), i)
                ==> r.0.inputs@[i].mem == c.inputs@[i].mem,
        forall|i: int|
            0 <= i < c.outputs@.len() && !output_bus_targeted(c.shape(), i)
                ==> r.0.outputs@[i].mem == c.outputs@[i].mem,
        forall|g: int, p: int|
            0 <= g < c.gates@.len() && c.gates@[g] is Basic && 0 <= p < c.gates@[g].n_inputs()
                && !member_pin_targeted(c.shape(), g, p) ==> r.0.gates@[g].input_val(p)
                == c.gates@[g].input_val(p),
    decreases shape_depth(CompShape::Composite(c.shape())), 0nat,
{
    let mut c = c;
    let ghost c0 = c;
    let ghost orig = c.shape();
    let ghost sf = members_script_free(orig.members, 0);
    let ghost target = state_sweep(c0.state(), orig);
    proof {
        assert(c0.shape() == orig);
    }
    let n_in = c.inputs.len();
    let n_gates = c.gates.len();
    let n_out = c.outputs.len();
    let n_nodes = n_in + n_gates + n_out;
    let ghost mut fuel: nat = n_nodes as nat + 1;
    let mut visited: Vec<bool> = vec![false; n_nodes];
    let mut frontier: Vec<NodeId> = Vec::new();
    let mut i: usize = 0;
    while i < n_in
        invariant
            i <= n_in,
            n_in == c.inputs@.len(),
            c.shape() == orig,
            frontier@.len() == i,
            forall|j: int|
                0 <= j < frontier@.len() ==> #[trigger] frontier@[j] == NodeId::BoundaryInput(
                    j as usize,
                ),
        decreases n_in - i,
    {
        frontier.push(NodeId::BoundaryInput(i));
        i = i + 1;
    }
    proof {
        assert(frontier@ =~= initial_frontier(n_in as nat));
        assert(visited@ =~= Seq::new(n_nodes as nat, |j: int| false));
        crate::state::lemma_count_falses_le_len(visited@);
        assert(forall|j: int|
            0 <= j < frontier@.len() ==> shape_node_valid(orig, #[trigger] frontier@[j]));
    }
    let mut done = false;
    while !done && frontier.len() > 0
        invariant
            c.wf(),
            c.shape() == orig,
            n_in == c.inputs@.len(),
            n_gates == c.gates@.len(),
            n_out == c.outputs@.len(),
            n_nodes == n_in + n_gates + n_out,
            visited@.len() == n_nodes,
            fuel >= count_falses(visited@) + 1,
            sf ==> (!done ==> state_rounds(c.state(), orig, frontier@, visited@, fuel) == target),
            sf ==> (done ==> c.state() == target),
            forall|i: int|
                0 <= i < n_in && !input_bus_targeted(orig, i) ==> c.inputs@[i].mem
                    == c0.inputs@[i].mem,
            forall|i: int|
                0 <= i < n_out && !output_bus_targeted(orig, i) ==> c.outputs@[i].mem
                    == c0.outputs@[i].mem,
            forall|g: int, p: int|
                0 <= g < n_gates && c0.gates@[g] is Basic && 0 <= p < c0.gates@[g].n_inputs()
                    && !member_pin_targeted(orig, g, p) ==> c.gates@[g] is Basic
                    && c.gates@[g].input_val(p) == c0.gates@[g].input_val(p),
            forall|j: int| 0 <= j < frontier@.len() ==> shape_node_valid(orig, #[trigger] frontier@[j]),
        decreases count_falses(visited@), (if done { 0int } else { 1int }),
    {
        let ghost head_count = count_falses(visited@);
        let ghost st_head = c.state();
        let ghost vis_head = visited@;
        let ghost full = front_from(st_head, orig, frontier@, vis_head, 0);
        let mut next: Vec<NodeId> = Vec::new();
        let mut progressed = false;
        let frontier_len = frontier.len();
        let mut k: usize = 0;
        proof {
            assert(Seq::<NodeId>::empty() + full.next =~= full.next);
        }
        while k < frontier_len
            invariant
                c.wf(),
                c.shape() == orig,
                n_in == c.inputs@.len(),
                n_gates == c.gates@.len(),
                n_out == c.outputs@.len(),
                n_nodes == n_in + n_gates + n_out,
                visited@.len() == n_nodes,
                frontier_len == frontier@.len(),
                k <= frontier_len,
                forall|j: int| 0 <= j < frontier@.len() ==> shape_node_valid(orig, #[trigger] frontier@[j]),
                forall|j: int| 0 <= j < next@.len() ==> shape_node_valid(orig, #[trigger] next@[j]),
                forall|i: int|
                    0 <= i < n_in && !input_bus_targeted(orig, i) ==> c.inputs@[i].mem
                        == c0.inputs@[i].mem,
                forall|i: int|
                    0 <= i < n_out && !output_bus_targeted(orig, i) ==> c.outputs@[i].mem
                        == c0.outputs@[i].mem,
                forall|g: int, p: int|
                    0 <= g < n_gates && c0.gates@[g] is Basic
                        && 0 <= p < c0.gates@[g].n_inputs()
                        && !member_pin_targeted(orig, g, p) ==> c.gates@[g] is Basic
                        && c.gates@[g].input_val(p) == c0.gates@[g].input_val(p),
                count_falses(visited@) <= head_count,
                progressed ==> count_falses(visited@) < head_count,
                sf ==> ({
                    let rem = front_from(c.state(), orig, frontier@, visited@, k as int);
                    &&& full.st == rem.st
                    &&& full.visited == rem.visited
                    &&& full.next == next@ + rem.next
                    &&& full.progressed == (progressed || rem.progressed)
                }),
            decreases frontier_len - k,
        {
            let node = frontier[k];
            let slot = node_slot(node, n_in, n_gates, n_out);
            if !visited[slot] {
                let ghost st_k = c.state();
                let ghost vis_k = visited@;
                match node {
                    NodeId::Gate(g) => {
                        proof {
                            assert(orig.members[g as int] == c.gates@[g as int].shape());
                            assert(st_k.members[g as int] == c.gates@[g as int].state());
                            lemma_members_wf_at(orig.members, 0, g as int);
                            lemma_member_depth(orig.members, 0, g as int);
                            if sf {
                                lemma_members_script_free_at(orig.members, 0, g as int);
                            }
                        }
                        let ghost pre_gates = c.gates@;
                        let member = c.gates.remove(g);
                        let (member2, res) = component_calculate(member);
                        c.gates.insert(g, member2);
                        proof {
                            assert(c.gates@ =~= pre_gates.update(g as int, member2));
                            assert(members_shapes(c.gates@) =~= orig.members);
                            assert(c.shape() =~= orig);
                            if sf {
                                assert(member2.state() == state_calc_member(
                                    member.state(),
                                    member.shape(),
                                ));
                                assert(members_states(c.gates@) =~= st_k.members.update(
                                    g as int,
                                    state_calc_member(st_k.members[g as int], orig.members[g as int]),
                                ));
                                assert(c.state() =~= (CircState {
                                    members: st_k.members.update(
                                        g as int,
                                        state_calc_member(
                                            st_k.members[g as int],
                                            orig.members[g as int],
                                        ),
                                    ),
                                    ..st_k
                                }));
                            }
                            assert forall|gg: int, p: int|
                                0 <= gg < n_gates && c0.gates@[gg] is Basic
                                    && 0 <= p < c0.gates@[gg].n_inputs()
                                    && !member_pin_targeted(orig, gg, p)
                                implies c.gates@[gg] is Basic && c.gates@[gg].input_val(p)
                                == c0.gates@[gg].input_val(p) by {
                                if gg == g as int {
                                    assert(c.gates@[gg] == member2);
                                    assert(pre_gates[gg] is Basic);
                                } else {
                                    assert(c.gates@[gg] == pre_gates[gg]);
                                }
                            }
                        }
                        match res {
                            Err(e) => {
                                proof {
                                    if members_script_free(orig.members, 0) {
                                        lemma_members_script_free_at(orig.members, 0, g as int);
                                        assert(false);
                                    }
                                }
                                return (c, Err(e));
                            },
                            Ok(()) => {},
                        }
                    },
                    _ => {},
                }
                let ghost st1 = c.state();
                let ghost pre_visited = visited@;
                visited[slot] = true;
                proof {
                    lemma_count_falses_update(pre_visited, slot as int);
                }
                progressed = true;
                let ghost full_c = conns_from(st1, orig, node, 0);
                let ghost next_mark = next@;
                let mut ci: usize = 0;
                proof {
                    assert(next_mark + full_c.1 =~= next@ + full_c.1);
                }
                while ci < c.connections.len()
                    invariant
                        c.wf(),
                        c.shape() == orig,
                        n_in == c.inputs@.len(),
                        n_gates == c.gates@.len(),
                        n_out == c.outputs@.len(),
                        n_nodes == n_in + n_gates + n_out,
                        visited@.len() == n_nodes,
                        frontier_len == frontier@.len(),
                        k < frontier_len,
                        ci <= c.connections@.len(),
                        forall|j: int| 0 <= j < frontier@.len() ==> shape_node_valid(
                            orig,
                            #[trigger] frontier@[j],
                        ),
                        forall|j: int| 0 <= j < next@.len() ==> shape_node_valid(
                            orig,
                            #[trigger] next@[j],
                        ),
                        forall|i: int|
                            0 <= i < n_in && !input_bus_targeted(orig, i) ==> c.inputs@[i].mem
                                == c0.inputs@[i].mem,
                        forall|i: int|
                            0 <= i < n_out && !output_bus_targeted(orig, i) ==> c.outputs@[i].mem
                                == c0.outputs@[i].mem,
                        forall|g: int, p: int|
                            0 <= g < n_gates && c0.gates@[g] is Basic
                                && 0 <= p < c0.gates@[g].n_inputs()
                                && !member_pin_targeted(orig, g, p) ==> c.gates@[g] is Basic
                                && c.gates@[g].input_val(p) == c0.gates@[g].input_val(p),
                        count_falses(visited@) < head_count,
                        sf ==> ({
                            let rc = conns_from(c.state(), orig, node, ci as int);
                            &&& full_c.0 == rc.0
                            &&& next_mark + full_c.1 == next@ + rc.1
                        }),
                    decreases c.connections@.len() - ci,
                {
                    let conn = self_conn(&c, ci);
                    if conn.src_gate == node {
                        proof {
                            assert(orig.connections[ci as int] == conn);
                            assert(shape_conn_valid(orig, conn));
                        }
                        let ghost st_ci = c.state();
                        let ghost next_ci = next@;
                        let v = c.read_output(conn.src_gate, conn.src_index);
                        c.write_input(conn.dest_gate, conn.dest_index, v);
                        proof {
                            if sf {
                                assert(c.state() == state_write_input(
                                    st_ci,
                                    conn.dest_gate,
                                    conn.dest_index as int,
                                    state_node_output(st_ci, conn.src_gate, conn.src_index as int),
                                ));
                            }
                            match conn.dest_gate {
                                NodeId::BoundaryInput(j) => {
                                    assert(input_bus_targeted(orig, j as int)) by {
                                        assert(0 <= ci < orig.connections.len() && ((
                                        #[trigger] orig.connections[ci as int]).dest_gate matches NodeId::BoundaryInput(jj)
                                            && jj as int == j as int));
                                    }
                                },
                                NodeId::BoundaryOutput(j) => {
                                    assert(output_bus_targeted(orig, j as int)) by {
                                        assert(0 <= ci < orig.connections.len() && ((
                                        #[trigger] orig.connections[ci as int]).dest_gate matches NodeId::BoundaryOutput(jj)
                                            && jj as int == j as int));
                                    }
                                },
                                NodeId::Gate(gg) => {
                                    assert(member_pin_targeted(
                                        orig,
                                        gg as int,
                                        conn.dest_index as int,
                                    )) by {
                                        assert(0 <= ci < orig.connections.len() && ((
                                        #[trigger] orig.connections[ci as int]).dest_gate matches NodeId::Gate(g2)
                                            && g2 as int == gg as int
                                            && orig.connections[ci as int].dest_index as int
                                            == conn.dest_index as int));
                                    }
                                },
                            }
                        }
                        next.push(conn.dest_gate);
                        proof {
                            if sf {
                                let rc_new = conns_from(c.state(), orig, node, ci + 1);
                                assert(next_mark + full_c.1 =~= next@ + rc_new.1) by {
                                    assert(conns_from(st_ci, orig, node, ci as int).1
                                        == seq![conn.dest_gate] + rc_new.1);
                                    assert(next_mark + full_c.1 =~= next_ci + (seq![conn.dest_gate]
                                        + rc_new.1));
                                    assert(next_ci + (seq![conn.dest_gate] + rc_new.1) =~= (
                                    next_ci.push(conn.dest_gate)) + rc_new.1);
                                }
                            }
                        }
                    }
                    ci = ci + 1;
                }
                proof {
                    if sf {
                        assert(conns_from(c.state(), orig, node, c.connections@.len() as int).0
                            == c.state());
                        assert(full_c.0 == c.state());
                        assert(next_mark + full_c.1 =~= next@);
                        let rem_k = front_from(st_k, orig, frontier@, vis_k, k as int);
                        assert(rem_k == (FrontResult {
                            st: front_from(full_c.0, orig, frontier@, visited@, k + 1).st,
                            visited: front_from(full_c.0, orig, frontier@, visited@, k + 1).visited,
                            next: full_c.1 + front_from(full_c.0, orig, frontier@, visited@, k + 1).next,
                            progressed: true,
                        })) by {
                            assert(spec_node_slot(node, orig.n_in, orig.members.len()) == slot as nat);
                            assert(vis_k.update(slot as int, true) =~= visited@);
                        }
                        let rem_new = front_from(c.state(), orig, frontier@, visited@, k + 1);
                        assert(full.next =~= next@ + rem_new.next) by {
                            assert(full.next == (next_mark + (full_c.1 + rem_new.next)));
                            assert(next_mark + (full_c.1 + rem_new.next) =~= (next_mark + full_c.1)
                                + rem_new.next);
                        }
                    }
                }
            } else {
                proof {
                    if sf {
                        assert(front_from(c.state(), orig, frontier@, visited@, k as int)
                            == front_from(c.state(), orig, frontier@, visited@, k + 1)) by {
                            assert(spec_node_slot(node, orig.n_in, orig.members.len())
                                == slot as nat);
                        }
                    }
                }
            }
            k = k + 1;
        }
        proof {
            if sf {
                let rem_end = front_from(c.state(), orig, frontier@, visited@, frontier_len as int);
                assert(rem_end.next =~= Seq::<NodeId>::empty());
                assert(full.st == c.state());
                assert(full.visited == visited@);
                assert(full.next =~= next@);
                assert(full.progressed == progressed);
                assert(fuel != 0);
                assert(state_rounds(st_head, orig, frontier@, vis_head, fuel) == (
                if !full.progressed {
                    full.st
                } else {
                    state_rounds(full.st, orig, full.next, full.visited, (fuel - 1) as nat)
                }));
            }
        }
        if !progressed {
            done = true;
        } else {
            frontier = next;
            proof {
                fuel = (fuel - 1) as nat;
            }
        }
    }
    proof {
        if sf && !done {
            assert(state_rounds(c.state(), orig, frontier@, visited@, fuel) == c.state());
        }
    }
    (c, Ok(()))
}

/// Read one recorded connection.
fn self_conn(c: &Circuit, i: usize) -> (r: Connection)
    requires
        i < c.connections@.len(),
    ensures
        r == c.connections@[i as int],
{
    c.connections[i]
}

impl Circuit {
    /// The current value on an output pin of a node.
    fn read_output(&self, node: NodeId, pin: usize) -> (r: bool)
        requires
            self.node_valid(node),
            (pin as nat) < shape_node_out_arity(self.shape(), node),
        ensures
            r == self.node_output_val(node, pin as int),
            r == state_node_output(self.state(), node, pin as int),
    {
        match node {
            NodeId::BoundaryInput(i) => self.inputs[i].mem,
            NodeId::BoundaryOutput(i) => self.outputs[i].mem,
            NodeId::Gate(g) => {
                proof {
                    assert(self.shape().members[g as int] == self.gates@[g as int].shape());
                    assert(self.state().members[g as int] == self.gates@[g as int].state());
                    match self.gates@[g as int] {
                        Component::Composite(cc) => {
                            assert(cc.state().outputs[pin as int] == cc.outputs@[pin as int].mem);
                        },
                        _ => {},
                    }
                }
                self.gates[g].get_output(pin)
            },
        }
    }

    /// Write one input pin of a node.
    fn write_input(&mut self, node: NodeId, pin: usize, value: bool)
        requires
            old(self).node_valid(node),
            shape_node_checks_input(old(self).shape(), node) ==> (pin as nat)
                < shape_node_in_arity(old(self).shape(), node),
        ensures
            final(self).shape() == old(self).shape(),
            circuit_input_written(*old(self), *final(self), node, pin as int, value),
            final(self).state() == state_write_input(old(self).state(), node, pin as int, value),
    {
        match node {
            NodeId::BoundaryInput(i) => {
                self.inputs[i] = CircuitBus { mem: value };
                proof {
                    assert(members_shapes(self.gates@) =~= members_shapes(old(self).gates@));
                    assert(self.shape() =~= old(self).shape());
                    assert(members_states(self.gates@) =~= members_states(old(self).gates@));
                    assert(self.input_vals() =~= old(self).input_vals().update(i as int, value));
                    assert(self.state() =~= state_write_input(
                        old(self).state(),
                        node,
                        pin as int,
                        value,
                    ));
                }
            },
            NodeId::BoundaryOutput(i) => {
                self.outputs[i] = CircuitBus { mem: value };
                proof {
                    assert(members_shapes(self.gates@) =~= members_shapes(old(self).gates@));
                    assert(self.shape() =~= old(self).shape());
                    assert(members_states(self.gates@) =~= members_states(old(self).gates@));
                    assert(self.output_vals() =~= old(self).output_vals().update(i as int, value));
                    assert(self.state() =~= state_write_input(
                        old(self).state(),
                        node,
                        pin as int,
                        value,
                    ));
                }
            },
            NodeId::Gate(g) => {
                proof {
                    assert(self.shape().members[g as int] == self.gates@[g as int].shape());
                    assert(old(self).state().members[g as int]
                        == old(self).gates@[g as int].state());
                }
                let ghost pre_gates = self.gates@;
                let mut member = self.gates.remove(g);
                member.set_input(pin, value);
                self.gates.insert(g, member);
                proof {
                    assert(self.gates@ =~= pre_gates.update(g as int, self.gates@[g as int]));
                    assert(members_shapes(self.gates@) =~= members_shapes(old(self).gates@));
                    assert(self.shape() =~= old(self).shape());
                    let am = old(self).gates@[g as int];
                    let bm = self.gates@[g as int];
                    assert(bm.state() == member_with_input(am.state(), pin as int, value)) by {
                        match am {
                            Component::Composite(ca) => {
                                match bm {
                                    Component::Composite(cb) => {
                                        assert(cb.input_vals() =~= ca.input_vals().update(
                                            pin as int,
                                            value,
                                        ));
                                        assert(members_states(cb.gates@) =~= members_states(
                                            ca.gates@,
                                        ));
                                        assert(cb.output_vals() =~= ca.output_vals());
                                        assert(cb.state() =~= (CircState {
                                            inputs: ca.state().inputs.update(pin as int, value),
                                            ..ca.state()
                                        }));
                                    },
                                    _ => {
                                        assert(false);
                                    },
                                }
                            },
                            _ => {},
                        }
                    }
                    assert(members_states(self.gates@) =~= members_states(old(self).gates@).update(
                        g as int,
                        member_with_input(am.state(), pin as int, value),
                    ));
                    assert(self.input_vals() =~= old(self).input_vals());
                    assert(self.output_vals() =~= old(self).output_vals());
                    assert(self.state() =~= state_write_input(
                        old(self).state(),
                        node,
                        pin as int,
                        value,
                    ));
                }
            },
        }
    }

    /// Apply one recorded connection: copy the source pin's current value
    /// into the destination pin. The copy performs no computation, and
    /// reapplying it while the source is unchanged writes the same value.
    pub fn update_connection(&mut self, index: usize)
        requires
            old(self).wf(),
            index < old(self).connections@.len(),
        ensures
            final(self).wf(),
            final(self).shape() == old(self).shape(),
            conn_applied(*old(self), *final(self), old(self).connections@[index as int]),
    {
        let conn = self_conn(self, index);
        proof {
            assert(old(self).shape().connections[index as int] == conn);
            assert(shape_conn_valid(old(self).shape(), conn));
        }
        let v = self.read_output(conn.src_gate, conn.src_index);
        self.write_input(conn.dest_gate, conn.dest_index, v);
    }

    /// Recompute one registered member in place; see `calc_rel` for the
    /// guarantees.
    pub fn calc_gate(&mut self, index: usize) -> (r: Result<(), EvaluationError>)
        requires
            old(self).wf(),
            index < old(self).gates@.len(),
        ensures
            final(self).wf(),
            final(self).shape() == old(self).shape(),
            final(self).inputs@ == old(self).inputs@,
            final(self).outputs@ == old(self).outputs@,
            final(self).gates@.len() == old(self).gates@.len(),
            forall|j: int|
                0 <= j < old(self).gates@.len() && j != index as int ==> final(self).gates@[j]
                    == old(self).gates@[j],
            calc_rel(
                old(self).gates@[index as int],
                final(self).gates@[index as int],
                r is Ok,
            ),
    {
        proof {
            assert(old(self).shape().members[index as int] == old(self).gates@[index as int].shape());
            lemma_members_wf_at(old(self).shape().members, 0, index as int);
        }
        let ghost pre_gates = self.gates@;
        let member = self.gates.remove(index);
        let (member2, res) = component_calculate(member);
        self.gates.insert(index, member2);
        proof {
            assert(self.gates@ =~= pre_gates.update(index as int, member2));
            assert(members_shapes(self.gates@) =~= members_shapes(old(self).gates@));
            assert(self.shape() =~= old(self).shape());
        }
        res
    }

    /// One whole-circuit propagation pass; the algorithm is described at
    /// `circuit_sweep`. The circuit's structure and every member's shape are
    /// preserved; a boundary bus or gate input pin that no connection feeds
    /// keeps its value; and when no member anywhere inside is scripted, the
    /// pass always succeeds and computes exactly the mathematical
    /// `state_sweep` of the old state.
    pub fn calculate(&mut self) -> (r: Result<(), EvaluationError>)
        requires
            old(self).wf(),
        ensures
            final(self).wf(),
            final(self).shape() == old(self).shape(),
            members_script_free(old(self).shape().members, 0) ==> r is Ok,
            members_script_free(old(self).shape().members, 0) ==> final(self).state()
                == state_sweep(old(self).state(), old(self).shape()),
            forall|i: int|
                0 <= i < old(self).inputs@.len() && !input_bus_targeted(old(self).shape(), i)
                    ==> final(self).inputs@[i].mem == old(self).inputs@[i].mem,
            forall|i: int|
                0 <= i < old(self).outputs@.len() && !output_bus_targeted(old(self).shape(), i)
                    ==> final(self).outputs@[i].mem == old(self).outputs@[i].mem,
            forall|g: int, p: int|
                0 <= g < old(self).gates@.len() && old(self).gates@[g] is Basic
                    && 0 <= p < old(self).gates@[g].n_inputs()
                    && !member_pin_targeted(old(self).shape(), g, p)
                    ==> final(self).gates@[g].input_val(p) == old(self).gates@[g].input_val(p),
    {
        let mut tmp = Circuit::new(String::new());
        core::mem::swap(self, &mut tmp);
        let (done, r) = circuit_sweep(tmp);
        *self = done;
        r
    }

    /// A circuit can be compiled exactly when every member can.
    #[verifier::loop_isolation(false)]
    pub fn compilable(&self) -> (r: bool)
        ensures
            r == members_compilable(self.shape().members, 0),
        decreases shape_depth(CompShape::Composite(self.shape())), 0nat,
    {
        let ghost ms = self.shape().members;
        let mut i: usize = 0;
        while i < self.gates.len()
            invariant
                ms == self.shape().members,
                ms.len() == self.gates@.len(),
                i <= self.gates@.len(),
                forall|j: int| 0 <= j < i ==> shape_compilable(#[trigger] ms[j]),
            decreases self.gates@.len() - i,
        {
            proof {
                assert(ms[i as int] == self.gates@[i as int].shape());
                lemma_member_depth(ms, 0, i as int);
            }
            if !self.gates[i].compilable() {
                proof {
                    if members_compilable(ms, 0) {
                        lemma_members_compilable_at(ms, 0, i as int);
                    }
                }
                return false;
            }
            i = i + 1;
        }
        proof {
            lemma_members_compilable_all(ms, 0);
        }
        true
    }

    /// Compile the circuit to a truth table: enumerate every boundary-input
    /// combination in increasing binary order, run one propagation pass for
    /// each, and record the boundary outputs into a fresh table; the
    /// boundary pins are restored afterward. Refused, with the circuit
    /// untouched, when any member holds memory; a pass failure aborts the
    /// compilation, and the members keep the state of the passes already
    /// run.
    #[verifier::loop_isolation(false)]
    pub fn compile(&mut self) -> (r: Result<TruthTable, CantCompileGate>)
        requires
            old(self).wf(),
            two_pow(old(self).inputs@.len()) <= usize::MAX,
        ensures
            final(self).wf(),
            final(self).shape() == old(self).shape(),
            !members_compilable(old(self).shape().members, 0) ==> (r is Err && *final(self) == *old(
                self,
            )),
            r is Ok ==> members_compilable(old(self).shape().members, 0),
            (members_compilable(old(self).shape().members, 0) && members_script_free(
                old(self).shape().members,
                0,
            )) ==> (r matches Ok(t) && forall|j: int|
                0 <= j < two_pow(old(self).inputs@.len())
                    ==> t@[pattern_of(j as nat, old(self).inputs@.len())] == compile_row_outputs(
                    old(self).state(),
                    old(self).shape(),
                    old(self).inputs@.len(),
                    j,
                )),
            r matches Ok(t) ==> {
                &&& t.wf()
                &&& (forall|k: Seq<bool>| t@.contains_key(k) <==> k.len() == old(
                    self,
                ).inputs@.len())
                &&& (forall|k: Seq<bool>| #[trigger] t@.contains_key(k) ==> t@[k].len() == old(
                    self,
                ).outputs@.len())
                &&& t.spec_len() == two_pow(old(self).inputs@.len())
                &&& final(self).input_vals() == old(self).input_vals()
                &&& final(self).output_vals() == old(self).output_vals()
            },
    {
        if !self.compilable() {
            return Err(CantCompileGate);
        }
        let ghost sfc = members_compilable(old(self).shape().members, 0) && members_script_free(
            old(self).shape().members,
            0,
        );
        let ins = self.get_inputs();
        let outs = self.get_outputs();
        let n = self.inputs.len();
        let n_out_cnt = self.outputs.len();
        let count = pow2_usize(n);
        let mut table = TruthTable::new();
        let mut i: usize = 0;
        while i < count
            invariant
                self.wf(),
                self.shape() == old(self).shape(),
                n == self.inputs@.len(),
                n_out_cnt == self.outputs@.len(),
                count == two_pow(n as nat),
                i <= count,
                ins@ == old(self).input_vals(),
                outs@ == old(self).output_vals(),
                ins@.len() == n,
                outs@.len() == n_out_cnt,
                members_compilable(old(self).shape().members, 0),
                table.wf(),
                table.spec_len() == i,
                forall|k: Seq<bool>| #[trigger] table@.contains_key(k) <==> exists|j: int|
                    0 <= j < i && k == #[trigger] pattern_of(j as nat, n as nat),
                forall|k: Seq<bool>| #[trigger] table@.contains_key(k) ==> table@[k].len()
                    == n_out_cnt,
                sfc ==> self.state() == compile_step_state(
                    old(self).state(),
                    old(self).shape(),
                    n as nat,
                    i as int,
                ),
                sfc ==> forall|j: int|
                    0 <= j < i ==> table@[#[trigger] pattern_of(j as nat, n as nat)]
                        == compile_row_outputs(
                        old(self).state(),
                        old(self).shape(),
                        n as nat,
                        j,
                    ),
            decreases count - i,
        {
            let ghost pre_c = *self;
            let pattern = index_to_pattern(i, n);
            proof {
                crate::table::lemma_pattern_len(i as nat, n as nat);
            }
            let mut j: usize = 0;
            while j < n
                invariant
                    self.wf(),
                    self.shape() == old(self).shape(),
                    n == self.inputs@.len(),
                    n_out_cnt == self.outputs@.len(),
                    j <= n,
                    pattern@ == pattern_of(i as nat, n as nat),
                    pattern@.len() == n,
                    self.gates@ == pre_c.gates@,
                    self.outputs@ == pre_c.outputs@,
                    forall|p: int| 0 <= p < j ==> self.input_vals()[p] == pattern@[p],
                    forall|p: int| j <= p < n ==> self.input_vals()[p] == pre_c.input_vals()[p],
                decreases n - j,
            {
                self.set_input(j, pattern[j]);
                j = j + 1;
            }
            proof {
                if sfc {
                    assert(self.state() =~= with_inputs(pre_c.state(), pattern@)) by {
                        assert(self.state().inputs =~= pattern@);
                        assert(members_states(self.gates@) == members_states(pre_c.gates@));
                        assert(self.output_vals() =~= pre_c.output_vals());
                    }
                }
            }
            let res = self.calculate();
            match res {
                Err(_) => {
                    proof {
                        if members_script_free(old(self).shape().members, 0) {
                            assert(false);
                        }
                    }
                    return Err(CantCompileGate);
                },
                Ok(()) => {},
            }
            proof {
                if sfc {
                    assert(self.state() == compile_step_state(
                        old(self).state(),
                        old(self).shape(),
                        n as nat,
                        i + 1,
                    ));
                    assert(self.state().outputs == compile_row_outputs(
                        old(self).state(),
                        old(self).shape(),
                        n as nat,
                        i as int,
                    ));
                }
            }
            let outputs = self.get_outputs();
            let ghost pre = table@;
            let key = pattern;
            proof {
                assert(key@ == pattern_of(i as nat, n as nat));
            }
            table.add(key, outputs);
            proof {
                crate::table::lemma_pattern_insert_step(
                    pre,
                    table@,
                    i as nat,
                    n as nat,
                    outputs@,
                );
                if sfc {
                    assert(outputs@ =~= self.state().outputs);
                    assert forall|j: int|
                        0 <= j < i + 1 implies table@[#[trigger] pattern_of(j as nat, n as nat)]
                        == compile_row_outputs(
                        old(self).state(),
                        old(self).shape(),
                        n as nat,
                        j,
                    ) by {
                        if j < i && pattern_of(j as nat, n as nat) == pattern_of(
                            i as nat,
                            n as nat,
                        ) {
                            crate::table::lemma_pattern_injective(j as nat, i as nat, n as nat);
                        }
                    }
                }
            }
            i = i + 1;
        }
        let mut j: usize = 0;
        while j < n
            invariant
                self.wf(),
                self.shape() == old(self).shape(),
                n == self.inputs@.len(),
                n_out_cnt == self.outputs@.len(),
                count == two_pow(n as nat),
                j <= n,
                ins@ == old(self).input_vals(),
                outs@ == old(self).output_vals(),
                ins@.len() == n,
                outs@.len() == n_out_cnt,
                members_compilable(old(self).shape().members, 0),
                table.wf(),
                table.spec_len() == count,
                forall|k: Seq<bool>| #[trigger] table@.contains_key(k) <==> exists|jj: int|
                    0 <= jj < count && k == #[trigger] pattern_of(jj as nat, n as nat),
                forall|k: Seq<bool>| #[trigger] table@.contains_key(k) ==> table@[k].len()
                    == n_out_cnt,
                sfc ==> forall|jj: int|
                    0 <= jj < count ==> table@[#[trigger] pattern_of(jj as nat, n as nat)]
                        == compile_row_outputs(
                        old(self).state(),
                        old(self).shape(),
                        n as nat,
                        jj,
                    ),
                forall|p: int| 0 <= p < j ==> self.input_vals()[p] == ins@[p],
            decreases n - j,
        {
            self.set_input(j, ins[j]);
            j = j + 1;
        }
        let mut j: usize = 0;
        while j < n_out_cnt
            invariant
                self.wf(),
                self.shape() == old(self).shape(),
                n == self.inputs@.len(),
                n_out_cnt == self.outputs@.len(),
                count == two_pow(n as nat),
                j <= n_out_cnt,
                ins@ == old(self).input_vals(),
                outs@ == old(self).output_vals(),
                outs@.len() == n_out_cnt,
                members_compilable(old(self).shape().members, 0),
                table.wf(),
                table.spec_len() == count,
                forall|k: Seq<bool>| #[trigger] table@.contains_key(k) <==> exists|jj: int|
                    0 <= jj < count && k == #[trigger] pattern_of(jj as nat, n as nat),
                forall|k: Seq<bool>| #[trigger] table@.contains_key(k) ==> table@[k].len()
                    == n_out_cnt,
                sfc ==> forall|jj: int|
                    0 <= jj < count ==> table@[#[trigger] pattern_of(jj as nat, n as nat)]
                        == compile_row_outputs(
                        old(self).state(),
                        old(self).shape(),
                        n as nat,
                        jj,
                    ),
                forall|p: int| 0 <= p < n ==> self.input_vals()[p] == ins@[p],
                forall|p: int| 0 <= p < j ==> self.output_vals()[p] == outs@[p],
            decreases n_out_cnt - j,
        {
            self.set_output(j, outs[j]);
            j = j + 1;
        }
        proof {
            crate::table::lemma_pattern_domain_complete(table@, n as nat);
            assert(self.input_vals() =~= old(self).input_vals());
            assert(self.output_vals() =~= old(self).output_vals());
        }
        Ok(table)
    }
}

/// Whether compiling a component of this shape enumerates a fresh table:
/// everywhere but a gate that already carries one, which is copied instead.
pub open spec fn freshly_enumerated(s: CompShape) -> bool {
    match s {
        CompShape::Basic { mode: CalcMode::TruthTable(_), .. } => false,
        _ => true,
    }
}

/// A pass-through's identity table covers exactly the two one-bit vectors,
/// one row each.
proof fn lemma_one_bit_table_is_exact(t: TruthTable)
    requires
        t@ == Map::<Seq<bool>, Seq<bool>>::empty().insert(seq![false], seq![false]).insert(
            seq![true],
            seq![true],
        ),
    ensures
        forall|k: Seq<bool>| t@.contains_key(k) <==> k.len() == 1,
        forall|k: Seq<bool>| #[trigger] t@.contains_key(k) ==> t@[k].len() == 1,
{
    assert forall|k: Seq<bool>| t@.contains_key(k) <==> k.len() == 1 by {
        if k.len() == 1 {
            if k[0] {
                assert(k =~= seq![true]);
            } else {
                assert(k =~= seq![false]);
            }
        }
    }
}

/// A circuit is compilable exactly when every one of its members is; a
/// member holding memory, a button or a lamp makes the whole circuit
/// uncompilable.
pub proof fn lemma_circuit_compilable_iff_members(c: Circuit)
    ensures
        members_compilable(c.shape().members, 0) <==> (forall|i: int|
            0 <= i < c.gates@.len() ==> shape_compilable(#[trigger] c.gates@[i].shape())),
{
    if members_compilable(c.shape().members, 0) {
        assert forall|i: int|
            0 <= i < c.gates@.len() implies shape_compilable(#[trigger] c.gates@[i].shape()) by {
            lemma_members_compilable_at(c.shape().members, 0, i);
            assert(c.shape().members[i] == c.gates@[i].shape());
        }
    }
    if forall|i: int| 0 <= i < c.gates@.len() ==> shape_compilable(#[trigger] c.gates@[i].shape()) {
        assert forall|j: int|
            0 <= j < c.shape().members.len() implies shape_compilable(
            #[trigger] c.shape().members[j],
        ) by {
            assert(c.shape().members[j] == c.gates@[j].shape());
        }
        lemma_members_compilable_all(c.shape().members, 0);
    }
}

/// Recording one applicable connection keeps a circuit well formed.
proof fn lemma_wf_after_connection_push(a: Circuit, b: Circuit, conn: Connection)
    requires
        b.gates@ == a.gates@,
        b.gate_ids@ == a.gate_ids@,
        b.connections@ == a.connections@.push(conn),
        b.inputs@ == a.inputs@,
        b.outputs@ == a.outputs@,
        b.name@ == a.name@,
    ensures
        (a.wf() && shape_conn_valid(a.shape(), conn)) ==> b.wf(),
{
    assert(members_shapes(b.gates@) =~= members_shapes(a.gates@));
    let sa = a.shape();
    let sb = b.shape();
    if a.wf() && shape_conn_valid(sa, conn) {
        assert forall|i: int|
            0 <= i < sb.connections.len() implies shape_conn_valid(
            sb,
            #[trigger] sb.connections[i],
        ) by {
            if i < sa.connections.len() {
                assert(shape_conn_valid(sa, sa.connections[i]));
                assert(sb.connections[i] == sa.connections[i]);
            } else {
                assert(sb.connections[i] == conn);
            }
        }
        assert(sb.members == sa.members);
    }
}

} // verus!
