//! The shape of a component: everything a recomputation pass preserves of
//! it — its kind, name, pin arities, calculation mode and, for a composite,
//! its full wiring. Well-formedness, compilability, script-freedom and
//! nesting depth are all functions of the shape alone, so "the shape is
//! preserved" carries all of them across a pass at once.

use vstd::prelude::*;
use crate::gate::CalcMode;

verus! {

/// Identity of a node inside one circuit: a boundary-input bus, a registered
/// member (by registration index), or a boundary-output bus. An index is a
/// plain integer, so node identity never depends on structural equality of
/// two distinct but identical gates.
#[derive(Debug, Clone, Copy, PartialEq, Eq, Structural)]
pub enum NodeId {
    BoundaryInput(usize),
    Gate(usize),
    BoundaryOutput(usize),
}

/// A directed wire from one node's output pin to another node's input pin.
/// It carries no state of its own: applying it copies the source pin's
/// current value into the destination pin.
#[derive(Debug, Clone, Copy, PartialEq, Eq, Structural)]
pub struct Connection {
    pub src_gate: NodeId,
    pub src_index: usize,
    pub dest_gate: NodeId,
    pub dest_index: usize,
}

impl Connection {
    pub fn new(src_gate: NodeId, src_index: usize, dest_gate: NodeId, dest_index: usize) -> (r:
        Connection)
        ensures
            r == (Connection { src_gate, src_index, dest_gate, dest_index }),
    {
        Connection { src_gate, src_index, dest_gate, dest_index }
    }

    /// The node the wire reads from.
    pub fn get_input_gate(&self) -> (r: NodeId)
        ensures
            r == self.src_gate,
    {
        self.src_gate
    }

    /// The node the wire writes to.
    pub fn get_output_gate(&self) -> (r: NodeId)
        ensures
            r == self.dest_gate,
    {
        self.dest_gate
    }

    pub fn get_input_index(&self) -> (r: usize)
        ensures
            r == self.src_index,
    {
        self.src_index
    }

    pub fn get_output_index(&self) -> (r: usize)
        ensures
            r == self.dest_index,
    {
        self.dest_index
    }
}

/// Shape of one component.
#[verifier::ext_equal]
pub enum CompShape {
    Basic { name: Seq<char>, n_in: nat, n_out: nat, n_mem: nat, mode: CalcMode },
    Composite(CircuitShape),
    Bus,
    Button,
    Lamp,
}

/// Shape of a composite: name, member identities, wiring, boundary sizes and
/// the members' own shapes.
#[verifier::ext_equal]
pub struct CircuitShape {
    pub name: Seq<char>,
    pub ids: Seq<u128>,
    pub connections: Seq<Connection>,
    pub n_in: nat,
    pub n_out: nat,
    pub members: Seq<CompShape>,
}

/// Input pin count of a component of this shape.
pub open spec fn shape_n_inputs(s: CompShape) -> nat {
    match s {
        CompShape::Basic { n_in, .. } => n_in,
        CompShape::Composite(cs) => cs.n_in,
        CompShape::Bus => 1,
        CompShape::Button => 0,
        CompShape::Lamp => 1,
    }
}

/// Output pin count of a component of this shape.
pub open spec fn shape_n_outputs(s: CompShape) -> nat {
    match s {
        CompShape::Basic { n_out, .. } => n_out,
        CompShape::Composite(cs) => cs.n_out,
        CompShape::Bus => 1,
        CompShape::Button => 1,
        CompShape::Lamp => 0,
    }
}

/// Whether writing an input pin of such a component checks the pin index.
/// Buses, buttons and lamps ignore it; gates and composites index a vector.
pub open spec fn shape_checks_input_index(s: CompShape) -> bool {
    s is Basic || s is Composite
}

/// Nesting depth: how many levels of composites sit below this shape.
pub open spec fn shape_depth(s: CompShape) -> nat
    decreases s,
{
    match s {
        CompShape::Composite(cs) => 1 + members_depth(cs.members, 0),
        _ => 0,
    }
}

/// Largest member depth from index `i` on.
pub open spec fn members_depth(members: Seq<CompShape>, i: int) -> nat
    decreases members, members.len() - i,
{
    if i < 0 || i >= members.len() {
        0
    } else {
        let d = shape_depth(members[i]);
        let rest = members_depth(members, i + 1);
        if d > rest {
            d
        } else {
            rest
        }
    }
}

pub proof fn lemma_member_depth(members: Seq<CompShape>, i: int, j: int)
    requires
        0 <= i <= j < members.len(),
    ensures
        shape_depth(members[j]) <= members_depth(members, i),
    decreases members.len() - i,
{
    if i < j {
        lemma_member_depth(members, i + 1, j);
    }
}

/// No member, at any nesting depth, is scripted: every gate is table backed,
/// a bus, a button or a lamp. Recomputing such a component never consults
/// the external evaluator.
pub open spec fn shape_script_free(s: CompShape) -> bool
    decreases s,
{
    match s {
        CompShape::Basic { mode, .. } => mode is TruthTable,
        CompShape::Composite(cs) => members_script_free(cs.members, 0),
        _ => true,
    }
}

pub open spec fn members_script_free(members: Seq<CompShape>, i: int) -> bool
    decreases members, members.len() - i,
{
    if i < 0 || i >= members.len() {
        true
    } else {
        shape_script_free(members[i]) && members_script_free(members, i + 1)
    }
}

pub proof fn lemma_members_script_free_at(members: Seq<CompShape>, i: int, j: int)
    requires
        0 <= i <= j < members.len(),
        members_script_free(members, i),
    ensures
        shape_script_free(members[j]),
    decreases members.len() - i,
{
    if i < j {
        lemma_members_script_free_at(members, i + 1, j);
    }
}

/// Whether a component of this shape can be compiled: it holds no memory,
/// directly or in any member. Buttons and lamps are never compilable; buses
/// always are.
pub open spec fn shape_compilable(s: CompShape) -> bool
    decreases s,
{
    match s {
        CompShape::Basic { n_mem, .. } => n_mem == 0,
        CompShape::Composite(cs) => members_compilable(cs.members, 0),
        CompShape::Bus => true,
        CompShape::Button => false,
        CompShape::Lamp => false,
    }
}

pub open spec fn members_compilable(members: Seq<CompShape>, i: int) -> bool
    decreases members, members.len() - i,
{
    if i < 0 || i >= members.len() {
        true
    } else {
        shape_compilable(members[i]) && members_compilable(members, i + 1)
    }
}

/// Whether a node name refers to an actual node of a circuit of this shape.
pub open spec fn shape_node_valid(cs: CircuitShape, n: NodeId) -> bool {
    match n {
        NodeId::BoundaryInput(i) => (i as nat) < cs.n_in,
        NodeId::Gate(i) => (i as nat) < cs.members.len(),
        NodeId::BoundaryOutput(i) => (i as nat) < cs.n_out,
    }
}

/// Output pin count of a node. Boundary buses have one pin.
pub open spec fn shape_node_out_arity(cs: CircuitShape, n: NodeId) -> nat {
    match n {
        NodeId::Gate(i) => shape_n_outputs(cs.members[i as int]),
        _ => 1,
    }
}

/// Input pin count of a node. Boundary buses have one pin.
pub open spec fn shape_node_in_arity(cs: CircuitShape, n: NodeId) -> nat {
    match n {
        NodeId::Gate(i) => shape_n_inputs(cs.members[i as int]),
        _ => 1,
    }
}

/// Whether writing an input pin of this node checks the pin index.
pub open spec fn shape_node_checks_input(cs: CircuitShape, n: NodeId) -> bool {
    match n {
        NodeId::Gate(i) => shape_checks_input_index(cs.members[i as int]),
        _ => false,
    }
}

/// Whether some connection writes boundary-input bus `i`. A pass leaves an
/// unfed bus's value alone.
pub open spec fn input_bus_targeted(cs: CircuitShape, i: int) -> bool {
    exists|ci: int|
        0 <= ci < cs.connections.len() && ((#[trigger] cs.connections[ci]).dest_gate matches NodeId::BoundaryInput(j)
            && j as int == i)
}

/// Whether some connection writes boundary-output bus `i`.
pub open spec fn output_bus_targeted(cs: CircuitShape, i: int) -> bool {
    exists|ci: int|
        0 <= ci < cs.connections.len() && ((#[trigger] cs.connections[ci]).dest_gate matches NodeId::BoundaryOutput(j)
            && j as int == i)
}

/// Whether some connection writes input pin `p` of member `g`. A pass never
/// touches a gate pin that no connection feeds.
pub open spec fn member_pin_targeted(cs: CircuitShape, g: int, p: int) -> bool {
    exists|ci: int|
        0 <= ci < cs.connections.len() && ((#[trigger] cs.connections[ci]).dest_gate matches NodeId::Gate(gg)
            && gg as int == g && cs.connections[ci].dest_index as int == p)
}

/// A connection a recomputation pass can apply without running off a pin
/// vector: both endpoints exist, the source pin exists, and the destination
/// pin exists whenever the destination checks it.
pub open spec fn shape_conn_valid(cs: CircuitShape, c: Connection) -> bool {
    &&& shape_node_valid(cs, c.src_gate)
    &&& shape_node_valid(cs, c.dest_gate)
    &&& (c.src_index as nat) < shape_node_out_arity(cs, c.src_gate)
    &&& (shape_node_checks_input(cs, c.dest_gate) ==> (c.dest_index as nat)
        < shape_node_in_arity(cs, c.dest_gate))
}

/// Well-formedness, a function of the shape alone: a table-backed gate's
/// table serves its full input space; members are well formed in turn;
/// every connection is applicable; one identity tag per member; and the
/// node count fits the machine.
pub open spec fn shape_wf(s: CompShape) -> bool
    decreases s,
{
    match s {
        CompShape::Basic { mode, n_in, n_out, .. } => mode.table_serves(n_in, n_out),
        CompShape::Composite(cs) => circuit_shape_wf(cs),
        _ => true,
    }
}

pub open spec fn circuit_shape_wf(cs: CircuitShape) -> bool
    decreases cs,
{
    &&& cs.ids.len() == cs.members.len()
    &&& members_wf(cs.members, 0)
    &&& (forall|i: int|
        0 <= i < cs.connections.len() ==> shape_conn_valid(cs, #[trigger] cs.connections[i]))
    &&& cs.n_in + cs.members.len() + cs.n_out <= usize::MAX
}

pub open spec fn members_wf(members: Seq<CompShape>, i: int) -> bool
    decreases members, members.len() - i,
{
    if i < 0 || i >= members.len() {
        true
    } else {
        shape_wf(members[i]) && members_wf(members, i + 1)
    }
}

pub proof fn lemma_members_wf_at(members: Seq<CompShape>, i: int, j: int)
    requires
        0 <= i <= j < members.len(),
        members_wf(members, i),
    ensures
        shape_wf(members[j]),
    decreases members.len() - i,
{
    if i < j {
        lemma_members_wf_at(members, i + 1, j);
    }
}

/// Pointwise-equal member sequences are equal for the indexed predicates.
pub proof fn lemma_members_wf_all(members: Seq<CompShape>, i: int)
    requires
        0 <= i,
        forall|j: int| i <= j < members.len() ==> shape_wf(#[trigger] members[j]),
    ensures
        members_wf(members, i),
    decreases members.len() - i,
{
    if i < members.len() {
        lemma_members_wf_all(members, i + 1);
    }
}

pub proof fn lemma_members_compilable_at(members: Seq<CompShape>, i: int, j: int)
    requires
        0 <= i <= j < members.len(),
        members_compilable(members, i),
    ensures
        shape_compilable(members[j]),
    decreases members.len() - i,
{
    if i < j {
        lemma_members_compilable_at(members, i + 1, j);
    }
}

pub proof fn lemma_members_compilable_all(members: Seq<CompShape>, i: int)
    requires
        0 <= i,
        forall|j: int| i <= j < members.len() ==> shape_compilable(#[trigger] members[j]),
    ensures
        members_compilable(members, i),
    decreases members.len() - i,
{
    if i < members.len() {
        lemma_members_compilable_all(members, i + 1);
    }
}

} // verus!
