//! The value state of a circuit — every pin, memory and bus value — and the
//! propagation pass as a mathematical function of that state. On a circuit
//! with no scripted member anywhere, a pass consults nothing outside the
//! circuit, so `state_sweep` says exactly what `calculate` computes.

use vstd::prelude::*;
use crate::gate::CalcMode;
use crate::shape::CircuitShape;
use crate::shape::CompShape;
use crate::shape::NodeId;
use crate::shape::lemma_member_depth;
use crate::table::pattern_of;
use crate::shape::shape_depth;

verus! {

/// Value state of one member.
#[verifier::ext_equal]
pub enum CompState {
    Basic { inputs: Seq<bool>, outputs: Seq<bool>, memory: Seq<bool> },
    Composite(CircState),
    Bus(bool),
    Button(bool),
    Lamp(bool),
}

/// Value state of a circuit: boundary buses and members.
#[verifier::ext_equal]
pub struct CircState {
    pub inputs: Seq<bool>,
    pub outputs: Seq<bool>,
    pub members: Seq<CompState>,
}

/// The value on output pin `pin` of a member in this state.
pub open spec fn member_output_val(st: CompState, pin: int) -> bool {
    match st {
        CompState::Basic { outputs, .. } => outputs[pin],
        CompState::Composite(cs) => cs.outputs[pin],
        CompState::Bus(b) => b,
        CompState::Button(b) => b,
        CompState::Lamp(_) => false,
    }
}

/// A member with `v` written to input pin `pin`: gates and composites update
/// the indexed pin, a bus or lamp takes the value whatever the index, and a
/// button ignores the write.
pub open spec fn member_with_input(st: CompState, pin: int, v: bool) -> CompState {
    match st {
        CompState::Basic { inputs, outputs, memory } => CompState::Basic {
            inputs: inputs.update(pin, v),
            outputs,
            memory,
        },
        CompState::Composite(cs) => CompState::Composite(
            CircState { inputs: cs.inputs.update(pin, v), ..cs },
        ),
        CompState::Bus(_) => CompState::Bus(v),
        CompState::Button(b) => CompState::Button(b),
        CompState::Lamp(_) => CompState::Lamp(v),
    }
}

/// The value on an output pin of a node.
pub open spec fn state_node_output(st: CircState, n: NodeId, pin: int) -> bool {
    match n {
        NodeId::BoundaryInput(i) => st.inputs[i as int],
        NodeId::BoundaryOutput(i) => st.outputs[i as int],
        NodeId::Gate(g) => member_output_val(st.members[g as int], pin),
    }
}

/// The state after writing `v` to an input pin of a node.
pub open spec fn state_write_input(st: CircState, n: NodeId, pin: int, v: bool) -> CircState {
    match n {
        NodeId::BoundaryInput(i) => CircState { inputs: st.inputs.update(i as int, v), ..st },
        NodeId::BoundaryOutput(i) => CircState { outputs: st.outputs.update(i as int, v), ..st },
        NodeId::Gate(g) => CircState {
            members: st.members.update(
                g as int,
                member_with_input(st.members[g as int], pin, v),
            ),
            ..st
        },
    }
}

/// Flat slot of a node in the visited table: boundary inputs first, then
/// members, then boundary outputs.
pub open spec fn spec_node_slot(n: NodeId, n_in: nat, n_gates: nat) -> nat {
    match n {
        NodeId::BoundaryInput(i) => i as nat,
        NodeId::Gate(g) => n_in + g as nat,
        NodeId::BoundaryOutput(o) => n_in + n_gates + o as nat,
    }
}

/// Number of entries still unvisited.
pub open spec fn count_falses(s: Seq<bool>) -> nat
    decreases s.len(),
{
    if s.len() == 0 {
        0nat
    } else {
        (if s[0] {
            0nat
        } else {
            1nat
        }) + count_falses(s.drop_first())
    }
}

pub proof fn lemma_count_falses_update(s: Seq<bool>, i: int)
    requires
        0 <= i < s.len(),
        !s[i],
    ensures
        count_falses(s.update(i, true)) < count_falses(s),
    decreases s.len(),
{
    if i == 0 {
        assert(s.update(0, true).drop_first() =~= s.drop_first());
    } else {
        assert(s.update(i, true).drop_first() =~= s.drop_first().update(i - 1, true));
        lemma_count_falses_update(s.drop_first(), i - 1);
    }
}

pub proof fn lemma_count_falses_le_len(s: Seq<bool>)
    ensures
        count_falses(s) <= s.len(),
    decreases s.len(),
{
    if s.len() > 0 {
        lemma_count_falses_le_len(s.drop_first());
    }
}

/// One recomputation of a member, at the state level: a table-backed gate
/// takes one table step, a nested circuit runs one whole pass of its own,
/// and a bus, button or lamp is unchanged. Scripted members are outside this
/// model; their recomputation is not a function of the state.
pub open spec fn state_calc_member(st: CompState, sh: CompShape) -> CompState
    decreases shape_depth(sh), 4nat, 0nat, 0nat, 0nat,
{
    match sh {
        CompShape::Basic { mode, .. } => match st {
            CompState::Basic { inputs, outputs, memory } => match mode {
                CalcMode::TruthTable(t) => CompState::Basic { inputs, outputs: t@[inputs], memory },
                CalcMode::Lua(_, _) => st,
            },
            _ => st,
        },
        CompShape::Composite(csh) => match st {
            CompState::Composite(cs) => CompState::Composite(state_sweep(cs, csh)),
            _ => st,
        },
        _ => st,
    }
}

/// Apply, in order, every connection from `ci` on whose source is `node`:
/// copy the source pin's current value to the destination pin and collect
/// the destination for the next round.
pub open spec fn conns_from(st: CircState, sh: CircuitShape, node: NodeId, ci: int) -> (
    CircState,
    Seq<NodeId>,
)
    decreases shape_depth(CompShape::Composite(sh)), 0nat, 0nat, 0nat, sh.connections.len() - ci,
{
    if ci < 0 || ci >= sh.connections.len() {
        (st, Seq::empty())
    } else {
        let conn = sh.connections[ci];
        if conn.src_gate == node {
            let v = state_node_output(st, conn.src_gate, conn.src_index as int);
            let st1 = state_write_input(st, conn.dest_gate, conn.dest_index as int, v);
            let r = conns_from(st1, sh, node, ci + 1);
            (r.0, seq![conn.dest_gate] + r.1)
        } else {
            conns_from(st, sh, node, ci + 1)
        }
    }
}

/// What one round of the pass leaves behind, processed from frontier index
/// `k` on: the state, the visited table, the destinations queued for the
/// next round, and whether any node was newly visited.
#[verifier::ext_equal]
pub struct FrontResult {
    pub st: CircState,
    pub visited: Seq<bool>,
    pub next: Seq<NodeId>,
    pub progressed: bool,
}

/// Process the frontier from index `k` on: recompute each not-yet-visited
/// node, mark it, apply its outgoing connections and queue their
/// destinations.
pub open spec fn front_from(
    st: CircState,
    sh: CircuitShape,
    frontier: Seq<NodeId>,
    visited: Seq<bool>,
    k: int,
) -> FrontResult
    decreases shape_depth(CompShape::Composite(sh)), 1nat, count_falses(visited), frontier.len() - k, 0nat,
    via front_from_decreases
{
    if k < 0 || k >= frontier.len() {
        FrontResult { st, visited, next: Seq::empty(), progressed: false }
    } else {
        let node = frontier[k];
        let slot = spec_node_slot(node, sh.n_in, sh.members.len()) as int;
        if !(0 <= slot < visited.len()) || visited[slot] {
            front_from(st, sh, frontier, visited, k + 1)
        } else {
            let st1 = match node {
                NodeId::Gate(g) => if (g as int) < sh.members.len() {
                    CircState {
                        members: st.members.update(
                            g as int,
                            state_calc_member(st.members[g as int], sh.members[g as int]),
                        ),
                        ..st
                    }
                } else {
                    st
                },
                _ => st,
            };
            let vis1 = visited.update(slot, true);
            let r = conns_from(st1, sh, node, 0);
            let rest = front_from(r.0, sh, frontier, vis1, k + 1);
            FrontResult {
                st: rest.st,
                visited: rest.visited,
                next: r.1 + rest.next,
                progressed: true,
            }
        }
    }
}

#[via_fn]
proof fn front_from_decreases(
    st: CircState,
    sh: CircuitShape,
    frontier: Seq<NodeId>,
    visited: Seq<bool>,
    k: int,
) {
    if 0 <= k < frontier.len() {
        let node = frontier[k];
        let slot = spec_node_slot(node, sh.n_in, sh.members.len()) as int;
        if 0 <= slot < visited.len() && !visited[slot] {
            lemma_count_falses_update(visited, slot);
            match node {
                NodeId::Gate(g) => {
                    if (g as int) < sh.members.len() {
                        lemma_member_depth(sh.members, 0, g as int);
                    }
                },
                _ => {},
            }
        }
    }
}

/// Run rounds until one makes no progress; the fuel bounds the number of
/// rounds, and one more round than there are nodes always suffices, since
/// every progressing round visits at least one new node.
pub open spec fn state_rounds(
    st: CircState,
    sh: CircuitShape,
    frontier: Seq<NodeId>,
    visited: Seq<bool>,
    fuel: nat,
) -> CircState
    decreases shape_depth(CompShape::Composite(sh)), 2nat, fuel, 0nat, 0nat,
{
    if frontier.len() == 0 || fuel == 0 {
        st
    } else {
        let r = front_from(st, sh, frontier, visited, 0);
        if !r.progressed {
            r.st
        } else {
            state_rounds(r.st, sh, r.next, r.visited, (fuel - 1) as nat)
        }
    }
}

/// The frontier a pass starts from: every boundary-input bus, in order.
pub open spec fn initial_frontier(n_in: nat) -> Seq<NodeId> {
    Seq::new(n_in as nat, |i: int| NodeId::BoundaryInput(i as usize))
}

/// One whole propagation pass as a function of the state: breadth-first from
/// the boundary inputs, each node recomputed at most once.
pub open spec fn state_sweep(st: CircState, sh: CircuitShape) -> CircState
    decreases shape_depth(CompShape::Composite(sh)), 3nat, 0nat, 0nat, 0nat,
{
    let n_nodes = sh.n_in + sh.members.len() + sh.n_out;
    state_rounds(
        st,
        sh,
        initial_frontier(sh.n_in),
        Seq::new(n_nodes, |i: int| false),
        n_nodes + 1,
    )
}

/// The state with a full input combination written onto the boundary
/// inputs.
pub open spec fn with_inputs(st: CircState, pattern: Seq<bool>) -> CircState {
    CircState { inputs: pattern, ..st }
}

/// The state after compilation has enumerated combinations `0 .. j` of width
/// `n`: each combination in turn is written onto the boundary inputs and one
/// whole pass is run; nothing is rolled back between combinations.
pub open spec fn compile_step_state(st: CircState, sh: CircuitShape, n: nat, j: int) -> CircState
    decreases j,
{
    if j <= 0 {
        st
    } else {
        state_sweep(
            with_inputs(compile_step_state(st, sh, n, j - 1), pattern_of((j - 1) as nat, n)),
            sh,
        )
    }
}

/// The boundary outputs compilation records for combination `j`: the outputs
/// of the pass run on combination `j`, starting from the state the earlier
/// combinations left behind.
pub open spec fn compile_row_outputs(st: CircState, sh: CircuitShape, n: nat, j: int) -> Seq<
    bool,
> {
    state_sweep(with_inputs(compile_step_state(st, sh, n, j), pattern_of(j as nat, n)), sh).outputs
}

} // verus!
