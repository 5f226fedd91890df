//! Primitive gates. A `Gate` holds input, output and memory pin vectors; a
//! `BasicGate` pairs it with a calculation mode: either a script run by the
//! external evaluator, or a pre-compiled truth table looked up directly.

use vstd::prelude::*;
use vstd::string::*;
use crate::errors::CantCompileGate;
use crate::errors::EvaluationError;
use crate::eval::lua_call_bools;
use crate::eval::lua_exec;
use crate::eval::lua_get_global_bools;
use crate::eval::lua_get_global_function;
use crate::eval::lua_get_global_opt_u8;
use crate::eval::lua_get_global_u8;
use crate::eval::lua_new;
use crate::eval::lua_set_global_bools;
use crate::table::TruthTable;
use crate::table::index_to_pattern;
use crate::table::lemma_pattern_injective;
use crate::table::lemma_pattern_len;
use crate::table::lemma_pattern_of_value;
use crate::table::lemma_value_of_bound;
use crate::table::pattern_of;
use crate::table::pow2_usize;
use crate::table::two_pow;
use crate::table::value_of;

verus! {

/// Abstract state of a gate: its name and the values on its pins and in its
/// memory.
pub struct GateState {
    pub name: Seq<char>,
    pub inputs: Seq<bool>,
    pub outputs: Seq<bool>,
    pub memory: Seq<bool>,
}

impl GateState {
    /// A gate with memory is stateful; a stateful gate cannot be compiled.
    pub open spec fn is_stateful(self) -> bool {
        self.memory.len() != 0
    }
}

/// One table-backed recomputation: the outputs are replaced by the table's
/// row for the current inputs; inputs, memory and name are untouched.
pub open spec fn table_step(g: GateState, t: Map<Seq<bool>, Seq<bool>>) -> GateState {
    GateState { name: g.name, inputs: g.inputs, outputs: t[g.inputs], memory: g.memory }
}

/// Recomputing a memory-free, table-backed gate twice with unchanged inputs
/// yields identical outputs both times: the second step reads the same
/// inputs and therefore the same table row.
pub proof fn lemma_table_step_idempotent(g: GateState, t: Map<Seq<bool>, Seq<bool>>)
    ensures
        table_step(table_step(g, t), t) == table_step(g, t),
{
}

/// All-false vector of the given length, the state of freshly made pins.
pub open spec fn all_false(n: nat) -> Seq<bool> {
    Seq::new(n, |i: int| false)
}

/// Pin and memory vectors of a primitive gate. Arities are fixed at
/// construction; recomputation is delegated to a `CalcMode`.
pub struct Gate {
    pub name: String,
    pub inputs: Vec<bool>,
    pub outputs: Vec<bool>,
    pub memory: Vec<bool>,
}

impl View for Gate {
    type V = GateState;

    open spec fn view(&self) -> GateState {
        GateState { name: self.name@, inputs: self.inputs@, outputs: self.outputs@, memory: self.memory@ }
    }
}

/// Script text for the external evaluator.
#[derive(Debug, Clone)]
pub struct LuaCode(pub String);

/// How a gate recomputes its outputs: by handing inputs and memory to its
/// private scripted evaluator instance, or by looking the inputs up in an
/// embedded truth table. Fixed for a gate's whole lifetime.
pub enum CalcMode {
    Lua(LuaCode, mlua::Lua),
    TruthTable(TruthTable),
}

impl CalcMode {
    /// Whether a table-backed mode can serve every input combination of a
    /// gate with the given arities. Scripted modes carry no such promise.
    pub open spec fn table_serves(&self, n_in: nat, n_out: nat) -> bool {
        match self {
            CalcMode::TruthTable(t) => {
                &&& t.wf()
                &&& forall|k: Seq<bool>|
                    k.len() == n_in ==> #[trigger] t@.contains_key(k) && t@[k].len() == n_out
            },
            CalcMode::Lua(_, _) => true,
        }
    }

    /// A scripted mode with a fresh, private evaluator instance. Evaluator
    /// state is never shared between gates, so one gate's script environment
    /// cannot leak into another's.
    pub fn scripted(code: LuaCode) -> (r: CalcMode)
        ensures
            r matches CalcMode::Lua(c, _) && c == code,
    {
        CalcMode::Lua(code, lua_new())
    }
}

impl Gate {
    /// A memory-free gate; pin arities are fixed for its lifetime.
    pub fn new(name: String, inputs: Vec<bool>, outputs: Vec<bool>) -> (r: Gate)
        ensures
            r@ == (GateState {
                name: name@,
                inputs: inputs@,
                outputs: outputs@,
                memory: Seq::<bool>::empty(),
            }),
    {
        Gate { name, inputs, outputs, memory: Vec::new() }
    }

    /// A gate with a memory buffer, making it stateful when non-empty.
    pub fn with_buffer(name: String, inputs: Vec<bool>, outputs: Vec<bool>, memory: Vec<bool>) -> (r:
        Gate)
        ensures
            r@ == (GateState { name: name@, inputs: inputs@, outputs: outputs@, memory: memory@ }),
    {
        Gate { name, inputs, outputs, memory }
    }

    pub fn get_name(&self) -> (r: String)
        ensures
            r@ == self@.name,
    {
        self.name.clone()
    }

    pub fn get_inputs(&self) -> (r: Vec<bool>)
        ensures
            r@ == self@.inputs,
    {
        let r = self.inputs.clone();
        assert(r@ =~= self@.inputs);
        r
    }

    pub fn get_outputs(&self) -> (r: Vec<bool>)
        ensures
            r@ == self@.outputs,
    {
        let r = self.outputs.clone();
        assert(r@ =~= self@.outputs);
        r
    }

    pub fn get_memory(&self) -> (r: Vec<bool>)
        ensures
            r@ == self@.memory,
    {
        let r = self.memory.clone();
        assert(r@ =~= self@.memory);
        r
    }

    pub fn set_input(&mut self, index: usize, value: bool)
        requires
            index < old(self)@.inputs.len(),
        ensures
            final(self)@ == (GateState {
                inputs: old(self)@.inputs.update(index as int, value),
                ..old(self)@
            }),
    {
        self.inputs[index] = value;
    }

    pub fn set_output(&mut self, index: usize, value: bool)
        requires
            index < old(self)@.outputs.len(),
        ensures
            final(self)@ == (GateState {
                outputs: old(self)@.outputs.update(index as int, value),
                ..old(self)@
            }),
    {
        self.outputs[index] = value;
    }

    pub fn set_memory(&mut self, index: usize, value: bool)
        requires
            index < old(self)@.memory.len(),
        ensures
            final(self)@ == (GateState {
                memory: old(self)@.memory.update(index as int, value),
                ..old(self)@
            }),
    {
        self.memory[index] = value;
    }

    pub fn is_stateful(&self) -> (r: bool)
        ensures
            r == self@.is_stateful(),
    {
        self.memory.len() != 0
    }

    /// Recompute the outputs from the current inputs and memory.
    ///
    /// In table mode the embedded table's row for the current inputs replaces
    /// the outputs and nothing else changes. In scripted mode the external
    /// evaluator runs the script; whatever it returns, name, inputs and
    /// arities are preserved, and the call fails if the script lacks arity
    /// metadata, returns an output vector whose length disagrees with the
    /// declared arity or the output pin count, or resizes memory.
    pub fn calculate(&mut self, calc: &CalcMode) -> (r: Result<(), EvaluationError>)
        requires
            calc.table_serves(old(self)@.inputs.len(), old(self)@.outputs.len()),
        ensures
            final(self)@.name == old(self)@.name,
            final(self)@.inputs == old(self)@.inputs,
            final(self)@.outputs.len() == old(self)@.outputs.len(),
            final(self)@.memory.len() == old(self)@.memory.len(),
            old(self)@.memory.len() == 0 ==> final(self)@.memory == old(self)@.memory,
            calc matches CalcMode::TruthTable(t) ==> r is Ok && final(self)@ == table_step(
                old(self)@,
                t@,
            ),
    {
        match calc {
            CalcMode::TruthTable(t) => {
                proof {
                    assert(t@.contains_key(self.inputs@));
                }
                let key = self.inputs.clone();
                assert(key@ =~= self.inputs@);
                let out = t.get(key);
                self.outputs = out;
                Ok(())
            },
            CalcMode::Lua(code, lua) => {
                lua_exec(lua, code.0.as_str())?;
                if lua_get_global_u8(lua, "NUM_OF_INS").is_err() {
                    return Err(EvaluationError::MissingMetadata);
                }
                let num_outs = match lua_get_global_u8(lua, "NUM_OF_OUTS") {
                    Ok(n) => n,
                    Err(_) => {
                        return Err(EvaluationError::MissingMetadata);
                    },
                };
                if self.memory.len() > 0 {
                    let mem = self.memory.clone();
                    lua_set_global_bools(lua, "memory", mem)?;
                }
                let f = lua_get_global_function(lua, "Calculate")?;
                let args = self.inputs.clone();
                assert(args@ =~= self.inputs@);
                let out = lua_call_bools(&f, args)?;
                if out.len() != num_outs as usize || out.len() != self.outputs.len() {
                    return Err(EvaluationError::OutputArityMismatch);
                }
                self.outputs = out;
                if self.memory.len() > 0 {
                    let new_mem = lua_get_global_bools(lua, "memory")?;
                    if new_mem.len() != self.memory.len() {
                        return Err(EvaluationError::MemoryArityMismatch);
                    }
                    self.memory = new_mem;
                }
                Ok(())
            },
        }
    }
}

/// Enumerate the full input space of a memory-free gate, in increasing
/// binary order, recording the outputs the script computes for each
/// combination into a fresh table. Pin values are restored afterward, so
/// compilation has no visible effect on its target.
///
/// Each combination runs in a fresh evaluator instance, so no state leaks
/// between combinations. A stateful gate is refused; a script failure
/// mid-enumeration aborts the compilation.
pub fn compile_gate_to_truth_table(gate: &mut Gate, code: &LuaCode) -> (r: Result<
    TruthTable,
    CantCompileGate,
>)
    requires
        two_pow(old(gate)@.inputs.len()) <= usize::MAX,
    ensures
        final(gate)@ == old(gate)@,
        old(gate)@.is_stateful() ==> r is Err,
        r matches Ok(t) ==> {
            &&& t.wf()
            &&& !old(gate)@.is_stateful()
            &&& forall|k: Seq<bool>| t@.contains_key(k) <==> k.len() == old(gate)@.inputs.len()
            &&& forall|k: Seq<bool>| #[trigger] t@.contains_key(k) ==> t@[k].len() == old(
                gate,
            )@.outputs.len()
            &&& t.spec_len() == two_pow(old(gate)@.inputs.len())
        },
{
    if gate.is_stateful() {
        return Err(CantCompileGate);
    }
    let saved_inputs = gate.get_inputs();
    let saved_outputs = gate.get_outputs();
    let n = gate.inputs.len();
    let n_out = gate.outputs.len();
    let count = pow2_usize(n);
    let mut table = TruthTable::new();
    let mut failed = false;
    let mut i: usize = 0;
    while i < count
        invariant_except_break
            !failed,
        invariant
            count == two_pow(n as nat),
            gate@.inputs.len() == n,
            gate@.outputs.len() == n_out,
            gate@.name == old(gate)@.name,
            gate@.memory == old(gate)@.memory,
            gate@.memory.len() == 0,
            table.wf(),
            i <= count,
            table.spec_len() == i,
            forall|k: Seq<bool>| #[trigger] table@.contains_key(k) <==> exists|j: int|
                0 <= j < i && k == #[trigger] pattern_of(j as nat, n as nat),
            forall|k: Seq<bool>| #[trigger] table@.contains_key(k) ==> table@[k].len() == n_out,
        ensures
            i <= count,
            gate@.inputs.len() == n,
            gate@.outputs.len() == n_out,
            gate@.name == old(gate)@.name,
            gate@.memory == old(gate)@.memory,
            !failed ==> {
                &&& i == count
                &&& table.wf()
                &&& table.spec_len() == count
                &&& (forall|k: Seq<bool>| #[trigger] table@.contains_key(k) <==> exists|j: int|
                    0 <= j < count && k == #[trigger] pattern_of(j as nat, n as nat))
                &&& (forall|k: Seq<bool>| #[trigger] table@.contains_key(k) ==> table@[k].len()
                    == n_out)
            },
        decreases count - i,
    {
        let inputs = index_to_pattern(i, n);
        proof {
            lemma_pattern_len(i as nat, n as nat);
        }
        gate.inputs = inputs;
        let mode = CalcMode::Lua(code.clone(), lua_new());
        let res = gate.calculate(&mode);
        match res {
            Ok(()) => {
                let outputs = gate.get_outputs();
                let ghost pre = table@;
                proof {
                    assert(!pre.contains_key(pattern_of(i as nat, n as nat))) by {
                        if pre.contains_key(pattern_of(i as nat, n as nat)) {
                            let j = choose|j: int|
                                0 <= j < i && pattern_of(i as nat, n as nat) == #[trigger] pattern_of(
                                    j as nat,
                                    n as nat,
                                );
                            lemma_pattern_injective(i as nat, j as nat, n as nat);
                        }
                    }
                }
                let key = gate.get_inputs();
                table.add(key, outputs);
                proof {
                    assert(table@ == pre.insert(pattern_of(i as nat, n as nat), outputs@));
                    assert forall|k: Seq<bool>| #[trigger] table@.contains_key(k) implies exists|
                        j: int,
                    | 0 <= j < i + 1 && k == #[trigger] pattern_of(j as nat, n as nat) by {
                        if k == pattern_of(i as nat, n as nat) {
                            let j: int = i as int;
                            assert(0 <= j < i + 1 && k == pattern_of(j as nat, n as nat));
                        } else {
                            assert(pre.contains_key(k));
                            let j = choose|j: int|
                                0 <= j < i && k == #[trigger] pattern_of(j as nat, n as nat);
                            assert(0 <= j < i + 1 && k == pattern_of(j as nat, n as nat));
                        }
                    }
                    assert forall|k: Seq<bool>|
                        (exists|j: int| 0 <= j < i + 1 && k == #[trigger] pattern_of(
                            j as nat,
                            n as nat,
                        )) implies #[trigger] table@.contains_key(k) by {
                        let j = choose|j: int|
                            0 <= j < i + 1 && k == #[trigger] pattern_of(j as nat, n as nat);
                        if j < i {
                            assert(pre.contains_key(k));
                        } else {
                            assert(k == pattern_of(i as nat, n as nat));
                        }
                    }
                }
            },
            Err(_) => {
                failed = true;
                break ;
            },
        }
        i = i + 1;
    }
    gate.inputs = saved_inputs;
    gate.outputs = saved_outputs;
    proof {
        assert(gate@ =~= old(gate)@);
    }
    if failed {
        Err(CantCompileGate)
    } else {
        proof {
            assert forall|k: Seq<bool>| #[trigger] table@.contains_key(k) <==> k.len() == n as nat by {
                if table@.contains_key(k) {
                    let j = choose|j: int|
                        0 <= j < count && k == #[trigger] pattern_of(j as nat, n as nat);
                    lemma_pattern_len(j as nat, n as nat);
                }
                if k.len() == n as nat {
                    lemma_value_of_bound(k);
                    lemma_pattern_of_value(k);
                    let j: int = value_of(k) as int;
                    assert(0 <= j < count && k == pattern_of(j as nat, n as nat));
                }
            }
        }
        Ok(table)
    }
}

/// A primitive gate together with its fixed calculation mode.
pub struct BasicGate {
    pub gate: Gate,
    pub calc_mode: CalcMode,
}

impl BasicGate {
    /// A table-backed gate is well formed when its table serves every input
    /// combination of its own arity; a scripted gate always is.
    pub open spec fn wf(&self) -> bool {
        self.calc_mode.table_serves(self.gate@.inputs.len(), self.gate@.outputs.len())
    }

    pub fn from_gate(gate: Gate, calc_mode: CalcMode) -> (r: BasicGate)
        ensures
            r.gate == gate,
            r.calc_mode == calc_mode,
    {
        BasicGate { gate, calc_mode }
    }

    /// Build a gate from script text alone: the script's declared arities
    /// size the pin vectors, all pins starting false. The script runs once,
    /// in the fresh private evaluator that this gate will keep.
    pub fn from_lua_source(name: String, code: String) -> (r: Result<BasicGate, EvaluationError>)
        ensures
            r matches Ok(g) ==> {
                &&& g.gate@.name == name@
                &&& g.gate@.inputs == all_false(g.gate@.inputs.len())
                &&& g.gate@.outputs == all_false(g.gate@.outputs.len())
                &&& g.gate@.memory == all_false(g.gate@.memory.len())
                &&& g.calc_mode matches CalcMode::Lua(c, _) && c.0@ == code@
                &&& g.wf()
            },
    {
        let lua = lua_new();
        lua_exec(&lua, code.as_str())?;
        let input_num = match lua_get_global_u8(&lua, "NUM_OF_INS") {
            Ok(n) => n,
            Err(_) => {
                return Err(EvaluationError::MissingMetadata);
            },
        };
        let output_num = match lua_get_global_u8(&lua, "NUM_OF_OUTS") {
            Ok(n) => n,
            Err(_) => {
                return Err(EvaluationError::MissingMetadata);
            },
        };
        let memory_len: u8 = match lua_get_global_opt_u8(&lua, "MEMORY_SIZE")? {
            Some(m) => m,
            None => 0,
        };
        let inputs: Vec<bool> = vec![false; input_num as usize];
        let outputs: Vec<bool> = vec![false; output_num as usize];
        let memory: Vec<bool> = vec![false; memory_len as usize];
        proof {
            assert(inputs@ =~= all_false(inputs@.len()));
            assert(outputs@ =~= all_false(outputs@.len()));
            assert(memory@ =~= all_false(memory@.len()));
        }
        let gate = Gate::with_buffer(name, inputs, outputs, memory);
        Ok(BasicGate { gate, calc_mode: CalcMode::Lua(LuaCode(code), lua) })
    }

    pub fn get_name(&self) -> (r: String)
        ensures
            r@ == self.gate@.name,
    {
        self.gate.get_name()
    }

    pub fn get_inputs(&self) -> (r: Vec<bool>)
        ensures
            r@ == self.gate@.inputs,
    {
        self.gate.get_inputs()
    }

    pub fn get_outputs(&self) -> (r: Vec<bool>)
        ensures
            r@ == self.gate@.outputs,
    {
        self.gate.get_outputs()
    }

    pub fn get_memory(&self) -> (r: Vec<bool>)
        ensures
            r@ == self.gate@.memory,
    {
        self.gate.get_memory()
    }

    pub fn set_input(&mut self, index: usize, value: bool)
        requires
            index < old(self).gate@.inputs.len(),
        ensures
            final(self).gate@ == (GateState {
                inputs: old(self).gate@.inputs.update(index as int, value),
                ..old(self).gate@
            }),
            final(self).calc_mode == old(self).calc_mode,
    {
        self.gate.set_input(index, value);
    }

    pub fn set_output(&mut self, index: usize, value: bool)
        requires
            index < old(self).gate@.outputs.len(),
        ensures
            final(self).gate@ == (GateState {
                outputs: old(self).gate@.outputs.update(index as int, value),
                ..old(self).gate@
            }),
            final(self).calc_mode == old(self).calc_mode,
    {
        self.gate.set_output(index, value);
    }

    pub fn set_memory(&mut self, index: usize, value: bool)
        requires
            index < old(self).gate@.memory.len(),
        ensures
            final(self).gate@ == (GateState {
                memory: old(self).gate@.memory.update(index as int, value),
                ..old(self).gate@
            }),
            final(self).calc_mode == old(self).calc_mode,
    {
        self.gate.set_memory(index, value);
    }

    pub fn is_stateful(&self) -> (r: bool)
        ensures
            r == self.gate@.is_stateful(),
    {
        self.gate.is_stateful()
    }

    pub fn get_input_num(&self) -> (r: usize)
        ensures
            r == self.gate@.inputs.len(),
    {
        self.gate.inputs.len()
    }

    pub fn get_output_num(&self) -> (r: usize)
        ensures
            r == self.gate@.outputs.len(),
    {
        self.gate.outputs.len()
    }

    /// Recompute outputs in this gate's own mode; the mode itself and the
    /// gate's name, inputs and arities are preserved, and in table mode the
    /// result is exactly one table step.
    pub fn calculate(&mut self) -> (r: Result<(), EvaluationError>)
        requires
            old(self).wf(),
        ensures
            final(self).wf(),
            final(self).calc_mode == old(self).calc_mode,
            final(self).gate@.name == old(self).gate@.name,
            final(self).gate@.inputs == old(self).gate@.inputs,
            final(self).gate@.outputs.len() == old(self).gate@.outputs.len(),
            final(self).gate@.memory.len() == old(self).gate@.memory.len(),
            old(self).gate@.memory.len() == 0 ==> final(self).gate@.memory == old(
                self,
            ).gate@.memory,
            old(self).calc_mode matches CalcMode::TruthTable(t) ==> r is Ok && final(self).gate@
                == table_step(old(self).gate@, t@),
    {
        self.gate.calculate(&self.calc_mode)
    }

    /// A gate can be compiled exactly when it holds no memory.
    pub fn compilable(&self) -> (r: bool)
        ensures
            r == !self.gate@.is_stateful(),
    {
        !self.gate.is_stateful()
    }

    /// Compile to a truth table: a stateful gate is refused; a scripted gate
    /// has its full input space enumerated; a table-backed gate yields a copy
    /// of its embedded table. Pins and mode are unchanged afterward.
    pub fn compile(&mut self) -> (r: Result<TruthTable, CantCompileGate>)
        requires
            (old(self).calc_mode is Lua && !old(self).gate@.is_stateful()) ==> two_pow(
                old(self).gate@.inputs.len(),
            ) <= usize::MAX,
        ensures
            final(self).gate@ == old(self).gate@,
            final(self).calc_mode == old(self).calc_mode,
            old(self).gate@.is_stateful() ==> r is Err,
            r is Ok ==> !old(self).gate@.is_stateful(),
            r matches Ok(t) ==> (old(self).calc_mode is Lua ==> {
                &&& t.wf()
                &&& forall|k: Seq<bool>| t@.contains_key(k) <==> k.len() == old(
                    self,
                ).gate@.inputs.len()
                &&& forall|k: Seq<bool>| #[trigger] t@.contains_key(k) ==> t@[k].len() == old(
                    self,
                ).gate@.outputs.len()
                &&& t.spec_len() == two_pow(old(self).gate@.inputs.len())
            }),
            old(self).calc_mode matches CalcMode::TruthTable(tt) ==> (!old(
                self,
            ).gate@.is_stateful() ==> (r matches Ok(t) && t@ == tt@ && t.wf() == tt.wf())),
    {
        if self.compilable() {
            match &self.calc_mode {
                CalcMode::Lua(code, _) => {
                    let code2 = LuaCode(code.0.clone());
                    compile_gate_to_truth_table(&mut self.gate, &code2)
                },
                CalcMode::TruthTable(tt) => Ok(tt.clone_table()),
            }
        } else {
            Err(CantCompileGate)
        }
    }
}

} // verus!
