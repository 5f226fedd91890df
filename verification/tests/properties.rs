use new_logic_gates::BasicGate;
use new_logic_gates::ButtonGate;
use new_logic_gates::CalcMode;
use new_logic_gates::CantConnect;
use new_logic_gates::Circuit;
use new_logic_gates::CircuitBus;
use new_logic_gates::Component;
use new_logic_gates::Connection;
use new_logic_gates::EvaluationError;
use new_logic_gates::Gate;
use new_logic_gates::InOutPosition;
use new_logic_gates::LampGate;
use new_logic_gates::LuaCode;
use new_logic_gates::NodeId;
use new_logic_gates::TruthTable;
use new_logic_gates::compile_gate_to_truth_table;
use new_logic_gates::string_to_vec_bool;
use new_logic_gates::table_json_round_trip;
use new_logic_gates::truth_table_from_json;
use new_logic_gates::truth_table_to_json;
use new_logic_gates::vec_bool_to_string;

const AND_CODE: &str = r#"
        NUM_OF_INS = 2
        NUM_OF_OUTS = 1

        function Calculate(inputs)
            local result = inputs[1] and inputs[2]
            return {result}
        end
        "#;

const PARITY8_CODE: &str = r#"
        NUM_OF_INS = 8
        NUM_OF_OUTS = 1

        function Calculate(inputs)
            local result = false
            for i, input in ipairs(inputs) do
                if input then result = not result end
            end
            return {result}
        end
        "#;

fn and_mode() -> CalcMode {
    CalcMode::scripted(LuaCode(AND_CODE.to_string()))
}

fn and_table() -> TruthTable {
    let mut gate = Gate::new("AND".to_string(), vec![false, false], vec![false]);
    compile_gate_to_truth_table(&mut gate, &LuaCode(AND_CODE.to_string())).unwrap()
}

#[test]
fn compile_covers_full_input_space() {
    // A memory-free n-input gate compiles to exactly 2^n rows, one per
    // distinct input vector.
    let tt = and_table();
    assert_eq!(tt.len(), 4);

    let mut gate = Gate::new("PARITY".to_string(), vec![false; 8], vec![false]);
    let tt8 = compile_gate_to_truth_table(&mut gate, &LuaCode(PARITY8_CODE.to_string())).unwrap();
    assert_eq!(tt8.len(), 256);
    assert!(tt8.contains_key(&vec![false; 8]));
    assert!(tt8.contains_key(&vec![true; 8]));
    assert!(!tt8.contains_key(&vec![true; 7]));
}

#[test]
fn compile_leaves_gate_unchanged() {
    let mut gate = Gate::new("AND".to_string(), vec![true, false], vec![true]);
    compile_gate_to_truth_table(&mut gate, &LuaCode(AND_CODE.to_string())).unwrap();
    assert_eq!(gate.get_inputs(), vec![true, false]);
    assert_eq!(gate.get_outputs(), vec![true]);
}

#[test]
fn calculate_twice_same_outputs_table_backed() {
    // Idempotence on a memory-free component: with unchanged inputs, a
    // second recomputation yields identical outputs.
    let gate = Gate::new("AND".to_string(), vec![true, true], vec![false]);
    let mut bg = BasicGate::from_gate(gate, CalcMode::TruthTable(and_table()));
    bg.calculate().unwrap();
    let first = bg.get_outputs();
    bg.calculate().unwrap();
    assert_eq!(first, bg.get_outputs());
    assert_eq!(first, vec![true]);
}

#[test]
fn calculate_twice_same_outputs_scripted() {
    let mut gate = Gate::new("AND".to_string(), vec![true, false], vec![true]);
    let mode = and_mode();
    gate.calculate(&mode).unwrap();
    let first = gate.get_outputs();
    gate.calculate(&mode).unwrap();
    assert_eq!(first, gate.get_outputs());
    assert_eq!(first, vec![false]);
}

#[test]
fn round_trip_empty_table() {
    let tt = TruthTable::new();
    let json = truth_table_to_json(&tt).unwrap();
    let back = truth_table_from_json(json.as_str()).unwrap();
    assert!(tt.same_mapping(&back));
    assert_eq!(back.len(), 0);
}

#[test]
fn round_trip_256_entry_table() {
    let mut gate = Gate::new("PARITY".to_string(), vec![false; 8], vec![false]);
    let tt = compile_gate_to_truth_table(&mut gate, &LuaCode(PARITY8_CODE.to_string())).unwrap();
    let json = truth_table_to_json(&tt).unwrap();
    let back = truth_table_from_json(json.as_str()).unwrap();
    assert!(tt.same_mapping(&back));
    assert_eq!(back.len(), 256);
    assert_eq!(back.get(vec![true; 8]), vec![false]);
    let mut one_hot = vec![false; 8];
    one_hot[3] = true;
    assert_eq!(back.get(one_hot), vec![true]);
}

#[test]
fn round_trip_helper_returns_equal_mapping() {
    let tt = and_table();
    let back = table_json_round_trip(&tt).unwrap();
    assert!(tt.same_mapping(&back));
}

#[test]
fn json_text_is_the_documented_format() {
    // One row: pattern "10" mapping to [true]. The text must hold the
    // rendered pattern, so a codec that handed values through unchanged
    // would fail here.
    let mut tt = TruthTable::new();
    tt.add(vec![true, false], vec![true]);
    let json = truth_table_to_json(&tt).unwrap();
    assert_eq!(json, "[[\"10\",[true]]]");
    let back = truth_table_from_json(&json).unwrap();
    assert_eq!(back.get(vec![true, false]), vec![true]);
}

#[test]
fn pattern_text_round_trip() {
    assert_eq!(vec_bool_to_string(&vec![true, false, true]), "101");
    assert_eq!(vec_bool_to_string(&vec![]), "");
    assert_eq!(string_to_vec_bool("0110"), vec![false, true, true, false]);
    assert_eq!(
        string_to_vec_bool(&vec_bool_to_string(&vec![false, true])),
        vec![false, true]
    );
}

#[test]
fn stateful_gate_is_not_compilable() {
    let gate = Gate::with_buffer(
        "BUFFER".to_string(),
        vec![false],
        vec![false],
        vec![false],
    );
    assert!(gate.is_stateful());
    let mut bg = BasicGate::from_gate(gate, and_mode());
    assert!(!bg.compilable());
    assert!(bg.compile().is_err());
}

#[test]
fn stateful_member_makes_circuit_uncompilable() {
    let mut circuit = Circuit::new("Mixed".to_string());
    let combinational = Gate::new("AND".to_string(), vec![false, false], vec![false]);
    let stateful = Gate::with_buffer("BUF".to_string(), vec![false], vec![false], vec![false]);
    circuit.add_gate(Component::Basic(BasicGate::from_gate(combinational, and_mode())), 1);
    assert!(circuit.compilable());
    circuit.add_gate(Component::Basic(BasicGate::from_gate(stateful, and_mode())), 2);
    assert!(!circuit.compilable());
    circuit.add_input(CircuitBus::new());
    assert!(circuit.compile().is_err());
}

#[test]
fn buttons_and_lamps_are_not_compilable() {
    let button = ButtonGate::new();
    let lamp = LampGate::new();
    assert!(!button.compilable());
    assert!(!lamp.compilable());
    assert!(button.compile().is_err());
    assert!(lamp.compile().is_err());

    let mut circuit = Circuit::new("Panel".to_string());
    circuit.add_gate(Component::Button(ButtonGate::new()), 1);
    assert!(!circuit.compilable());
}

#[test]
fn conn_input_out_of_range_leaves_connections_unchanged() {
    let mut circuit = Circuit::new("Wiring".to_string());
    circuit.add_input(CircuitBus::new());
    let gate = Gate::new("AND".to_string(), vec![false, false], vec![false]);
    let g = circuit.add_gate(Component::Basic(BasicGate::from_gate(gate, and_mode())), 1);

    let r = circuit.conn_input_to_gate(1, g, 0);
    assert_eq!(r, Err(CantConnect::InputOutOfRange));
    assert_eq!(circuit.connections.len(), 0);

    let r = circuit.conn_input_to_gate(0, g + 1, 0);
    assert_eq!(r, Err(CantConnect::GateNotInCircuit));
    assert_eq!(circuit.connections.len(), 0);

    assert!(circuit.conn_input_to_gate(0, g, 0).is_ok());
    assert_eq!(circuit.connections.len(), 1);
}

#[test]
fn second_connection_to_same_output_is_refused() {
    let mut circuit = Circuit::new("Wiring".to_string());
    circuit.add_output(CircuitBus::new());
    let gate = Gate::new("AND".to_string(), vec![false, false], vec![false]);
    let g = circuit.add_gate(Component::Basic(BasicGate::from_gate(gate, and_mode())), 1);

    assert_eq!(
        circuit.conn_gate_to_output(1, g, 0),
        Err(CantConnect::OutputOutOfRange)
    );
    assert_eq!(
        circuit.conn_gate_to_output(0, g + 7, 0),
        Err(CantConnect::GateNotInCircuit)
    );
    assert!(circuit.conn_gate_to_output(0, g, 0).is_ok());
    assert_eq!(
        circuit.conn_gate_to_output(0, g, 0),
        Err(CantConnect::OutputAlreadyConnected)
    );
    assert_eq!(circuit.connections.len(), 1);
}

#[test]
fn scripted_and_gate_scenario() {
    // 2-input/1-output gate scripted as logical AND.
    let mut gate = Gate::new("AND".to_string(), vec![true, true], vec![false]);
    let mode = and_mode();
    gate.calculate(&mode).unwrap();
    assert_eq!(gate.get_outputs(), vec![true]);

    gate.set_input(1, false);
    gate.calculate(&mode).unwrap();
    assert_eq!(gate.get_outputs(), vec![false]);
}

#[test]
fn compiled_table_behaves_as_gate() {
    // A compiled 2-input NAND circuit re-embedded as a single table-backed
    // member of an outer pass-through circuit.
    let mut nand = Circuit::new("NAND".to_string());
    nand.add_input(CircuitBus::new());
    nand.add_input(CircuitBus::new());
    nand.add_output(CircuitBus::new());
    let and_idx = nand.add_gate(
        Component::Basic(BasicGate::from_gate(
            Gate::new("AND".to_string(), vec![false, false], vec![false]),
            and_mode(),
        )),
        1,
    );
    let not_idx = nand.add_gate(
        Component::Basic(BasicGate::from_gate(
            Gate::new("NOT".to_string(), vec![false], vec![false]),
            CalcMode::scripted(LuaCode(
                "\n        NUM_OF_INS = 1\n        NUM_OF_OUTS = 1\n\n        function Calculate(inputs)\n            return {not inputs[1]}\n        end\n        "
                    .to_string(),
            )),
        )),
        2,
    );
    nand.conn_input_to_gate(0, and_idx, 0).unwrap();
    nand.conn_input_to_gate(1, and_idx, 1).unwrap();
    nand.connect(NodeId::Gate(and_idx), 0, NodeId::Gate(not_idx), 0);
    nand.conn_gate_to_output(0, not_idx, 0).unwrap();

    let table = nand.compile().unwrap();
    let table_gate = BasicGate::from_gate(
        Gate::new("NAND".to_string(), vec![false, false], vec![false]),
        CalcMode::TruthTable(table),
    );

    let mut outer = Circuit::new("Outer".to_string());
    outer.add_input(CircuitBus::new());
    outer.add_input(CircuitBus::new());
    outer.add_output(CircuitBus::new());
    let inner = outer.add_gate(Component::Basic(table_gate), 3);
    outer.conn_input_to_gate(0, inner, 0).unwrap();
    outer.conn_input_to_gate(1, inner, 1).unwrap();
    outer.conn_gate_to_output(0, inner, 0).unwrap();

    outer.set_input(0, true);
    outer.set_input(1, true);
    outer.calculate().unwrap();
    assert_eq!(outer.get_outputs()[0], false);

    outer.set_input(1, false);
    outer.calculate().unwrap();
    assert_eq!(outer.get_outputs()[0], true);
}

#[test]
fn stateful_toggle_scenario() {
    // 1-input/1-output/1-bit-memory gate that outputs the old memory and
    // then stores the input.
    let toggle_code = r#"
        NUM_OF_INS = 1
        NUM_OF_OUTS = 1
        MEMORY_SIZE = 1

        function Calculate(inputs)
            local out = memory[1]
            memory[1] = inputs[1]
            return {out}
        end
        "#;
    let mut gate = Gate::with_buffer(
        "TOGGLE".to_string(),
        vec![true],
        vec![false],
        vec![false],
    );
    let mode = CalcMode::scripted(LuaCode(toggle_code.to_string()));

    gate.calculate(&mode).unwrap();
    assert_eq!(gate.get_outputs(), vec![false]);
    assert_eq!(gate.get_memory(), vec![true]);

    gate.calculate(&mode).unwrap();
    assert_eq!(gate.get_outputs(), vec![true]);
}

#[test]
fn missing_metadata_is_an_evaluation_error() {
    let code = r#"
        function Calculate(inputs)
            return {true}
        end
        "#;
    let mut gate = Gate::new("BAD".to_string(), vec![false], vec![false]);
    let r = gate.calculate(&CalcMode::scripted(LuaCode(code.to_string())));
    assert!(matches!(r, Err(EvaluationError::MissingMetadata)));
}

#[test]
fn wrong_output_arity_is_an_evaluation_error() {
    let code = r#"
        NUM_OF_INS = 1
        NUM_OF_OUTS = 2

        function Calculate(inputs)
            return {true, false}
        end
        "#;
    let mut gate = Gate::new("WIDE".to_string(), vec![false], vec![false]);
    let r = gate.calculate(&CalcMode::scripted(LuaCode(code.to_string())));
    assert!(matches!(r, Err(EvaluationError::OutputArityMismatch)));
}

#[test]
fn resized_memory_is_an_evaluation_error() {
    let code = r#"
        NUM_OF_INS = 1
        NUM_OF_OUTS = 1
        MEMORY_SIZE = 1

        function Calculate(inputs)
            memory = {true, true}
            return {true}
        end
        "#;
    let mut gate = Gate::with_buffer(
        "GROW".to_string(),
        vec![false],
        vec![false],
        vec![false],
    );
    let r = gate.calculate(&CalcMode::scripted(LuaCode(code.to_string())));
    assert!(matches!(r, Err(EvaluationError::MemoryArityMismatch)));
}

#[test]
fn script_failure_is_an_evaluation_error() {
    let code = "this is not lua at all (";
    let mut gate = Gate::new("BROKEN".to_string(), vec![false], vec![false]);
    let r = gate.calculate(&CalcMode::scripted(LuaCode(code.to_string())));
    assert!(matches!(r, Err(EvaluationError::Script(_))));
    let msg = r.unwrap_err().message();
    assert!(!msg.is_empty());
}

#[test]
fn failing_script_aborts_circuit_calculation() {
    let mut circuit = Circuit::new("Broken".to_string());
    circuit.add_input(CircuitBus::new());
    let g = circuit.add_gate(
        Component::Basic(BasicGate::from_gate(
            Gate::new("BROKEN".to_string(), vec![false], vec![false]),
            CalcMode::scripted(LuaCode("not lua (".to_string())),
        )),
        1,
    );
    circuit.conn_input_to_gate(0, g, 0).unwrap();
    assert!(circuit.calculate().is_err());
    assert!(circuit.compile().is_err());
}

#[test]
fn bus_passes_value_through() {
    let mut bus = CircuitBus::new();
    assert_eq!(bus.get_outputs(), vec![false]);
    bus.set_input(0, true);
    assert_eq!(bus.get_outputs(), vec![true]);
    assert_eq!(bus.get_inputs(), vec![true]);
    bus.calculate().unwrap();
    assert_eq!(bus.get_outputs(), vec![true]);

    let tt = bus.compile().unwrap();
    assert_eq!(tt.len(), 2);
    assert_eq!(tt.get(vec![false]), vec![false]);
    assert_eq!(tt.get(vec![true]), vec![true]);
}

#[test]
fn button_and_lamp_endpoints() {
    let mut button = ButtonGate::new();
    assert_eq!(button.get_input_num(), 0);
    assert_eq!(button.get_output_num(), 1);
    button.set_input(0, true);
    assert_eq!(button.get_outputs(), vec![false]);
    button.set_output(0, true);
    assert_eq!(button.get_outputs(), vec![true]);

    let mut lamp = LampGate::new();
    assert_eq!(lamp.get_input_num(), 1);
    assert_eq!(lamp.get_output_num(), 0);
    lamp.set_input(0, true);
    assert_eq!(lamp.get_inputs(), vec![true]);
    lamp.set_output(0, false);
    assert_eq!(lamp.get_inputs(), vec![true]);
}

#[test]
fn feedback_cycle_terminates() {
    // A NOT gate feeding itself: a pass recomputes each node at most once,
    // so the cycle is evaluated with one round of propagation lag instead of
    // looping forever. The feedback value lands on the pin only after the
    // gate was recomputed, and a node not reachable from a boundary input is
    // never recomputed at all.
    let not_code = r#"
        NUM_OF_INS = 1
        NUM_OF_OUTS = 1

        function Calculate(inputs)
            return {not inputs[1]}
        end
        "#;

    // Unreachable from the boundary: propagation terminates and leaves that
    // member alone.
    let mut lonely = Circuit::new("Lonely".to_string());
    lonely.add_input(CircuitBus::new());
    let lg = lonely.add_gate(
        Component::Basic(BasicGate::from_gate(
            Gate::new("NOT".to_string(), vec![false], vec![false]),
            CalcMode::scripted(LuaCode(not_code.to_string())),
        )),
        1,
    );
    lonely.connect(NodeId::Gate(lg), 0, NodeId::Gate(lg), 0);
    lonely.calculate().unwrap();
    assert_eq!(lonely.gates[lg].get_outputs()[0], false);

    // Reachable, with a self-loop: each pass recomputes that member once;
    // the fed-back value is written after the recomputation, one round late.
    let mut circuit = Circuit::new("Loop".to_string());
    circuit.add_input(CircuitBus::new());
    let g = circuit.add_gate(
        Component::Basic(BasicGate::from_gate(
            Gate::new("NOT".to_string(), vec![false], vec![false]),
            CalcMode::scripted(LuaCode(not_code.to_string())),
        )),
        1,
    );
    circuit.conn_input_to_gate(0, g, 0).unwrap();
    circuit.connect(NodeId::Gate(g), 0, NodeId::Gate(g), 0);

    circuit.set_input(0, false);
    circuit.calculate().unwrap();
    assert_eq!(circuit.gates[g].get_outputs()[0], true);
    // The self-loop copied the fresh output back onto the input pin, after
    // that member had already been recomputed this pass.
    assert_eq!(circuit.gates[g].get_inputs()[0], true);
}

#[test]
fn truth_table_add_overrides_earlier_row() {
    let mut tt = TruthTable::new();
    tt.add(vec![true], vec![false]);
    tt.add(vec![true], vec![true]);
    assert_eq!(tt.len(), 1);
    assert_eq!(tt.get(vec![true]), vec![true]);
}

#[test]
fn gate_accessors_and_updates() {
    let mut gate = Gate::with_buffer(
        "G".to_string(),
        vec![false, true],
        vec![true],
        vec![false, false],
    );
    assert_eq!(gate.get_name(), "G");
    assert_eq!(gate.get_inputs(), vec![false, true]);
    assert_eq!(gate.get_outputs(), vec![true]);
    assert_eq!(gate.get_memory(), vec![false, false]);
    gate.set_input(0, true);
    gate.set_output(0, false);
    gate.set_memory(1, true);
    assert_eq!(gate.get_inputs(), vec![true, true]);
    assert_eq!(gate.get_outputs(), vec![false]);
    assert_eq!(gate.get_memory(), vec![false, true]);
}

#[test]
fn from_lua_source_reads_declared_arities() {
    let code = r#"
        NUM_OF_INS = 3
        NUM_OF_OUTS = 2
        MEMORY_SIZE = 1

        function Calculate(inputs)
            return {inputs[1], inputs[2]}
        end
        "#;
    let bg = BasicGate::from_lua_source("FROM_SOURCE".to_string(), code.to_string()).unwrap();
    assert_eq!(bg.get_name(), "FROM_SOURCE");
    assert_eq!(bg.get_inputs(), vec![false, false, false]);
    assert_eq!(bg.get_outputs(), vec![false, false]);
    assert_eq!(bg.get_memory(), vec![false]);
    assert!(bg.is_stateful());

    let no_memory = r#"
        NUM_OF_INS = 1
        NUM_OF_OUTS = 1

        function Calculate(inputs)
            return {inputs[1]}
        end
        "#;
    let bg2 = BasicGate::from_lua_source("PASS".to_string(), no_memory.to_string()).unwrap();
    assert!(!bg2.is_stateful());
    assert!(BasicGate::from_lua_source("EMPTY".to_string(), "x = 1".to_string()).is_err());
}

#[test]
fn in_out_position_holds_its_index() {
    let pos = InOutPosition::new(7);
    assert_eq!(pos.get(), 7);
}

#[test]
fn connection_error_messages_name_the_cause() {
    assert_eq!(
        CantConnect::InputOutOfRange.message(),
        "input number out of range"
    );
    assert_eq!(
        CantConnect::OutputAlreadyConnected.message(),
        "output already has a producing connection"
    );
}

#[test]
fn member_lookup_by_identity() {
    let mut circuit = Circuit::new("Lookup".to_string());
    let a = circuit.add_gate(
        Component::Basic(BasicGate::from_gate(
            Gate::new("AND".to_string(), vec![false, false], vec![false]),
            and_mode(),
        )),
        42,
    );
    let b = circuit.add_gate(Component::Bus(CircuitBus::new()), 7);
    assert_eq!(circuit.get_gate_num(), 2);
    assert_eq!(circuit.find_gate(42), Some(a));
    assert_eq!(circuit.find_gate(7), Some(b));
    assert_eq!(circuit.find_gate(1000), None);
}

#[test]
fn arity_accessors_match_pin_vectors() {
    let bg = BasicGate::from_gate(
        Gate::new("AND".to_string(), vec![false, false], vec![false]),
        and_mode(),
    );
    assert_eq!(bg.get_input_num(), 2);
    assert_eq!(bg.get_output_num(), 1);

    let bus = CircuitBus::new();
    assert_eq!(bus.get_input_num(), 1);
    assert_eq!(bus.get_output_num(), 1);
    assert_eq!(bus.get_name(), "BUS");

    let mut circuit = Circuit::new("Arity".to_string());
    circuit.add_input(CircuitBus::new());
    circuit.add_input(CircuitBus::new());
    circuit.add_output(CircuitBus::new());
    assert_eq!(circuit.get_input_num(), 2);
    assert_eq!(circuit.get_output_num(), 1);
    assert_eq!(circuit.get_name(), "Arity");
}

#[test]
fn connection_records_its_endpoints() {
    let conn = Connection::new(NodeId::Gate(3), 1, NodeId::BoundaryOutput(0), 0);
    assert_eq!(conn.get_input_gate(), NodeId::Gate(3));
    assert_eq!(conn.get_output_gate(), NodeId::BoundaryOutput(0));
    assert_eq!(conn.get_input_index(), 1);
    assert_eq!(conn.get_output_index(), 0);
}

#[test]
fn reapplying_a_connection_is_idempotent() {
    // update() copies the live source value; with an unchanged source,
    // applying the same connection again changes nothing.
    let mut circuit = Circuit::new("Copy".to_string());
    circuit.add_input(CircuitBus::new());
    let g = circuit.add_gate(
        Component::Basic(BasicGate::from_gate(
            Gate::new("AND".to_string(), vec![false, false], vec![false]),
            and_mode(),
        )),
        1,
    );
    circuit.conn_input_to_gate(0, g, 1).unwrap();
    circuit.set_input(0, true);

    circuit.update_connection(0);
    assert_eq!(circuit.gates[g].get_inputs(), vec![false, true]);
    circuit.update_connection(0);
    assert_eq!(circuit.gates[g].get_inputs(), vec![false, true]);
}

#[test]
fn script_free_pass_is_deterministic() {
    // Two structurally identical circuits whose members are all table backed
    // compute identical results: with no script anywhere, a pass is a
    // function of the starting state.
    fn build() -> Circuit {
        let mut circuit = Circuit::new("Det".to_string());
        circuit.add_input(CircuitBus::new());
        circuit.add_input(CircuitBus::new());
        circuit.add_output(CircuitBus::new());
        let g = circuit.add_gate(
            Component::Basic(BasicGate::from_gate(
                Gate::new("AND".to_string(), vec![false, false], vec![false]),
                CalcMode::TruthTable(and_table()),
            )),
            1,
        );
        circuit.conn_input_to_gate(0, g, 0).unwrap();
        circuit.conn_input_to_gate(1, g, 1).unwrap();
        circuit.conn_gate_to_output(0, g, 0).unwrap();
        circuit.set_input(0, true);
        circuit.set_input(1, true);
        circuit
    }
    let mut a = build();
    let mut b = build();
    a.calculate().unwrap();
    b.calculate().unwrap();
    assert_eq!(a.get_outputs(), b.get_outputs());
    assert_eq!(a.get_outputs(), vec![true]);
}

#[test]
fn table_backed_circuit_compiles_to_its_behaviour() {
    // Compiling a circuit made only of table-backed members is fully
    // deterministic; the NAND built from a table-backed AND plus an
    // inverting table compiles to the NAND table.
    let mut not_table = TruthTable::new();
    not_table.add(vec![false], vec![true]);
    not_table.add(vec![true], vec![false]);

    let mut circuit = Circuit::new("NAND".to_string());
    circuit.add_input(CircuitBus::new());
    circuit.add_input(CircuitBus::new());
    circuit.add_output(CircuitBus::new());
    let a = circuit.add_gate(
        Component::Basic(BasicGate::from_gate(
            Gate::new("AND".to_string(), vec![false, false], vec![false]),
            CalcMode::TruthTable(and_table()),
        )),
        1,
    );
    let n = circuit.add_gate(
        Component::Basic(BasicGate::from_gate(
            Gate::new("NOT".to_string(), vec![false], vec![false]),
            CalcMode::TruthTable(not_table),
        )),
        2,
    );
    circuit.conn_input_to_gate(0, a, 0).unwrap();
    circuit.conn_input_to_gate(1, a, 1).unwrap();
    circuit.connect(NodeId::Gate(a), 0, NodeId::Gate(n), 0);
    circuit.conn_gate_to_output(0, n, 0).unwrap();

    let tt = circuit.compile().unwrap();
    assert_eq!(tt.len(), 4);
    assert_eq!(tt.get(vec![false, false]), vec![true]);
    assert_eq!(tt.get(vec![false, true]), vec![true]);
    assert_eq!(tt.get(vec![true, false]), vec![true]);
    assert_eq!(tt.get(vec![true, true]), vec![false]);
}

#[test]
fn component_compile_dispatches_by_kind() {
    // A bus always compiles, to the identity table; a button never does; a
    // table-backed gate yields its own table back.
    let mut bus = Component::Bus(CircuitBus::new());
    let t = bus.compile().unwrap();
    assert_eq!(t.len(), 2);
    assert_eq!(t.get(vec![true]), vec![true]);
    assert_eq!(t.get(vec![false]), vec![false]);

    let mut button = Component::Button(ButtonGate::new());
    assert!(button.compile().is_err());

    let mut table_gate = Component::Basic(BasicGate::from_gate(
        Gate::new("AND".to_string(), vec![false, false], vec![false]),
        CalcMode::TruthTable(and_table()),
    ));
    let t2 = table_gate.compile().unwrap();
    assert!(t2.same_mapping(&and_table()));
}
