use new_logic_gates::BasicGate;
use new_logic_gates::CalcMode;
use new_logic_gates::Circuit;
use new_logic_gates::CircuitBus;
use new_logic_gates::Component;
use new_logic_gates::Gate;
use new_logic_gates::LuaCode;
use new_logic_gates::NodeId;
use new_logic_gates::TruthTable;
use new_logic_gates::compile_gate_to_truth_table;

const AND_CODE: &str = r#"
        NUM_OF_INS = 2
        NUM_OF_OUTS = 1

        function Calculate(inputs)
            local result = inputs[1] and inputs[2]
            return {result}
        end
        "#;

const NOT_CODE: &str = r#"
        NUM_OF_INS = 1
        NUM_OF_OUTS = 1

        function Calculate(inputs)
            local result = not inputs[1]
            return {result}
        end
        "#;

const OR_CODE: &str = r#"
        NUM_OF_INS = 2
        NUM_OF_OUTS = 1

        function Calculate(inputs)
            local result = inputs[1] or inputs[2]
            return {result}
        end
        "#;

fn basic(gate: Gate, code: &str) -> Component {
    Component::Basic(BasicGate::from_gate(
        gate,
        CalcMode::scripted(LuaCode(code.to_string())),
    ))
}

#[test]
fn test_calculate_and() {
    let mut gate = Gate::new("AND".to_string(), vec![true, true], vec![false]);

    let lua_code = r#"
        NUM_OF_INS = 2
        NUM_OF_OUTS = 1

        function Calculate(inputs)
            local result = true
            for i, input in ipairs(inputs) do
                result = result and input
            end
            return {result}
        end
        "#;

    let lua_code = LuaCode(lua_code.to_string());

    gate.calculate(&CalcMode::scripted(lua_code)).unwrap();

    assert_eq!(gate.get_outputs(), vec![true]);
}

#[test]
fn test_calculate_or() {
    let mut gate = Gate::new("OR".to_string(), vec![false, true], vec![false]);

    let lua_code = r#"
        NUM_OF_INS = 2
        NUM_OF_OUTS = 1

        function Calculate(inputs)
            local result = false
            for i, input in ipairs(inputs) do
                result = result or input
            end
            return {result}
        end
        "#;

    let lua_code = &LuaCode(lua_code.to_string());

    gate.calculate(&CalcMode::scripted(lua_code.clone())).unwrap();

    assert_eq!(gate.get_outputs(), vec![true]);
}

#[test]
fn test_calculate_not() {
    let mut gate = Gate::new("NOT".to_string(), vec![true], vec![false]);

    let lua_code: &str = r#"
        NUM_OF_INS = 2
        NUM_OF_OUTS = 1

        function Calculate(inputs)
            local result = not inputs[1]
            return {result}
        end
        "#;

    let lua_code = LuaCode(lua_code.to_string());

    gate.calculate(&CalcMode::scripted(lua_code)).unwrap();

    assert_eq!(gate.get_outputs(), vec![false]);
}

#[test]
fn test_connection2() {
    let gate1 = Gate::new("AND".to_string(), vec![true, false], vec![false]);
    let gate2 = Gate::new("NOT".to_string(), vec![false], vec![true]);
    let gate3 = Gate::new("OR".to_string(), vec![false, false], vec![false]);

    let lua_code1 = r#"
        NUM_OF_INS = 2
        NUM_OF_OUTS = 1

        function Calculate(inputs)
            local result = inputs[1] and inputs[2]
            return {result}
        end
        "#;
    let lua_code2 = r#"
        NUM_OF_INS = 2
        NUM_OF_OUTS = 1

        function Calculate(inputs)
            local result = not inputs[1]
            return {result}
        end
        "#;
    let lua_code3 = r#"
        NUM_OF_INS = 2
        NUM_OF_OUTS = 1

        function Calculate(inputs)
            local result = inputs[1] or inputs[2]
            return {result}
        end
        "#;

    let mut circuit = Circuit::new("chain".to_string());
    let g1 = circuit.add_gate(basic(gate1, lua_code1), 1);
    let g2 = circuit.add_gate(basic(gate2, lua_code2), 2);
    let g3 = circuit.add_gate(basic(gate3, lua_code3), 3);

    circuit.connect(NodeId::Gate(g1), 0, NodeId::Gate(g2), 0);
    circuit.connect(NodeId::Gate(g2), 0, NodeId::Gate(g3), 0);

    circuit.calc_gate(g1).unwrap();
    circuit.update_connection(0);
    circuit.calc_gate(g2).unwrap();
    circuit.update_connection(1);
    circuit.calc_gate(g3).unwrap();

    assert_eq!(circuit.gates[g3].get_inputs()[0], true);
}

#[test]
fn test_connection_with_changed_inputs() {
    let gate1 = Gate::new("AND".to_string(), vec![true, false], vec![false]);
    let gate2 = Gate::new("NOT".to_string(), vec![false], vec![true]);
    let gate3 = Gate::new("OR".to_string(), vec![false, false], vec![false]);

    let mut circuit = Circuit::new("chain".to_string());
    let g1 = circuit.add_gate(basic(gate1, AND_CODE), 1);
    let g2 = circuit.add_gate(basic(gate2, NOT_CODE), 2);
    let g3 = circuit.add_gate(basic(gate3, OR_CODE), 3);

    circuit.connect(NodeId::Gate(g1), 0, NodeId::Gate(g2), 0);
    circuit.connect(NodeId::Gate(g2), 0, NodeId::Gate(g3), 0);

    circuit.calc_gate(g1).unwrap();
    circuit.update_connection(0);
    circuit.calc_gate(g2).unwrap();
    circuit.update_connection(1);
    circuit.calc_gate(g3).unwrap();

    assert_eq!(circuit.gates[g3].get_outputs()[0], true);

    circuit.gates[g1].set_input(0, true);
    circuit.gates[g1].set_input(1, true);

    circuit.calc_gate(g1).unwrap();
    circuit.update_connection(0);
    circuit.calc_gate(g2).unwrap();
    circuit.update_connection(1);
    circuit.calc_gate(g3).unwrap();

    assert_eq!(circuit.gates[g2].get_outputs()[0], false);
    assert_eq!(circuit.gates[g3].get_inputs()[0], false);
    assert_eq!(circuit.gates[g3].get_inputs()[1], false);
    assert_eq!(circuit.gates[g3].get_outputs()[0], false);
}

const BUFFER_CODE: &str = r#"
        NUM_OF_INS = 1
        NUM_OF_OUTS = 1
        MEMORY_SIZE = 1

        function Calculate(inputs)
            local out = memory[1]
            memory[1] = inputs[1]
            return {out}
        end
        "#;

#[test]
fn test_gate_memory() {
    let mut gate = Gate::with_buffer(
        "BUFFER".to_string(),
        vec![true],
        vec![false],
        vec![false],
    );

    let lua_code = LuaCode(BUFFER_CODE.to_string());
    let mode = CalcMode::scripted(lua_code);

    gate.calculate(&mode).unwrap();
    assert_eq!(gate.get_outputs(), vec![false]);
    gate.calculate(&mode).unwrap();
    assert_eq!(gate.get_outputs(), vec![true]);

    gate.set_input(0, false);
    gate.calculate(&mode).unwrap();
    assert_eq!(gate.get_outputs(), vec![true]);
    gate.calculate(&mode).unwrap();
    assert_eq!(gate.get_outputs(), vec![false]);
}

#[test]
fn test_gate_to_tt() {
    let mut gate = Gate::new("AND".to_string(), vec![true, true], vec![false]);

    let lua_code = LuaCode(AND_CODE.to_string());

    gate.calculate(&CalcMode::scripted(lua_code.clone())).unwrap();

    let tt = compile_gate_to_truth_table(&mut gate, &lua_code).unwrap();

    println!("Truth Table: {:?}", tt);

    fn verify_truth_table(tt: &TruthTable) -> bool {
        let expected_outputs = vec![
            (vec![false, false], vec![false]),
            (vec![false, true], vec![false]),
            (vec![true, false], vec![false]),
            (vec![true, true], vec![true]),
        ];

        for (inputs, expected_output) in expected_outputs {
            let output = tt.get(inputs);
            if output[0] != expected_output[0] {
                return false;
            }
        }

        true
    }

    let is_correct = verify_truth_table(&tt);
    assert!(is_correct, "The truth table does not represent an AND gate correctly.");
}

#[test]
fn test_circuit() {
    let mut circuit = Circuit::new("Test Circuit".to_string());

    let gate1 = Gate::new("AND".to_string(), vec![true, false], vec![false]);
    let gate2 = Gate::new("NOT".to_string(), vec![false], vec![true]);
    let gate3 = Gate::new("OR".to_string(), vec![false, false], vec![false]);

    circuit.add_input(CircuitBus::new());
    circuit.add_input(CircuitBus::new());
    circuit.add_output(CircuitBus::new());

    let and_gate = circuit.add_gate(basic(gate1, AND_CODE), 1);
    let not_gate = circuit.add_gate(basic(gate2, NOT_CODE), 2);
    let or_gate = circuit.add_gate(basic(gate3, OR_CODE), 3);

    circuit.conn_input_to_gate(0, and_gate, 0).unwrap();
    circuit.conn_input_to_gate(0, or_gate, 1).unwrap();
    circuit.conn_input_to_gate(1, and_gate, 1).unwrap();

    circuit.connect(NodeId::Gate(and_gate), 0, NodeId::Gate(or_gate), 0);
    circuit.connect(NodeId::Gate(or_gate), 0, NodeId::Gate(not_gate), 0);

    circuit.conn_gate_to_output(0, not_gate, 0).unwrap();

    circuit.set_input(0, false);
    circuit.set_input(1, false);

    circuit.calculate().unwrap();

    assert_eq!(circuit.get_outputs()[0], true);
}

fn nand_circuit() -> Circuit {
    let mut circuit = Circuit::new("NAND".to_string());

    let and = Gate::new("AND".to_string(), vec![true, false], vec![false]);
    let not = Gate::new("NOT".to_string(), vec![false], vec![true]);

    circuit.add_input(CircuitBus::new());
    circuit.add_input(CircuitBus::new());
    circuit.add_output(CircuitBus::new());

    let and_gate = circuit.add_gate(basic(and, AND_CODE), 1);
    let not_gate = circuit.add_gate(basic(not, NOT_CODE), 2);

    circuit.conn_input_to_gate(0, and_gate, 0).unwrap();
    circuit.conn_input_to_gate(1, and_gate, 1).unwrap();

    circuit.connect(NodeId::Gate(and_gate), 0, NodeId::Gate(not_gate), 0);

    circuit.conn_gate_to_output(0, not_gate, 0).unwrap();

    circuit
}

#[test]
fn test_recursive_circuit() {
    let mut circuit = nand_circuit();

    circuit.set_input(0, true);
    circuit.set_input(1, false);
    circuit.calculate().unwrap();
    assert_eq!(circuit.get_outputs()[0], true);

    let mut circuit2 = Circuit::new("Test".to_string());

    circuit2.add_input(CircuitBus::new());
    circuit2.add_input(CircuitBus::new());
    circuit2.add_output(CircuitBus::new());
    let inner = circuit2.add_gate(Component::Composite(circuit), 4);

    circuit2.conn_input_to_gate(0, inner, 0).unwrap();
    circuit2.conn_input_to_gate(1, inner, 1).unwrap();
    circuit2.conn_gate_to_output(0, inner, 0).unwrap();

    circuit2.set_input(0, true);
    circuit2.set_input(1, true);

    circuit2.calculate().unwrap();
    assert_eq!(circuit2.get_outputs()[0], false);
}

#[test]
fn test_compile_circuit() {
    let mut circuit = nand_circuit();

    circuit.set_input(0, true);
    circuit.set_input(1, false);
    circuit.calculate().unwrap();
    assert_eq!(circuit.get_outputs()[0], true);

    let mut tt = TruthTable::new();
    tt.add(vec![false, false], vec![true]);
    tt.add(vec![false, true], vec![true]);
    tt.add(vec![true, false], vec![true]);
    tt.add(vec![true, true], vec![false]);
    let comp_tt = circuit.compile().unwrap();

    assert!(tt.same_mapping(&comp_tt));

    let mut circuit2 = Circuit::new("Test".to_string());

    circuit2.add_input(CircuitBus::new());
    circuit2.add_input(CircuitBus::new());
    circuit2.add_output(CircuitBus::new());
    let inner = circuit2.add_gate(Component::Composite(circuit), 4);

    circuit2.conn_input_to_gate(0, inner, 0).unwrap();
    circuit2.conn_input_to_gate(1, inner, 1).unwrap();
    circuit2.conn_gate_to_output(0, inner, 0).unwrap();

    circuit2.set_input(0, true);
    circuit2.set_input(1, true);

    circuit2.calculate().unwrap();
    assert_eq!(circuit2.get_outputs()[0], false);
}
