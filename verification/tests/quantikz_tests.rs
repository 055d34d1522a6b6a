use qsharp_bridge::circuit::{Circuit, Column, Operation, Qubit, Register};
use qsharp_bridge::grid::Row;
use qsharp_bridge::quantikz::{
    build_rows, circuit_to_quantikz, initialize_table, operation_label, process_unitary,
    render_latex,
};

fn qubit(id: usize, num_results: usize) -> Qubit {
    Qubit { id, num_results }
}

fn wire(q: usize) -> Register {
    Register { qubit: q, result: None }
}

fn outcome(q: usize, i: usize) -> Register {
    Register { qubit: q, result: Some(i) }
}

fn unitary(
    gate: &str,
    args: Vec<&str>,
    is_adjoint: bool,
    targets: Vec<Register>,
    controls: Vec<Register>,
) -> Operation {
    Operation::Unitary {
        gate: gate.to_string(),
        args: args.into_iter().map(|a| a.to_string()).collect(),
        is_adjoint,
        targets,
        controls,
    }
}

fn circuit(qubits: Vec<Qubit>, columns: Vec<Vec<Operation>>) -> Circuit {
    Circuit {
        qubits,
        columns: columns.into_iter().map(|operations| Column { operations }).collect(),
    }
}

#[test]
fn empty_circuit_renders_empty_block() {
    let c = circuit(vec![], vec![]);
    assert_eq!(circuit_to_quantikz(&c), "\\begin{quantikz}\n\\end{quantikz}\n");
}

#[test]
fn lone_qubit_has_a_labeled_quantum_wire() {
    let c = circuit(vec![qubit(0, 0)], vec![]);
    assert_eq!(
        circuit_to_quantikz(&c),
        "\\begin{quantikz}\n\\lstick{$\\ket{0}_{0}$} & \\qw \\\\\n\\end{quantikz}\n"
    );
}

#[test]
fn hadamard_then_measurement_turns_the_wire_classical() {
    let c = circuit(
        vec![qubit(0, 1)],
        vec![
            vec![unitary("H", vec![], false, vec![wire(0)], vec![])],
            vec![Operation::Measurement { qubits: vec![wire(0)], results: vec![outcome(0, 0)] }],
        ],
    );
    assert_eq!(
        circuit_to_quantikz(&c),
        "\\begin{quantikz}\n\
         \\lstick{$\\ket{0}_{0}$} & \\gate{H} & \\meter{} & \\cw \\\\\n\
         \u{20}& \\cw & \\cw & \\cw \\\\\n\
         \\end{quantikz}\n"
    );
}

#[test]
fn swap_draws_glyph_pair_and_forces_a_gap_row() {
    let c = circuit(
        vec![qubit(0, 0), qubit(1, 0)],
        vec![vec![unitary("SWAP", vec![], false, vec![wire(0), wire(1)], vec![])]],
    );
    assert_eq!(
        circuit_to_quantikz(&c),
        "\\begin{quantikz}\n\
         \\lstick{$\\ket{0}_{0}$} & \\swap{2} & \\qw \\\\\n\
         \u{20}& \\cw & \\cw \\\\\n\
         \\lstick{$\\ket{0}_{1}$} & \\targX{} & \\qw \\\\\n\
         \\end{quantikz}\n"
    );
}

#[test]
fn swap_name_matches_case_insensitively() {
    let lower = circuit(
        vec![qubit(0, 0), qubit(1, 0)],
        vec![vec![unitary("swap", vec![], false, vec![wire(0), wire(1)], vec![])]],
    );
    let upper = circuit(
        vec![qubit(0, 0), qubit(1, 0)],
        vec![vec![unitary("Swap", vec![], false, vec![wire(0), wire(1)], vec![])]],
    );
    assert_eq!(circuit_to_quantikz(&lower), circuit_to_quantikz(&upper));
}

#[test]
fn controlled_swap_adds_a_control_glyph() {
    let c = circuit(
        vec![qubit(0, 0), qubit(1, 0), qubit(2, 0)],
        vec![vec![unitary("SWAP", vec![], false, vec![wire(1), wire(2)], vec![wire(0)])]],
    );
    assert_eq!(
        circuit_to_quantikz(&c),
        "\\begin{quantikz}\n\
         \\lstick{$\\ket{0}_{0}$} & \\ctrl{1} & \\qw \\\\\n\
         \\lstick{$\\ket{0}_{1}$} & \\swap{2} & \\qw \\\\\n\
         \u{20}& \\cw & \\cw \\\\\n\
         \\lstick{$\\ket{0}_{2}$} & \\targX{} & \\qw \\\\\n\
         \\end{quantikz}\n"
    );
}

#[test]
fn controlled_x_draws_target_and_control() {
    let c = circuit(
        vec![qubit(0, 0), qubit(1, 0)],
        vec![vec![unitary("X", vec![], false, vec![wire(1)], vec![wire(0)])]],
    );
    assert_eq!(
        circuit_to_quantikz(&c),
        "\\begin{quantikz}\n\
         \\lstick{$\\ket{0}_{0}$} & \\ctrl{1} & \\qw \\\\\n\
         \\lstick{$\\ket{0}_{1}$} & \\targ{} & \\qw \\\\\n\
         \\end{quantikz}\n"
    );
}

#[test]
fn cnot_name_is_treated_like_controlled_x() {
    let x = circuit(
        vec![qubit(0, 0), qubit(1, 0)],
        vec![vec![unitary("X", vec![], false, vec![wire(1)], vec![wire(0)])]],
    );
    let cnot = circuit(
        vec![qubit(0, 0), qubit(1, 0)],
        vec![vec![unitary("CNOT", vec![], false, vec![wire(1)], vec![wire(0)])]],
    );
    assert_eq!(circuit_to_quantikz(&x), circuit_to_quantikz(&cnot));
}

#[test]
fn controlled_z_is_control_styled_on_both_ends() {
    let c = circuit(
        vec![qubit(0, 0), qubit(1, 0)],
        vec![vec![unitary("Z", vec![], false, vec![wire(1)], vec![wire(0)])]],
    );
    assert_eq!(
        circuit_to_quantikz(&c),
        "\\begin{quantikz}\n\
         \\lstick{$\\ket{0}_{0}$} & \\ctrl{1} & \\qw \\\\\n\
         \\lstick{$\\ket{0}_{1}$} & \\ctrl{-1} & \\qw \\\\\n\
         \\end{quantikz}\n"
    );
}

#[test]
fn toffoli_draws_two_controls() {
    let c = circuit(
        vec![qubit(0, 0), qubit(1, 0), qubit(2, 0)],
        vec![vec![unitary("X", vec![], false, vec![wire(2)], vec![wire(0), wire(1)])]],
    );
    assert_eq!(
        circuit_to_quantikz(&c),
        "\\begin{quantikz}\n\
         \\lstick{$\\ket{0}_{0}$} & \\ctrl{2} & \\qw \\\\\n\
         \\lstick{$\\ket{0}_{1}$} & \\ctrl{1} & \\qw \\\\\n\
         \\lstick{$\\ket{0}_{2}$} & \\targ{} & \\qw \\\\\n\
         \\end{quantikz}\n"
    );
}

#[test]
fn namespace_qualified_names_are_stripped() {
    let c = circuit(
        vec![qubit(0, 0)],
        vec![vec![unitary("Quantum.Gates.H", vec![], false, vec![wire(0)], vec![])]],
    );
    assert_eq!(
        circuit_to_quantikz(&c),
        "\\begin{quantikz}\n\\lstick{$\\ket{0}_{0}$} & \\gate{H} & \\qw \\\\\n\\end{quantikz}\n"
    );
}

#[test]
fn rotation_with_argument_and_adjoint_marker() {
    let c = circuit(
        vec![qubit(0, 0)],
        vec![vec![unitary("Intrinsic.Rx", vec!["1.5"], true, vec![wire(0)], vec![])]],
    );
    assert_eq!(
        circuit_to_quantikz(&c),
        "\\begin{quantikz}\n\
         \\lstick{$\\ket{0}_{0}$} & \\gate{R_x^\\dagger(1.5)} & \\qw \\\\\n\
         \\end{quantikz}\n"
    );
}

#[test]
fn multi_target_gate_spans_wires_from_its_first_row() {
    let c = circuit(
        vec![qubit(0, 0), qubit(1, 0), qubit(2, 0)],
        vec![vec![unitary("MyOp", vec![], false, vec![wire(0), wire(1)], vec![])]],
    );
    assert_eq!(
        circuit_to_quantikz(&c),
        "\\begin{quantikz}\n\
         \\lstick{$\\ket{0}_{0}$} & \\gate[wires=2]{MyOp} & \\qw \\\\\n\
         \u{20}& \\cw & \\cw \\\\\n\
         \\lstick{$\\ket{0}_{1}$} & \\qw & \\qw \\\\\n\
         \\lstick{$\\ket{0}_{2}$} & \\qw & \\qw \\\\\n\
         \\end{quantikz}\n"
    );
}

#[test]
fn ket_restores_the_quantum_wire() {
    let c = circuit(
        vec![qubit(0, 1)],
        vec![
            vec![Operation::Measurement { qubits: vec![wire(0)], results: vec![outcome(0, 0)] }],
            vec![Operation::Ket { targets: vec![wire(0)] }],
        ],
    );
    assert_eq!(
        circuit_to_quantikz(&c),
        "\\begin{quantikz}\n\
         \\lstick{$\\ket{0}_{0}$} & \\meter{} & \\gate{\\ket{0}} & \\qw \\\\\n\
         \u{20}& \\cw & \\cw & \\cw \\\\\n\
         \\end{quantikz}\n"
    );
}

#[test]
fn duplicate_registers_resolve_to_one_row() {
    let c = circuit(
        vec![qubit(0, 0)],
        vec![vec![Operation::Measurement { qubits: vec![wire(0), wire(0)], results: vec![] }]],
    );
    assert_eq!(
        circuit_to_quantikz(&c),
        "\\begin{quantikz}\n\\lstick{$\\ket{0}_{0}$} & \\meter{} & \\cw \\\\\n\\end{quantikz}\n"
    );
}

#[test]
fn qubit_ids_need_not_be_consecutive() {
    let c = circuit(
        vec![qubit(5, 0), qubit(7, 0)],
        vec![vec![unitary("H", vec![], false, vec![wire(7)], vec![])]],
    );
    assert_eq!(
        circuit_to_quantikz(&c),
        "\\begin{quantikz}\n\
         \\lstick{$\\ket{0}_{5}$} & \\qw & \\qw \\\\\n\
         \\lstick{$\\ket{0}_{7}$} & \\gate{H} & \\qw \\\\\n\
         \\end{quantikz}\n"
    );
}

#[test]
fn row_count_sums_results_and_gap_indicators() {
    let c = circuit(
        vec![qubit(0, 2), qubit(1, 0), qubit(2, 0)],
        vec![vec![unitary("MyOp", vec![], false, vec![wire(1), wire(2)], vec![])]],
    );
    let (rows, _map) = build_rows(&c);
    assert_eq!(rows.len(), (1 + 2) + (1 + 1) + (1 + 0));
}

#[test]
fn row_count_without_operations_has_no_gaps() {
    let c = circuit(vec![qubit(0, 0), qubit(1, 3)], vec![]);
    let (rows, _map) = build_rows(&c);
    assert_eq!(rows.len(), (1 + 0) + (1 + 3));
}

#[test]
fn gap_fires_only_for_jointly_targeted_neighbors() {
    let joint = circuit(
        vec![qubit(0, 0), qubit(1, 0)],
        vec![vec![unitary("MyOp", vec![], false, vec![wire(0), wire(1)], vec![])]],
    );
    let separate = circuit(
        vec![qubit(0, 0), qubit(1, 0)],
        vec![
            vec![unitary("H", vec![], false, vec![wire(0)], vec![])],
            vec![unitary("H", vec![], false, vec![wire(1)], vec![])],
        ],
    );
    let (joint_rows, _m1) = build_rows(&joint);
    let (separate_rows, _m2) = build_rows(&separate);
    assert_eq!(joint_rows.len(), 3);
    assert_eq!(separate_rows.len(), 2);
}

#[test]
fn initial_table_is_filled_with_default_wires() {
    let rows = vec![
        Row { label: None, is_classical: false },
        Row { label: None, is_classical: true },
    ];
    let table = initialize_table(2, 1, &rows);
    assert_eq!(table, vec![vec!["\\qw", "\\qw"], vec!["\\cw", "\\cw"]]);
}

#[test]
fn render_joins_cells_with_the_column_separator() {
    let rows = vec![
        Row { label: Some("L".to_string()), is_classical: false },
        Row { label: None, is_classical: true },
    ];
    let table = vec![
        vec!["\\qw".to_string(), "\\qw".to_string()],
        vec!["\\cw".to_string(), "\\cw".to_string()],
    ];
    assert_eq!(
        render_latex(&rows, &table),
        "\\begin{quantikz}\nL & \\qw & \\qw \\\\\n & \\cw & \\cw \\\\\n\\end{quantikz}\n"
    );
}

#[test]
fn control_below_target_gets_negative_offset() {
    let c = circuit(
        vec![qubit(0, 0), qubit(1, 0)],
        vec![vec![unitary("X", vec![], false, vec![wire(0)], vec![wire(1)])]],
    );
    assert_eq!(
        circuit_to_quantikz(&c),
        "\\begin{quantikz}\n\
         \\lstick{$\\ket{0}_{0}$} & \\targ{} & \\qw \\\\\n\
         \\lstick{$\\ket{0}_{1}$} & \\ctrl{-1} & \\qw \\\\\n\
         \\end{quantikz}\n"
    );
}

#[test]
fn control_without_target_points_at_itself() {
    let c = circuit(
        vec![qubit(0, 0)],
        vec![vec![unitary("Barrier", vec![], false, vec![], vec![wire(0)])]],
    );
    assert_eq!(
        circuit_to_quantikz(&c),
        "\\begin{quantikz}\n\\lstick{$\\ket{0}_{0}$} & \\ctrl{0} & \\qw \\\\\n\\end{quantikz}\n"
    );
}

#[test]
fn gate_on_a_result_register_lands_on_its_classical_row() {
    let c = circuit(
        vec![qubit(0, 1)],
        vec![vec![unitary("F", vec![], false, vec![outcome(0, 0)], vec![])]],
    );
    assert_eq!(
        circuit_to_quantikz(&c),
        "\\begin{quantikz}\n\
         \\lstick{$\\ket{0}_{0}$} & \\qw & \\qw \\\\\n\
         \u{20}& \\gate{F} & \\cw \\\\\n\
         \\end{quantikz}\n"
    );
}

#[test]
fn process_unitary_touches_only_its_rows() {
    let mut table = vec![
        vec!["\\qw".to_string(), "\\qw".to_string()],
        vec!["\\qw".to_string(), "\\qw".to_string()],
        vec!["\\qw".to_string(), "\\qw".to_string()],
    ];
    process_unitary("swap", &vec![], false, 0, &vec![0, 2], &vec![], &mut table);
    assert_eq!(
        table,
        vec![
            vec!["\\swap{2}", "\\qw"],
            vec!["\\qw", "\\qw"],
            vec!["\\targX{}", "\\qw"],
        ]
    );
}

#[test]
fn label_uses_subscript_rotation_names() {
    assert_eq!(operation_label("Rx", &vec![], false), "R_x");
    assert_eq!(operation_label("Ry", &vec![], false), "R_y");
    assert_eq!(operation_label("Rz", &vec![], false), "R_z");
    assert_eq!(operation_label("R1", &vec![], false), "R_1");
    assert_eq!(operation_label("H", &vec![], false), "H");
}

#[test]
fn label_appends_adjoint_marker_and_arguments() {
    let args = vec!["0.5".to_string(), "x".to_string()];
    assert_eq!(operation_label("Ry", &args, true), "R_y^\\dagger(0.5, x)");
    assert_eq!(operation_label("U", &vec!["a".to_string()], false), "U(a)");
}
