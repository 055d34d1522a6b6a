use qsharp_bridge::errors::QsError;
use qsharp_bridge::qasm::{Qasm2Backend, QasmGenerationOptions, QasmResetBehavior};

fn options(include_qelib: bool, reset_behavior: QasmResetBehavior) -> QasmGenerationOptions {
    QasmGenerationOptions { include_qelib, reset_behavior }
}

#[test]
fn empty_program() {
    let backend = Qasm2Backend::new(options(false, QasmResetBehavior::Supported));
    let qasm = backend.get_qasm().unwrap();
    assert_eq!(qasm, "OPENQASM 2.0;\nqreg q[0];\n");
}

#[test]
fn qelib_include_line() {
    let backend = Qasm2Backend::new(options(true, QasmResetBehavior::Supported));
    let qasm = backend.get_qasm().unwrap();
    assert_eq!(qasm, "OPENQASM 2.0;\ninclude \"qelib1.inc\";\nqreg q[0];\n");
}

#[test]
fn two_qubit_program_without_qelib() {
    let mut backend = Qasm2Backend::new(options(false, QasmResetBehavior::Supported));
    let q0 = backend.qubit_allocate();
    let q1 = backend.qubit_allocate();
    backend.h(q0);
    backend.cx(q0, q1);
    backend.m(q0);
    backend.m(q1);
    let qasm = backend.get_qasm().unwrap();
    assert_eq!(
        qasm,
        "OPENQASM 2.0;\n\
         qreg q[2];\n\
         creg c[2];\n\
         h q[0];\n\
         cx q[0], q[1];\n\
         measure q[0] -> c[0];\n\
         measure q[1] -> c[1];\n"
    );
}

#[test]
fn register_width_is_highest_allocated_id_plus_one() {
    let mut backend = Qasm2Backend::new(options(false, QasmResetBehavior::Supported));
    let q0 = backend.qubit_allocate();
    let q1 = backend.qubit_allocate();
    let q2 = backend.qubit_allocate();
    assert_eq!((q0, q1, q2), (0, 1, 2));
    backend.x(q0);
    backend.y(q1);
    backend.z(q2);
    backend.s(q0);
    backend.t(q1);
    backend.sadj(q2);
    backend.tadj(q0);
    let qasm = backend.get_qasm().unwrap();
    assert!(qasm.contains("qreg q[3];\n"));
    assert!(qasm.contains("x q[0];\n"));
    assert!(qasm.contains("y q[1];\n"));
    assert!(qasm.contains("z q[2];\n"));
    assert!(qasm.contains("s q[0];\n"));
    assert!(qasm.contains("t q[1];\n"));
    assert!(qasm.contains("sdg q[2];\n"));
    assert!(qasm.contains("tdg q[0];\n"));
}

#[test]
fn released_ids_are_never_reused() {
    let mut backend = Qasm2Backend::new(options(false, QasmResetBehavior::Supported));
    let q0 = backend.qubit_allocate();
    assert!(backend.qubit_release(q0));
    let q1 = backend.qubit_allocate();
    assert_eq!(q1, 1);
    let qasm = backend.get_qasm().unwrap();
    assert!(qasm.contains("qreg q[2];\n"));
}

#[test]
fn rotations_carry_the_angle_text() {
    let mut backend = Qasm2Backend::new(options(false, QasmResetBehavior::Supported));
    let q0 = backend.qubit_allocate();
    backend.rx("0.5", q0);
    backend.ry("1.25", q0);
    backend.rz("3.14159", q0);
    let qasm = backend.get_qasm().unwrap();
    assert_eq!(
        qasm,
        "OPENQASM 2.0;\nqreg q[1];\nrx(0.5) q[0];\nry(1.25) q[0];\nrz(3.14159) q[0];\n"
    );
}

#[test]
fn two_and_three_qubit_gates() {
    let mut backend = Qasm2Backend::new(options(false, QasmResetBehavior::Supported));
    let q0 = backend.qubit_allocate();
    let q1 = backend.qubit_allocate();
    let q2 = backend.qubit_allocate();
    backend.cz(q0, q1);
    backend.cy(q1, q2);
    backend.swap(q0, q2);
    backend.qubit_swap_id(q1, q0);
    backend.ccx(q0, q1, q2);
    let qasm = backend.get_qasm().unwrap();
    assert_eq!(
        qasm,
        "OPENQASM 2.0;\n\
         qreg q[3];\n\
         cz q[0], q[1];\n\
         cy q[1], q[2];\n\
         swap q[0], q[2];\n\
         swap q[1], q[0];\n\
         ccx q[0], q[1], q[2];\n"
    );
}

#[test]
fn rzz_expands_to_exactly_three_lines() {
    let mut backend = Qasm2Backend::new(options(false, QasmResetBehavior::Supported));
    let a = backend.qubit_allocate();
    let b = backend.qubit_allocate();
    backend.rzz("0.7", a, b);
    let qasm = backend.get_qasm().unwrap();
    assert_eq!(
        qasm,
        "OPENQASM 2.0;\nqreg q[2];\ncx q[0], q[1];\nrz(0.7) q[1];\ncx q[0], q[1];\n"
    );
}

#[test]
fn rxx_decomposition_order() {
    let mut backend = Qasm2Backend::new(options(false, QasmResetBehavior::Supported));
    let a = backend.qubit_allocate();
    let b = backend.qubit_allocate();
    backend.rxx("0.25", a, b);
    let qasm = backend.get_qasm().unwrap();
    assert_eq!(
        qasm,
        "OPENQASM 2.0;\n\
         qreg q[2];\n\
         h q[0];\n\
         h q[1];\n\
         cx q[0], q[1];\n\
         rz(0.25) q[1];\n\
         cx q[0], q[1];\n\
         h q[0];\n\
         h q[1];\n"
    );
}

#[test]
fn ryy_decomposition_order() {
    let mut backend = Qasm2Backend::new(options(false, QasmResetBehavior::Supported));
    let a = backend.qubit_allocate();
    let b = backend.qubit_allocate();
    backend.ryy("2.5", a, b);
    let qasm = backend.get_qasm().unwrap();
    assert_eq!(
        qasm,
        "OPENQASM 2.0;\n\
         qreg q[2];\n\
         sdg q[0];\n\
         sdg q[1];\n\
         h q[0];\n\
         h q[1];\n\
         cx q[0], q[1];\n\
         rz(2.5) q[1];\n\
         cx q[0], q[1];\n\
         h q[0];\n\
         h q[1];\n\
         s q[0];\n\
         s q[1];\n"
    );
}

#[test]
fn reset_supported_emits_reset_statement() {
    let mut backend = Qasm2Backend::new(options(false, QasmResetBehavior::Supported));
    let q0 = backend.qubit_allocate();
    backend.reset(q0);
    let qasm = backend.get_qasm().unwrap();
    assert_eq!(qasm, "OPENQASM 2.0;\nqreg q[1];\nreset q[0];\n");
}

#[test]
fn mresetz_supported_pairs_measure_with_reset() {
    let mut backend = Qasm2Backend::new(options(false, QasmResetBehavior::Supported));
    let q0 = backend.qubit_allocate();
    backend.mresetz(q0);
    let qasm = backend.get_qasm().unwrap();
    assert_eq!(
        qasm,
        "OPENQASM 2.0;\nqreg q[1];\ncreg c[1];\nmeasure q[0] -> c[0];\nreset q[0];\n"
    );
}

#[test]
fn reset_ignored_never_emits_reset() {
    let mut backend = Qasm2Backend::new(options(false, QasmResetBehavior::Ignored));
    let q0 = backend.qubit_allocate();
    backend.reset(q0);
    backend.mresetz(q0);
    let qasm = backend.get_qasm().unwrap();
    assert_eq!(
        qasm,
        "OPENQASM 2.0;\nqreg q[1];\ncreg c[1];\nmeasure q[0] -> c[0];\n"
    );
    assert!(!qasm.contains("reset"));
}

#[test]
fn ignored_stream_matches_reset_free_stream() {
    let mut with_resets = Qasm2Backend::new(options(false, QasmResetBehavior::Ignored));
    let a0 = with_resets.qubit_allocate();
    let a1 = with_resets.qubit_allocate();
    with_resets.h(a0);
    with_resets.reset(a0);
    with_resets.cx(a0, a1);
    with_resets.mresetz(a1);
    with_resets.reset(a1);
    with_resets.m(a0);

    let mut erased = Qasm2Backend::new(options(false, QasmResetBehavior::Ignored));
    let b0 = erased.qubit_allocate();
    let b1 = erased.qubit_allocate();
    erased.h(b0);
    erased.cx(b0, b1);
    erased.m(b1);
    erased.m(b0);

    assert_eq!(with_resets.get_qasm().unwrap(), erased.get_qasm().unwrap());
}

#[test]
fn reset_error_records_errors_and_withholds_output() {
    let mut backend = Qasm2Backend::new(options(false, QasmResetBehavior::Error));
    let q0 = backend.qubit_allocate();
    backend.reset(q0);
    backend.mresetz(q0);
    let errors = backend.get_qasm().unwrap_err();
    assert_eq!(errors, vec!["Reset is not supported", "Reset is not supported"]);
}

#[test]
fn global_phase_intrinsic_is_a_silent_no_op() {
    let mut backend = Qasm2Backend::new(options(false, QasmResetBehavior::Supported));
    let q0 = backend.qubit_allocate();
    backend.h(q0);
    assert!(backend.custom_intrinsic("GlobalPhase"));
    let qasm = backend.get_qasm().unwrap();
    assert_eq!(qasm, "OPENQASM 2.0;\nqreg q[1];\nh q[0];\n");
}

#[test]
fn unknown_intrinsic_records_one_error_naming_it() {
    let mut backend = Qasm2Backend::new(options(false, QasmResetBehavior::Supported));
    let q0 = backend.qubit_allocate();
    backend.h(q0);
    assert!(!backend.custom_intrinsic("Foo"));
    let errors = backend.get_qasm().unwrap_err();
    assert_eq!(errors, vec!["Custom intrinsic 'Foo' not supported in QASM 2.0"]);
}

#[test]
fn seed_and_zero_test_are_unsupported() {
    let mut backend = Qasm2Backend::new(options(false, QasmResetBehavior::Supported));
    let q0 = backend.qubit_allocate();
    backend.set_seed(Some(42));
    assert!(!backend.qubit_is_zero(q0));
    let errors = backend.get_qasm().unwrap_err();
    assert_eq!(
        errors,
        vec![
            "Set seed not supported in QASM 2.0",
            "Qubit is_zero not supported in QASM 2.0"
        ]
    );
}

#[test]
fn capture_state_is_a_no_op() {
    let mut backend = Qasm2Backend::new(options(false, QasmResetBehavior::Supported));
    let q0 = backend.qubit_allocate();
    backend.h(q0);
    backend.capture_quantum_state();
    let qasm = backend.get_qasm().unwrap();
    assert_eq!(qasm, "OPENQASM 2.0;\nqreg q[1];\nh q[0];\n");
}

#[test]
fn measurement_placeholder_is_false() {
    let mut backend = Qasm2Backend::new(options(false, QasmResetBehavior::Supported));
    let q0 = backend.qubit_allocate();
    assert!(!backend.m(q0));
    assert!(!backend.mresetz(q0));
}

#[test]
fn error_list_joins_with_comma_and_space() {
    let mut backend = Qasm2Backend::new(options(false, QasmResetBehavior::Error));
    let q0 = backend.qubit_allocate();
    backend.reset(q0);
    backend.set_seed(None);
    let errors = backend.get_qasm().unwrap_err();
    let err = QsError::from_messages(&errors);
    assert_eq!(
        err.message(),
        "Reset is not supported, Set seed not supported in QASM 2.0"
    );
}

#[test]
fn single_message_joins_without_separator() {
    let messages = vec![String::from("only this")];
    let err = QsError::from_messages(&messages);
    assert_eq!(err.message(), "only this");
}

#[test]
fn measurement_expression_shape() {
    let mut backend = Qasm2Backend::new(options(false, QasmResetBehavior::Supported));
    let q = backend.qubit_allocate();
    backend.m(q);
    let qasm = backend.get_qasm().unwrap();
    assert_eq!(
        qasm,
        "OPENQASM 2.0;\nqreg q[1];\ncreg c[1];\nmeasure q[0] -> c[0];\n"
    );
}
