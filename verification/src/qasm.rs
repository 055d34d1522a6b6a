//! The OpenQASM 2.0 emission backend: a stateful object driven by one call
//! per quantum-gate invocation, in program order. It accumulates statement
//! lines, qubit and classical-bit counters and a deferred error list, and
//! assembles the full program text on finalization. Gates that OpenQASM 2.0
//! cannot express natively are decomposed into fixed native sequences;
//! constructs it cannot express at all follow configurable policies or
//! record errors. Rotation angles arrive pre-formatted as text: the backend
//! is a syntactic emitter, not a simulator.
//!
//! Every call's effect on the backend is specified by [`apply`] over the
//! abstract model [`QasmModel`]; the emitted program text is pinned down,
//! character for character, by [`qasm_text`].

use std::collections::HashSet;
use vstd::prelude::*;
use vstd::string::*;

use crate::text::{dec_digits, lines_text, strs_view, usize_text};

verus! {

broadcast use vstd::std_specs::hash::group_hash_axioms;

/// How `reset` and measurement-with-reset are treated.
#[derive(Clone, Copy)]
pub enum QasmResetBehavior {
    /// `reset` statements are emitted.
    Supported,
    /// Resets are silently dropped; measurement-with-reset degrades to a
    /// plain measurement.
    Ignored,
    /// Any reset attempt records an error and emits nothing.
    Error,
}

/// Configuration of the emission backend.
#[derive(Clone, Copy)]
pub struct QasmGenerationOptions {
    /// Whether the standard gate-library include line is emitted.
    pub include_qelib: bool,
    /// The reset policy.
    pub reset_behavior: QasmResetBehavior,
}

/// The abstract state of the backend: emitted lines, recorded errors, the
/// set of currently active qubits, both counters, and the configuration.
#[verifier::ext_equal]
pub ghost struct QasmModel {
    pub code: Seq<Seq<char>>,
    pub errors: Seq<Seq<char>>,
    pub active: Set<usize>,
    pub next_qubit_id: nat,
    pub cbit_counter: nat,
    pub include_qelib: bool,
    pub reset_behavior: QasmResetBehavior,
}

/// The state of a freshly constructed backend.
pub open spec fn init_model(opts: QasmGenerationOptions) -> QasmModel {
    QasmModel {
        code: Seq::empty(),
        errors: Seq::empty(),
        active: Set::empty(),
        next_qubit_id: 0,
        cbit_counter: 0,
        include_qelib: opts.include_qelib,
        reset_behavior: opts.reset_behavior,
    }
}

/// One gate-call invocation, as the abstract model sees it.
pub ghost enum GateCall {
    Allocate,
    Release(usize),
    H(usize),
    X(usize),
    Y(usize),
    Z(usize),
    S(usize),
    T(usize),
    SAdj(usize),
    TAdj(usize),
    Rx(Seq<char>, usize),
    Ry(Seq<char>, usize),
    Rz(Seq<char>, usize),
    Cx(usize, usize),
    Cy(usize, usize),
    Cz(usize, usize),
    Swap(usize, usize),
    QubitSwapId(usize, usize),
    Ccx(usize, usize, usize),
    Rxx(Seq<char>, usize, usize),
    Ryy(Seq<char>, usize, usize),
    Rzz(Seq<char>, usize, usize),
    M(usize),
    MResetZ(usize),
    Reset(usize),
    CustomIntrinsic(Seq<char>),
    QubitIsZero(usize),
    SetSeed,
    CaptureState,
}

/// `<name> q[<q>];`
pub open spec fn gate1_line(name: Seq<char>, q: usize) -> Seq<char> {
    name + " q["@ + dec_digits(q as nat) + "];"@
}

/// `<name>(<theta>) q[<q>];`
pub open spec fn rot_line(name: Seq<char>, theta: Seq<char>, q: usize) -> Seq<char> {
    name + "("@ + theta + ") q["@ + dec_digits(q as nat) + "];"@
}

/// `<name> q[<a>], q[<b>];`
pub open spec fn gate2_line(name: Seq<char>, a: usize, b: usize) -> Seq<char> {
    name + " q["@ + dec_digits(a as nat) + "], q["@ + dec_digits(b as nat) + "];"@
}

/// `ccx q[<a>], q[<b>], q[<c>];`
pub open spec fn gate3_line(a: usize, b: usize, c: usize) -> Seq<char> {
    "ccx q["@ + dec_digits(a as nat) + "], q["@ + dec_digits(b as nat) + "], q["@ + dec_digits(
        c as nat,
    ) + "];"@
}

/// `measure q[<q>] -> c[<c>];`
pub open spec fn measure_line(q: usize, c: nat) -> Seq<char> {
    "measure q["@ + dec_digits(q as nat) + "] -> c["@ + dec_digits(c) + "];"@
}

/// `reset q[<q>];`
pub open spec fn reset_line(q: usize) -> Seq<char> {
    "reset q["@ + dec_digits(q as nat) + "];"@
}

/// The fixed decomposition of `Rxx`: H(a); H(b); CX(a,b); Rz(theta,b);
/// CX(a,b); H(a); H(b).
pub open spec fn rxx_lines(theta: Seq<char>, a: usize, b: usize) -> Seq<Seq<char>> {
    seq![
        gate1_line("h"@, a),
        gate1_line("h"@, b),
        gate2_line("cx"@, a, b),
        rot_line("rz"@, theta, b),
        gate2_line("cx"@, a, b),
        gate1_line("h"@, a),
        gate1_line("h"@, b),
    ]
}

/// The fixed decomposition of `Ryy`: S†(a); S†(b); H(a); H(b); CX(a,b);
/// Rz(theta,b); CX(a,b); H(a); H(b); S(a); S(b).
pub open spec fn ryy_lines(theta: Seq<char>, a: usize, b: usize) -> Seq<Seq<char>> {
    seq![
        gate1_line("sdg"@, a),
        gate1_line("sdg"@, b),
        gate1_line("h"@, a),
        gate1_line("h"@, b),
        gate2_line("cx"@, a, b),
        rot_line("rz"@, theta, b),
        gate2_line("cx"@, a, b),
        gate1_line("h"@, a),
        gate1_line("h"@, b),
        gate1_line("s"@, a),
        gate1_line("s"@, b),
    ]
}

/// The fixed decomposition of `Rzz`: CX(a,b); Rz(theta,b); CX(a,b).
pub open spec fn rzz_lines(theta: Seq<char>, a: usize, b: usize) -> Seq<Seq<char>> {
    seq![gate2_line("cx"@, a, b), rot_line("rz"@, theta, b), gate2_line("cx"@, a, b)]
}

/// The error recorded by a refused reset.
pub open spec fn reset_error_text() -> Seq<char> {
    "Reset is not supported"@
}

/// The error recorded by `qubit_is_zero`.
pub open spec fn qubit_is_zero_error_text() -> Seq<char> {
    "Qubit is_zero not supported in QASM 2.0"@
}

/// The error recorded by `set_seed`.
pub open spec fn set_seed_error_text() -> Seq<char> {
    "Set seed not supported in QASM 2.0"@
}

/// The error recorded by an unrecognized custom intrinsic.
pub open spec fn custom_intrinsic_error_text(name: Seq<char>) -> Seq<char> {
    "Custom intrinsic '"@ + name + "' not supported in QASM 2.0"@
}

/// The model with one more code line.
pub open spec fn with_line(s: QasmModel, line: Seq<char>) -> QasmModel {
    QasmModel { code: s.code.push(line), ..s }
}

/// The model with several more code lines.
pub open spec fn with_lines(s: QasmModel, lines: Seq<Seq<char>>) -> QasmModel {
    QasmModel { code: s.code + lines, ..s }
}

/// The model with one more recorded error.
pub open spec fn with_error(s: QasmModel, msg: Seq<char>) -> QasmModel {
    QasmModel { errors: s.errors.push(msg), ..s }
}

/// The effect of one gate call on the backend state. This is the complete
/// per-call contract of the emission protocol.
pub open spec fn apply(s: QasmModel, call: GateCall) -> QasmModel {
    match call {
        GateCall::Allocate => QasmModel {
            next_qubit_id: s.next_qubit_id + 1,
            active: s.active.insert(s.next_qubit_id as usize),
            ..s
        },
        GateCall::Release(q) => QasmModel { active: s.active.remove(q), ..s },
        GateCall::H(q) => with_line(s, gate1_line("h"@, q)),
        GateCall::X(q) => with_line(s, gate1_line("x"@, q)),
        GateCall::Y(q) => with_line(s, gate1_line("y"@, q)),
        GateCall::Z(q) => with_line(s, gate1_line("z"@, q)),
        GateCall::S(q) => with_line(s, gate1_line("s"@, q)),
        GateCall::T(q) => with_line(s, gate1_line("t"@, q)),
        GateCall::SAdj(q) => with_line(s, gate1_line("sdg"@, q)),
        GateCall::TAdj(q) => with_line(s, gate1_line("tdg"@, q)),
        GateCall::Rx(theta, q) => with_line(s, rot_line("rx"@, theta, q)),
        GateCall::Ry(theta, q) => with_line(s, rot_line("ry"@, theta, q)),
        GateCall::Rz(theta, q) => with_line(s, rot_line("rz"@, theta, q)),
        GateCall::Cx(a, b) => with_line(s, gate2_line("cx"@, a, b)),
        GateCall::Cy(a, b) => with_line(s, gate2_line("cy"@, a, b)),
        GateCall::Cz(a, b) => with_line(s, gate2_line("cz"@, a, b)),
        GateCall::Swap(a, b) => with_line(s, gate2_line("swap"@, a, b)),
        GateCall::QubitSwapId(a, b) => with_line(s, gate2_line("swap"@, a, b)),
        GateCall::Ccx(a, b, c) => with_line(s, gate3_line(a, b, c)),
        GateCall::Rxx(theta, a, b) => with_lines(s, rxx_lines(theta, a, b)),
        GateCall::Ryy(theta, a, b) => with_lines(s, ryy_lines(theta, a, b)),
        GateCall::Rzz(theta, a, b) => with_lines(s, rzz_lines(theta, a, b)),
        GateCall::M(q) => QasmModel {
            cbit_counter: s.cbit_counter + 1,
            code: s.code.push(measure_line(q, s.cbit_counter)),
            ..s
        },
        GateCall::MResetZ(q) => match s.reset_behavior {
            QasmResetBehavior::Supported => QasmModel {
                cbit_counter: s.cbit_counter + 1,
                code: s.code.push(measure_line(q, s.cbit_counter)).push(reset_line(q)),
                ..s
            },
            QasmResetBehavior::Ignored => QasmModel {
                cbit_counter: s.cbit_counter + 1,
                code: s.code.push(measure_line(q, s.cbit_counter)),
                ..s
            },
            QasmResetBehavior::Error => with_error(s, reset_error_text()),
        },
        GateCall::Reset(q) => match s.reset_behavior {
            QasmResetBehavior::Supported => with_line(s, reset_line(q)),
            QasmResetBehavior::Ignored => s,
            QasmResetBehavior::Error => with_error(s, reset_error_text()),
        },
        GateCall::CustomIntrinsic(name) => if name == "GlobalPhase"@ {
            s
        } else {
            with_error(s, custom_intrinsic_error_text(name))
        },
        GateCall::QubitIsZero(_) => with_error(s, qubit_is_zero_error_text()),
        GateCall::SetSeed => with_error(s, set_seed_error_text()),
        GateCall::CaptureState => s,
    }
}

/// The program header: version line, optional gate-library include, the
/// quantum register, and the classical register when any bit was used.
pub open spec fn header_text(s: QasmModel) -> Seq<char> {
    "OPENQASM 2.0;\n"@ + (if s.include_qelib {
        "include \"qelib1.inc\";\n"@
    } else {
        Seq::<char>::empty()
    }) + "qreg q["@ + dec_digits(s.next_qubit_id) + "];\n"@ + (if s.cbit_counter > 0 {
        "creg c["@ + dec_digits(s.cbit_counter) + "];\n"@
    } else {
        Seq::<char>::empty()
    })
}

/// The complete program text a backend in state `s` assembles on success.
pub open spec fn qasm_text(s: QasmModel) -> Seq<char> {
    header_text(s) + lines_text(s.code)
}

/// Whether a call lies in the always-supported fragment: no reset, no
/// measurement-with-reset, no seed or zero-test query, and no custom
/// intrinsic other than `GlobalPhase`.
pub open spec fn supported_gate_call(call: GateCall) -> bool {
    match call {
        GateCall::MResetZ(_) => false,
        GateCall::Reset(_) => false,
        GateCall::QubitIsZero(_) => false,
        GateCall::SetSeed => false,
        GateCall::CustomIntrinsic(name) => name == "GlobalPhase"@,
        _ => true,
    }
}

/// The state a whole stream of calls drives the backend into.
pub open spec fn apply_all(s: QasmModel, calls: Seq<GateCall>) -> QasmModel
    decreases calls.len(),
{
    if calls.len() == 0 {
        s
    } else {
        apply(apply_all(s, calls.drop_last()), calls.last())
    }
}

/// How many allocations a stream contains.
pub open spec fn allocate_count(calls: Seq<GateCall>) -> nat
    decreases calls.len(),
{
    if calls.len() == 0 {
        0
    } else {
        allocate_count(calls.drop_last()) + (if calls.last() is Allocate {
            1nat
        } else {
            0nat
        })
    }
}

/// Law: a gate stream without resets, measurement-with-resets or
/// unsupported intrinsics records no error, so finalization succeeds; and
/// the quantum register width `next_qubit_id` equals the number of
/// allocations in the stream. Ids are handed out consecutively from zero,
/// so that width is the highest allocated id plus one.
pub proof fn lemma_supported_stream_succeeds(opts: QasmGenerationOptions, calls: Seq<GateCall>)
    requires
        forall|i: int| 0 <= i < calls.len() ==> supported_gate_call(#[trigger] calls[i]),
    ensures
        apply_all(init_model(opts), calls).errors.len() == 0,
        apply_all(init_model(opts), calls).next_qubit_id == allocate_count(calls),
    decreases calls.len(),
{
    if calls.len() > 0 {
        let prefix = calls.drop_last();
        assert(forall|i: int| 0 <= i < prefix.len() ==> supported_gate_call(
            #[trigger] prefix[i],
        ));
        lemma_supported_stream_succeeds(opts, prefix);
        assert(supported_gate_call(calls[calls.len() - 1]));
    }
}

/// Law (reset policy): `Ignored` never emits a `reset` line — a reset adds
/// nothing and a measurement-with-reset adds only its `measure` line;
/// `Error` emits no line for either call and records an error; `Supported`
/// answers a measurement-with-reset with a `measure` immediately followed
/// by a `reset` of the same qubit.
pub proof fn lemma_reset_policy(s: QasmModel, q: usize)
    ensures
        s.reset_behavior is Ignored ==> apply(s, GateCall::Reset(q)).code == s.code && apply(
            s,
            GateCall::MResetZ(q),
        ).code == s.code.push(measure_line(q, s.cbit_counter)),
        s.reset_behavior is Error ==> apply(s, GateCall::Reset(q)).code == s.code && apply(
            s,
            GateCall::MResetZ(q),
        ).code == s.code && apply(s, GateCall::Reset(q)).errors.len() == s.errors.len() + 1
            && apply(s, GateCall::MResetZ(q)).errors.len() == s.errors.len() + 1,
        s.reset_behavior is Supported ==> apply(s, GateCall::MResetZ(q)).code == s.code.push(
            measure_line(q, s.cbit_counter),
        ).push(reset_line(q)),
{
}

/// No gate call changes the backend's configuration.
pub proof fn lemma_apply_keeps_options(s: QasmModel, call: GateCall)
    ensures
        apply(s, call).reset_behavior == s.reset_behavior,
        apply(s, call).include_qelib == s.include_qelib,
{
}

/// The stream with every reset dropped and every measurement-with-reset
/// replaced by a plain measurement.
pub open spec fn erase_resets(calls: Seq<GateCall>) -> Seq<GateCall>
    decreases calls.len(),
{
    if calls.len() == 0 {
        Seq::empty()
    } else {
        erase_resets(calls.drop_last()) + (match calls.last() {
            GateCall::Reset(_) => Seq::<GateCall>::empty(),
            GateCall::MResetZ(q) => seq![GateCall::M(q)],
            other => seq![other],
        })
    }
}

/// Law (reset policy `Ignored`, stream form): a whole stream drives the
/// backend into exactly the state of the same stream with every reset
/// erased — so no reset construct ever reaches the emitted code.
pub proof fn lemma_ignored_stream_erases_resets(s: QasmModel, calls: Seq<GateCall>)
    requires
        s.reset_behavior is Ignored,
    ensures
        apply_all(s, calls) == apply_all(s, erase_resets(calls)),
    decreases calls.len(),
{
    if calls.len() > 0 {
        let prefix = calls.drop_last();
        lemma_ignored_stream_erases_resets(s, prefix);
        lemma_apply_all_keeps_reset_behavior(s, prefix);
        match calls.last() {
            GateCall::Reset(_) => {
                assert(erase_resets(calls) =~= erase_resets(prefix));
            },
            GateCall::MResetZ(q) => {
                assert(erase_resets(calls) =~= erase_resets(prefix).push(GateCall::M(q)));
                assert(erase_resets(prefix).push(GateCall::M(q)).drop_last() =~= erase_resets(
                    prefix,
                ));
            },
            other => {
                assert(erase_resets(calls) =~= erase_resets(prefix).push(other));
                assert(erase_resets(prefix).push(other).drop_last() =~= erase_resets(prefix));
            },
        }
    } else {
        assert(erase_resets(calls) =~= calls);
    }
}

/// A whole stream keeps the reset policy it started with.
pub proof fn lemma_apply_all_keeps_reset_behavior(s: QasmModel, calls: Seq<GateCall>)
    ensures
        apply_all(s, calls).reset_behavior == s.reset_behavior,
    decreases calls.len(),
{
    if calls.len() > 0 {
        lemma_apply_all_keeps_reset_behavior(s, calls.drop_last());
        lemma_apply_keeps_options(apply_all(s, calls.drop_last()), calls.last());
    }
}

/// Law (custom intrinsics): `GlobalPhase` neither records an error nor
/// emits code; any other name records exactly one error naming the
/// intrinsic, and emits nothing.
pub proof fn lemma_custom_intrinsic(s: QasmModel, name: Seq<char>)
    ensures
        name == "GlobalPhase"@ ==> apply(s, GateCall::CustomIntrinsic(name)) == s,
        name != "GlobalPhase"@ ==> apply(s, GateCall::CustomIntrinsic(name)).code == s.code
            && apply(s, GateCall::CustomIntrinsic(name)).errors == s.errors.push(
            custom_intrinsic_error_text(name),
        ),
{
}

/// The OpenQASM 2.0 emission backend.
pub struct Qasm2Backend {
    code: Vec<String>,
    errors: Vec<String>,
    qubits: HashSet<usize>,
    next_qubit_id: usize,
    cbit_counter: usize,
    generation_options: QasmGenerationOptions,
}

impl View for Qasm2Backend {
    type V = QasmModel;

    closed spec fn view(&self) -> QasmModel {
        QasmModel {
            code: strs_view(self.code@),
            errors: strs_view(self.errors@),
            active: self.qubits@,
            next_qubit_id: self.next_qubit_id as nat,
            cbit_counter: self.cbit_counter as nat,
            include_qelib: self.generation_options.include_qelib,
            reset_behavior: self.generation_options.reset_behavior,
        }
    }
}

fn gate1_string(name: &str, q: usize) -> (r: String)
    ensures
        r@ == gate1_line(name@, q),
{
    let mut s = String::from_str(name);
    s.append(" q[");
    let t = usize_text(q);
    s.append(t.as_str());
    s.append("];");
    proof {
        assert(s@ =~= gate1_line(name@, q));
    }
    s
}

fn rot_string(name: &str, theta: &str, q: usize) -> (r: String)
    ensures
        r@ == rot_line(name@, theta@, q),
{
    let mut s = String::from_str(name);
    s.append("(");
    s.append(theta);
    s.append(") q[");
    let t = usize_text(q);
    s.append(t.as_str());
    s.append("];");
    proof {
        assert(s@ =~= rot_line(name@, theta@, q));
    }
    s
}

fn gate2_string(name: &str, a: usize, b: usize) -> (r: String)
    ensures
        r@ == gate2_line(name@, a, b),
{
    let mut s = String::from_str(name);
    s.append(" q[");
    let ta = usize_text(a);
    s.append(ta.as_str());
    s.append("], q[");
    let tb = usize_text(b);
    s.append(tb.as_str());
    s.append("];");
    proof {
        assert(s@ =~= gate2_line(name@, a, b));
    }
    s
}

fn gate3_string(a: usize, b: usize, c: usize) -> (r: String)
    ensures
        r@ == gate3_line(a, b, c),
{
    let mut s = String::from_str("ccx q[");
    let ta = usize_text(a);
    s.append(ta.as_str());
    s.append("], q[");
    let tb = usize_text(b);
    s.append(tb.as_str());
    s.append("], q[");
    let tc = usize_text(c);
    s.append(tc.as_str());
    s.append("];");
    proof {
        assert(s@ =~= gate3_line(a, b, c));
    }
    s
}

fn measure_string(q: usize, c: usize) -> (r: String)
    ensures
        r@ == measure_line(q, c as nat),
{
    let mut s = String::from_str("measure q[");
    let tq = usize_text(q);
    s.append(tq.as_str());
    s.append("] -> c[");
    let tc = usize_text(c);
    s.append(tc.as_str());
    s.append("];");
    proof {
        assert(s@ =~= measure_line(q, c as nat));
    }
    s
}

fn reset_string(q: usize) -> (r: String)
    ensures
        r@ == reset_line(q),
{
    let mut s = String::from_str("reset q[");
    let tq = usize_text(q);
    s.append(tq.as_str());
    s.append("];");
    proof {
        assert(s@ =~= reset_line(q));
    }
    s
}

impl Qasm2Backend {
    /// A fresh backend: no code, no errors, no qubits, both counters zero.
    pub fn new(generation_options: QasmGenerationOptions) -> (r: Qasm2Backend)
        ensures
            r@ == init_model(generation_options),
    {
        let r = Qasm2Backend {
            code: Vec::new(),
            qubits: HashSet::new(),
            next_qubit_id: 0,
            cbit_counter: 0,
            errors: Vec::new(),
            generation_options,
        };
        proof {
            assert(r@ =~= init_model(generation_options));
        }
        r
    }

    /// Reserves and returns the next qubit id. Ids are monotonic and never
    /// reused, even after a release.
    pub fn qubit_allocate(&mut self) -> (q: usize)
        requires
            old(self)@.next_qubit_id < usize::MAX,
        ensures
            final(self)@ == apply(old(self)@, GateCall::Allocate),
            q as nat == old(self)@.next_qubit_id,
    {
        let q = self.next_qubit_id;
        self.next_qubit_id += 1;
        self.qubits.insert(q);
        proof {
            assert(self@ =~= apply(old(self)@, GateCall::Allocate));
        }
        q
    }

    /// Removes `q` from the active set. Always succeeds: the output format
    /// has no notion of qubit lifetime.
    pub fn qubit_release(&mut self, q: usize) -> (r: bool)
        ensures
            final(self)@ == apply(old(self)@, GateCall::Release(q)),
            r == true,
    {
        self.qubits.remove(&q);
        proof {
            assert(self@ =~= apply(old(self)@, GateCall::Release(q)));
        }
        true
    }

    /// Emits `h q[<q>];`.
    pub fn h(&mut self, q: usize)
        ensures
            final(self)@ == apply(old(self)@, GateCall::H(q)),
    {
        let line = gate1_string("h", q);
        self.code.push(line);
        proof {
            assert(self@ =~= apply(old(self)@, GateCall::H(q)));
        }
    }

    /// Emits `x q[<q>];`.
    pub fn x(&mut self, q: usize)
        ensures
            final(self)@ == apply(old(self)@, GateCall::X(q)),
    {
        let line = gate1_string("x", q);
        self.code.push(line);
        proof {
            assert(self@ =~= apply(old(self)@, GateCall::X(q)));
        }
    }

    /// Emits `y q[<q>];`.
    pub fn y(&mut self, q: usize)
        ensures
            final(self)@ == apply(old(self)@, GateCall::Y(q)),
    {
        let line = gate1_string("y", q);
        self.code.push(line);
        proof {
            assert(self@ =~= apply(old(self)@, GateCall::Y(q)));
        }
    }

    /// Emits `z q[<q>];`.
    pub fn z(&mut self, q: usize)
        ensures
            final(self)@ == apply(old(self)@, GateCall::Z(q)),
    {
        let line = gate1_string("z", q);
        self.code.push(line);
        proof {
            assert(self@ =~= apply(old(self)@, GateCall::Z(q)));
        }
    }

    /// Emits `s q[<q>];`.
    pub fn s(&mut self, q: usize)
        ensures
            final(self)@ == apply(old(self)@, GateCall::S(q)),
    {
        let line = gate1_string("s", q);
        self.code.push(line);
        proof {
            assert(self@ =~= apply(old(self)@, GateCall::S(q)));
        }
    }

    /// Emits `t q[<q>];`.
    pub fn t(&mut self, q: usize)
        ensures
            final(self)@ == apply(old(self)@, GateCall::T(q)),
    {
        let line = gate1_string("t", q);
        self.code.push(line);
        proof {
            assert(self@ =~= apply(old(self)@, GateCall::T(q)));
        }
    }

    /// Emits `sdg q[<q>];`.
    pub fn sadj(&mut self, q: usize)
        ensures
            final(self)@ == apply(old(self)@, GateCall::SAdj(q)),
    {
        let line = gate1_string("sdg", q);
        self.code.push(line);
        proof {
            assert(self@ =~= apply(old(self)@, GateCall::SAdj(q)));
        }
    }

    /// Emits `tdg q[<q>];`.
    pub fn tadj(&mut self, q: usize)
        ensures
            final(self)@ == apply(old(self)@, GateCall::TAdj(q)),
    {
        let line = gate1_string("tdg", q);
        self.code.push(line);
        proof {
            assert(self@ =~= apply(old(self)@, GateCall::TAdj(q)));
        }
    }

    /// Emits `rx(<theta>) q[<q>];`. The angle arrives pre-formatted.
    pub fn rx(&mut self, theta: &str, q: usize)
        ensures
            final(self)@ == apply(old(self)@, GateCall::Rx(theta@, q)),
    {
        let line = rot_string("rx", theta, q);
        self.code.push(line);
        proof {
            assert(self@ =~= apply(old(self)@, GateCall::Rx(theta@, q)));
        }
    }

    /// Emits `ry(<theta>) q[<q>];`. The angle arrives pre-formatted.
    pub fn ry(&mut self, theta: &str, q: usize)
        ensures
            final(self)@ == apply(old(self)@, GateCall::Ry(theta@, q)),
    {
        let line = rot_string("ry", theta, q);
        self.code.push(line);
        proof {
            assert(self@ =~= apply(old(self)@, GateCall::Ry(theta@, q)));
        }
    }

    /// Emits `rz(<theta>) q[<q>];`. The angle arrives pre-formatted.
    pub fn rz(&mut self, theta: &str, q: usize)
        ensures
            final(self)@ == apply(old(self)@, GateCall::Rz(theta@, q)),
    {
        let line = rot_string("rz", theta, q);
        self.code.push(line);
        proof {
            assert(self@ =~= apply(old(self)@, GateCall::Rz(theta@, q)));
        }
    }

    /// Emits `cx q[<ctl>], q[<q>];`.
    pub fn cx(&mut self, ctl: usize, q: usize)
        ensures
            final(self)@ == apply(old(self)@, GateCall::Cx(ctl, q)),
    {
        let line = gate2_string("cx", ctl, q);
        self.code.push(line);
        proof {
            assert(self@ =~= apply(old(self)@, GateCall::Cx(ctl, q)));
        }
    }

    /// Emits `cy q[<ctl>], q[<q>];`.
    pub fn cy(&mut self, ctl: usize, q: usize)
        ensures
            final(self)@ == apply(old(self)@, GateCall::Cy(ctl, q)),
    {
        let line = gate2_string("cy", ctl, q);
        self.code.push(line);
        proof {
            assert(self@ =~= apply(old(self)@, GateCall::Cy(ctl, q)));
        }
    }

    /// Emits `cz q[<ctl>], q[<q>];`.
    pub fn cz(&mut self, ctl: usize, q: usize)
        ensures
            final(self)@ == apply(old(self)@, GateCall::Cz(ctl, q)),
    {
        let line = gate2_string("cz", ctl, q);
        self.code.push(line);
        proof {
            assert(self@ =~= apply(old(self)@, GateCall::Cz(ctl, q)));
        }
    }

    /// Emits `swap q[<a>], q[<b>];`.
    pub fn swap(&mut self, a: usize, b: usize)
        ensures
            final(self)@ == apply(old(self)@, GateCall::Swap(a, b)),
    {
        let line = gate2_string("swap", a, b);
        self.code.push(line);
        proof {
            assert(self@ =~= apply(old(self)@, GateCall::Swap(a, b)));
        }
    }

    /// A qubit-id swap is rendered as a `swap` statement.
    pub fn qubit_swap_id(&mut self, a: usize, b: usize)
        ensures
            final(self)@ == apply(old(self)@, GateCall::QubitSwapId(a, b)),
    {
        self.swap(a, b);
    }

    /// Emits `ccx q[<a>], q[<b>], q[<c>];`.
    pub fn ccx(&mut self, a: usize, b: usize, c: usize)
        ensures
            final(self)@ == apply(old(self)@, GateCall::Ccx(a, b, c)),
    {
        let line = gate3_string(a, b, c);
        self.code.push(line);
        proof {
            assert(self@ =~= apply(old(self)@, GateCall::Ccx(a, b, c)));
        }
    }

    /// Decomposes `Rxx` into its fixed native sequence; the ordering is an
    /// observable contract.
    pub fn rxx(&mut self, theta: &str, a: usize, b: usize)
        ensures
            final(self)@ == apply(old(self)@, GateCall::Rxx(theta@, a, b)),
    {
        let l0 = gate1_string("h", a);
        self.code.push(l0);
        let l1 = gate1_string("h", b);
        self.code.push(l1);
        let l2 = gate2_string("cx", a, b);
        self.code.push(l2);
        let l3 = rot_string("rz", theta, b);
        self.code.push(l3);
        let l4 = gate2_string("cx", a, b);
        self.code.push(l4);
        let l5 = gate1_string("h", a);
        self.code.push(l5);
        let l6 = gate1_string("h", b);
        self.code.push(l6);
        proof {
            assert(strs_view(self.code@) =~= strs_view(old(self).code@) + rxx_lines(
                theta@,
                a,
                b,
            ));
            assert(self@ =~= apply(old(self)@, GateCall::Rxx(theta@, a, b)));
        }
    }

    /// Decomposes `Ryy` into its fixed native sequence; the ordering is an
    /// observable contract.
    pub fn ryy(&mut self, theta: &str, a: usize, b: usize)
        ensures
            final(self)@ == apply(old(self)@, GateCall::Ryy(theta@, a, b)),
    {
        let l0 = gate1_string("sdg", a);
        self.code.push(l0);
        let l1 = gate1_string("sdg", b);
        self.code.push(l1);
        let l2 = gate1_string("h", a);
        self.code.push(l2);
        let l3 = gate1_string("h", b);
        self.code.push(l3);
        let l4 = gate2_string("cx", a, b);
        self.code.push(l4);
        let l5 = rot_string("rz", theta, b);
        self.code.push(l5);
        let l6 = gate2_string("cx", a, b);
        self.code.push(l6);
        let l7 = gate1_string("h", a);
        self.code.push(l7);
        let l8 = gate1_string("h", b);
        self.code.push(l8);
        let l9 = gate1_string("s", a);
        self.code.push(l9);
        let l10 = gate1_string("s", b);
        self.code.push(l10);
        proof {
            assert(strs_view(self.code@) =~= strs_view(old(self).code@) + ryy_lines(
                theta@,
                a,
                b,
            ));
            assert(self@ =~= apply(old(self)@, GateCall::Ryy(theta@, a, b)));
        }
    }

    /// Decomposes `Rzz` into exactly three lines: `cx q[a], q[b];`,
    /// `rz(theta) q[b];`, `cx q[a], q[b];`, in that order.
    pub fn rzz(&mut self, theta: &str, a: usize, b: usize)
        ensures
            final(self)@ == apply(old(self)@, GateCall::Rzz(theta@, a, b)),
            final(self)@.code == old(self)@.code + rzz_lines(theta@, a, b),
    {
        let l0 = gate2_string("cx", a, b);
        self.code.push(l0);
        let l1 = rot_string("rz", theta, b);
        self.code.push(l1);
        let l2 = gate2_string("cx", a, b);
        self.code.push(l2);
        proof {
            assert(strs_view(self.code@) =~= strs_view(old(self).code@) + rzz_lines(
                theta@,
                a,
                b,
            ));
            assert(self@ =~= apply(old(self)@, GateCall::Rzz(theta@, a, b)));
        }
    }

    /// Allocates the next classical bit and emits
    /// `measure q[<q>] -> c[<bit>];`. The returned value is a placeholder:
    /// the backend never knows the true outcome.
    pub fn m(&mut self, q: usize) -> (r: bool)
        requires
            old(self)@.cbit_counter < usize::MAX,
        ensures
            final(self)@ == apply(old(self)@, GateCall::M(q)),
            r == false,
    {
        let c = self.cbit_counter;
        self.cbit_counter += 1;
        let line = measure_string(q, c);
        self.code.push(line);
        proof {
            assert(self@ =~= apply(old(self)@, GateCall::M(q)));
        }
        false
    }

    /// Measurement-with-reset, branching on the reset policy: `Supported`
    /// emits a `measure` immediately followed by a `reset` of the same
    /// qubit; `Ignored` degrades to a plain `measure`; `Error` records an
    /// error and emits nothing. The returned value is a placeholder.
    pub fn mresetz(&mut self, q: usize) -> (r: bool)
        requires
            old(self)@.cbit_counter < usize::MAX,
        ensures
            final(self)@ == apply(old(self)@, GateCall::MResetZ(q)),
            r == false,
    {
        match self.generation_options.reset_behavior {
            QasmResetBehavior::Supported => {
                let c = self.cbit_counter;
                self.cbit_counter += 1;
                let line = measure_string(q, c);
                self.code.push(line);
                let line2 = reset_string(q);
                self.code.push(line2);
                proof {
                    assert(self@ =~= apply(old(self)@, GateCall::MResetZ(q)));
                }
                false
            },
            QasmResetBehavior::Ignored => {
                let c = self.cbit_counter;
                self.cbit_counter += 1;
                let line = measure_string(q, c);
                self.code.push(line);
                proof {
                    assert(self@ =~= apply(old(self)@, GateCall::MResetZ(q)));
                }
                false
            },
            QasmResetBehavior::Error => {
                let msg = String::from_str("Reset is not supported");
                self.errors.push(msg);
                proof {
                    assert(self@ =~= apply(old(self)@, GateCall::MResetZ(q)));
                }
                false
            },
        }
    }

    /// Reset, branching on the reset policy: `Supported` emits a `reset`
    /// statement, `Ignored` drops it silently, `Error` records an error.
    pub fn reset(&mut self, q: usize)
        ensures
            final(self)@ == apply(old(self)@, GateCall::Reset(q)),
    {
        match self.generation_options.reset_behavior {
            QasmResetBehavior::Supported => {
                let line = reset_string(q);
                self.code.push(line);
                proof {
                    assert(self@ =~= apply(old(self)@, GateCall::Reset(q)));
                }
            },
            QasmResetBehavior::Ignored => {
                proof {
                    assert(self@ =~= apply(old(self)@, GateCall::Reset(q)));
                }
            },
            QasmResetBehavior::Error => {
                let msg = String::from_str("Reset is not supported");
                self.errors.push(msg);
                proof {
                    assert(self@ =~= apply(old(self)@, GateCall::Reset(q)));
                }
            },
        }
    }

    /// A custom intrinsic: `GlobalPhase` is a semantic no-op (a global
    /// phase is unobservable and OpenQASM 2.0 cannot express it) and is
    /// reported as handled; any other name records exactly one error naming
    /// the intrinsic and is reported as unhandled.
    pub fn custom_intrinsic(&mut self, name: &str) -> (handled: bool)
        ensures
            final(self)@ == apply(old(self)@, GateCall::CustomIntrinsic(name@)),
            handled == (name@ == "GlobalPhase"@),
    {
        if crate::text::str_eq(name, "GlobalPhase") {
            proof {
                assert(self@ =~= apply(old(self)@, GateCall::CustomIntrinsic(name@)));
            }
            true
        } else {
            let mut msg = String::from_str("Custom intrinsic '");
            msg.append(name);
            msg.append("' not supported in QASM 2.0");
            proof {
                assert(msg@ =~= custom_intrinsic_error_text(name@));
            }
            self.errors.push(msg);
            proof {
                assert(self@ =~= apply(old(self)@, GateCall::CustomIntrinsic(name@)));
            }
            false
        }
    }

    /// Unsupported in OpenQASM 2.0: records an error and answers `false`.
    pub fn qubit_is_zero(&mut self, q: usize) -> (r: bool)
        ensures
            final(self)@ == apply(old(self)@, GateCall::QubitIsZero(q)),
            r == false,
    {
        let msg = String::from_str("Qubit is_zero not supported in QASM 2.0");
        self.errors.push(msg);
        proof {
            assert(self@ =~= apply(old(self)@, GateCall::QubitIsZero(q)));
        }
        false
    }

    /// Unsupported in OpenQASM 2.0: records an error.
    pub fn set_seed(&mut self, _seed: Option<u64>)
        ensures
            final(self)@ == apply(old(self)@, GateCall::SetSeed),
    {
        let msg = String::from_str("Set seed not supported in QASM 2.0");
        self.errors.push(msg);
        proof {
            assert(self@ =~= apply(old(self)@, GateCall::SetSeed));
        }
    }

    /// Capturing quantum state has no meaning for a text emitter: a no-op,
    /// the caller receives an empty state.
    pub fn capture_quantum_state(&mut self)
        ensures
            final(self)@ == apply(old(self)@, GateCall::CaptureState),
    {
    }

    /// Finalization: with any recorded error, the whole export fails with
    /// the error list and no partial text; otherwise the program text is
    /// assembled, and is exactly `qasm_text` of the backend's state.
    pub fn get_qasm(&self) -> (r: Result<String, Vec<String>>)
        ensures
            match r {
                Ok(text) => self@.errors.len() == 0 && text@ == qasm_text(self@),
                Err(es) => self@.errors.len() > 0 && strs_view(es@) == self@.errors,
            },
    {
        if self.errors.len() > 0 {
            let mut es: Vec<String> = Vec::new();
            let mut i: usize = 0;
            while i < self.errors.len()
                invariant
                    i <= self.errors@.len(),
                    strs_view(es@) == strs_view(self.errors@).take(i as int),
                decreases self.errors@.len() - i,
            {
                let msg = String::from_str(self.errors[i].as_str());
                let ghost pre = es@;
                es.push(msg);
                proof {
                    assert(strs_view(pre).len() == pre.len());
                    assert(pre.len() == i);
                    assert(es@ == pre.push(msg));
                    assert forall|k: int| 0 <= k <= i implies strs_view(es@)[k] == strs_view(
                        self.errors@,
                    ).take(i + 1)[k] by {
                        assert(strs_view(es@)[k] == es@[k]@);
                        if k < i {
                            assert(es@[k] == pre[k]);
                            assert(strs_view(pre)[k] == pre[k]@);
                        }
                    }
                    assert(strs_view(es@) =~= strs_view(self.errors@).take(i + 1));
                }
                i += 1;
            }
            proof {
                assert(strs_view(self.errors@).take(self.errors@.len() as int) =~= strs_view(
                    self.errors@,
                ));
            }
            return Err(es);
        }
        let mut out = String::from_str("OPENQASM 2.0;\n");
        if self.generation_options.include_qelib {
            out.append("include \"qelib1.inc\";\n");
        }
        out.append("qreg q[");
        let tn = usize_text(self.next_qubit_id);
        out.append(tn.as_str());
        out.append("];\n");
        if self.cbit_counter > 0 {
            out.append("creg c[");
            let tc = usize_text(self.cbit_counter);
            out.append(tc.as_str());
            out.append("];\n");
        }
        proof {
            assert(out@ =~= header_text(self@));
        }
        let mut i: usize = 0;
        while i < self.code.len()
            invariant
                i <= self.code@.len(),
                out@ == header_text(self@) + lines_text(strs_view(self.code@).take(i as int)),
            decreases self.code@.len() - i,
        {
            out.append(self.code[i].as_str());
            out.append("\n");
            proof {
                let lines = strs_view(self.code@);
                assert(lines.take(i + 1).drop_last() =~= lines.take(i as int));
                assert(lines.take(i + 1).last() == self.code@[i as int]@);
                assert(out@ =~= header_text(self@) + lines_text(lines.take(i + 1)));
            }
            i += 1;
        }
        proof {
            assert(strs_view(self.code@).take(self.code@.len() as int) =~= strs_view(self.code@));
        }
        Ok(out)
    }
}

} // verus!
