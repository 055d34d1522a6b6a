//! The circuit data model the diagram pipeline consumes: ordered qubits,
//! ordered columns of operations, and registers addressing either a
//! qubit's quantum wire or one of its classical result slots. The row
//! arithmetic lives here too: each qubit owns its wire row plus dedicated
//! rows for its classical outcomes, and a spacer row is forced beneath a
//! qubit when one operation jointly targets it and the next qubit.

use vstd::prelude::*;

verus! {

/// A qubit line: its numeric id and how many classical outcomes
/// (measurement results) are logically attached to it.
#[derive(Clone, Copy)]
pub struct Qubit {
    pub id: usize,
    pub num_results: usize,
}

/// A reference to a qubit's quantum wire (`result == None`) or to its
/// `i`-th classical outcome (`result == Some(i)`).
#[derive(Clone, Copy)]
pub struct Register {
    pub qubit: usize,
    pub result: Option<usize>,
}

/// One operation of a circuit column.
pub enum Operation {
    /// A gate application: name, pre-formatted arguments, adjoint marker,
    /// target registers and control registers.
    Unitary {
        gate: String,
        args: Vec<String>,
        is_adjoint: bool,
        targets: Vec<Register>,
        controls: Vec<Register>,
    },
    /// A measurement of quantum wires into classical result slots.
    Measurement { qubits: Vec<Register>, results: Vec<Register> },
    /// A re-initialization to the zero state.
    Ket { targets: Vec<Register> },
}

/// One time-step: a set of operations acting on disjoint registers.
pub struct Column {
    pub operations: Vec<Operation>,
}

/// A finalized circuit: ordered qubits and ordered operation columns.
/// Immutable once handed to the diagram pipeline.
pub struct Circuit {
    pub qubits: Vec<Qubit>,
    pub columns: Vec<Column>,
}

/// The registers an operation is drawn on: the measured quantum wires for
/// a measurement, the target list otherwise.
pub open spec fn op_targets(op: Operation) -> Seq<Register> {
    match op {
        Operation::Unitary { targets, .. } => targets@,
        Operation::Measurement { qubits, .. } => qubits@,
        Operation::Ket { targets } => targets@,
    }
}

/// The registers an operation conditions on.
pub open spec fn op_controls(op: Operation) -> Seq<Register> {
    match op {
        Operation::Unitary { controls, .. } => controls@,
        Operation::Measurement { .. } => Seq::empty(),
        Operation::Ket { .. } => Seq::empty(),
    }
}

/// The classical result slots a measurement writes.
pub open spec fn op_results(op: Operation) -> Seq<Register> {
    match op {
        Operation::Unitary { .. } => Seq::empty(),
        Operation::Measurement { results, .. } => results@,
        Operation::Ket { .. } => Seq::empty(),
    }
}

/// Whether one operation targets both qubit `q` and qubit `q + 1`.
pub open spec fn op_joins_next(op: Operation, q: usize) -> bool {
    exists|i: int, j: int|
        #![trigger op_targets(op)[i], op_targets(op)[j]]
        0 <= i < op_targets(op).len() && 0 <= j < op_targets(op).len() && op_targets(op)[i].qubit
            == q && op_targets(op)[j].qubit == q + 1
}

/// The gap heuristic: qubit `q` needs a spacer row when some operation of
/// the circuit jointly targets `q` and the immediately next qubit `q + 1`.
pub open spec fn needs_gap(c: Circuit, q: usize) -> bool {
    exists|k: int, i: int|
        #![trigger c.columns@[k].operations@[i]]
        0 <= k < c.columns@.len() && 0 <= i < c.columns@[k].operations@.len() && op_joins_next(
            c.columns@[k].operations@[i],
            q,
        )
}

/// How many diagram rows qubit `k` of the circuit occupies: its own wire
/// row, plus one row per classical outcome, with at least one extra row
/// forced when the gap heuristic fires for it.
pub open spec fn qubit_row_span(c: Circuit, k: int) -> nat {
    let n = c.qubits@[k].num_results as nat;
    let g: nat = if needs_gap(c, c.qubits@[k].id) {
        1
    } else {
        0
    };
    1 + (if n >= g {
        n
    } else {
        g
    })
}

/// The first row of qubit `k`: the rows of all earlier qubits precede it.
pub open spec fn row_start(c: Circuit, k: int) -> nat
    decreases k,
{
    if k <= 0 {
        0
    } else {
        row_start(c, k - 1) + qubit_row_span(c, k - 1)
    }
}

/// The diagram's total row count: the sum over all qubits of
/// `1 + max(num_results, gap)`, where `gap` is 1 when the gap heuristic
/// fires for the qubit and 0 otherwise.
pub open spec fn row_count(c: Circuit) -> nat {
    row_start(c, c.qubits@.len() as int)
}

/// Whether some qubit of the circuit has id `q`.
pub open spec fn has_qubit(c: Circuit, q: usize) -> bool {
    exists|k: int| 0 <= k < c.qubits@.len() && (#[trigger] c.qubits@[k]).id == q
}

/// The position of the qubit with id `q` in the circuit's qubit list.
pub open spec fn qubit_index(c: Circuit, q: usize) -> int {
    choose|k: int| 0 <= k < c.qubits@.len() && (#[trigger] c.qubits@[k]).id == q
}

/// Whether a register reference resolves in the circuit.
pub open spec fn reg_resolves(c: Circuit, r: Register) -> bool {
    has_qubit(c, r.qubit) && match r.result {
        Some(i) => (i as nat) < c.qubits@[qubit_index(c, r.qubit)].num_results as nat,
        None => true,
    }
}

/// The diagram row a register maps to: the qubit's own row for the wire,
/// the immediately following rows for its classical outcomes.
pub open spec fn reg_row(c: Circuit, r: Register) -> nat {
    row_start(c, qubit_index(c, r.qubit)) + (match r.result {
        Some(i) => 1 + i as nat,
        None => 0nat,
    })
}

/// Whether every register of an operation resolves in the circuit.
pub open spec fn op_wf(c: Circuit, op: Operation) -> bool {
    &&& forall|i: int|
        0 <= i < op_targets(op).len() ==> reg_resolves(c, #[trigger] op_targets(op)[i])
    &&& forall|i: int|
        0 <= i < op_controls(op).len() ==> reg_resolves(c, #[trigger] op_controls(op)[i])
    &&& forall|i: int|
        0 <= i < op_results(op).len() ==> reg_resolves(c, #[trigger] op_results(op)[i])
}

/// A well-formed circuit: distinct qubit ids, register references that
/// resolve throughout, and a total row count a machine index can hold.
/// The upstream tracer guarantees this; a malformed circuit is an input
/// contract violation.
pub open spec fn circuit_wf(c: Circuit) -> bool {
    &&& forall|k1: int, k2: int|
        #![trigger c.qubits@[k1], c.qubits@[k2]]
        0 <= k1 < k2 < c.qubits@.len() ==> c.qubits@[k1].id != c.qubits@[k2].id
    &&& forall|k: int, i: int|
        #![trigger c.columns@[k].operations@[i]]
        0 <= k < c.columns@.len() && 0 <= i < c.columns@[k].operations@.len() ==> op_wf(
            c,
            c.columns@[k].operations@[i],
        )
    &&& row_count(c) <= usize::MAX
    &&& c.columns@.len() < usize::MAX
}

/// Row starts are monotone in the qubit position.
pub proof fn lemma_row_start_mono(c: Circuit, k1: int, k2: int)
    requires
        k1 <= k2,
    ensures
        row_start(c, k1) <= row_start(c, k2),
    decreases k2 - k1,
{
    if k1 < k2 {
        lemma_row_start_mono(c, k1, k2 - 1);
        if k2 - 1 < 0 {
            assert(row_start(c, k2) == 0);
        }
    }
}

/// Every register of a well-formed circuit lands strictly below the
/// total row count, inside the block of rows its qubit owns.
pub proof fn lemma_reg_row_in_range(c: Circuit, r: Register)
    requires
        circuit_wf(c),
        reg_resolves(c, r),
    ensures
        reg_row(c, r) < row_count(c),
        reg_row(c, r) < row_start(c, qubit_index(c, r.qubit) + 1),
{
    let k = qubit_index(c, r.qubit);
    assert(0 <= k < c.qubits@.len());
    assert(row_start(c, k + 1) == row_start(c, k) + qubit_row_span(c, k));
    lemma_row_start_mono(c, k + 1, c.qubits@.len() as int);
}

} // verus!
