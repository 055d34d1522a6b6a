//! The circuit-diagram pipeline: the register resolver assigns diagram
//! rows, the layout builder initializes a row-by-column symbol table and
//! walks the columns placing glyphs, and the text renderer serializes the
//! result into a LaTeX (quantikz) block. Every placement decision is
//! specified over an abstract layout and the final text is pinned down
//! character for character.

use vstd::prelude::*;
use vstd::string::*;

use crate::grid::{
    rows_view, table_view, Row, RowModel,
};
use crate::circuit::{
    circuit_wf, has_qubit, needs_gap, op_controls, op_joins_next, op_targets, qubit_index,
    qubit_row_span, reg_resolves, reg_row, row_count, row_start, Circuit, Operation, Register,
};
use crate::text::{
    dec_digits, int_text, join_sep, join_strings, offset_text, str_eq, strs_view, usize_text,
};

verus! {

broadcast use
    crate::grid::lemma_rows_view_push,
    crate::grid::lemma_rows_view_update,
    crate::grid::lemma_table_view_push,
    crate::grid::lemma_table_view_update,
    crate::text::lemma_strs_view_push,
    crate::text::lemma_strs_view_update,
;

/// The default wire symbol of a row mode.
pub open spec fn default_wire(is_classical: bool) -> Seq<char> {
    if is_classical {
        "\\cw"@
    } else {
        "\\qw"@
    }
}

/// The label of a qubit's own row: a ket-zero symbol carrying its id.
pub open spec fn qubit_label(id: usize) -> Seq<char> {
    "\\lstick{$\\ket{0}_{"@ + dec_digits(id as nat) + "}$}"@
}

/// `\swap{<offset>}`
pub open spec fn swap_cell(offset: int) -> Seq<char> {
    "\\swap{"@ + int_text(offset) + "}"@
}

/// `\ctrl{<offset>}`
pub open spec fn ctrl_cell(offset: int) -> Seq<char> {
    "\\ctrl{"@ + int_text(offset) + "}"@
}

/// `\targX{}`
pub open spec fn targx_cell() -> Seq<char> {
    "\\targX{}"@
}

/// `\targ{}`
pub open spec fn targ_cell() -> Seq<char> {
    "\\targ{}"@
}

/// `\meter{}`
pub open spec fn meter_cell() -> Seq<char> {
    "\\meter{}"@
}

/// `\gate{\ket{0}}`
pub open spec fn ket_cell() -> Seq<char> {
    "\\gate{\\ket{0}}"@
}

/// `\gate{<label>}`
pub open spec fn gate_cell(label: Seq<char>) -> Seq<char> {
    "\\gate{"@ + label + "}"@
}

/// `\gate[wires=<n>]{<label>}`
pub open spec fn gate_wires_cell(n: nat, label: Seq<char>) -> Seq<char> {
    "\\gate[wires="@ + dec_digits(n) + "]{"@ + label + "}"@
}

/// Where the simple gate name begins: just after the last `.` of a
/// namespace-qualified name, at the start otherwise.
pub open spec fn name_cut(s: Seq<char>) -> int
    decreases s.len(),
{
    if s.len() == 0 {
        0
    } else if s.last() == '.' {
        s.len() as int
    } else {
        name_cut(s.drop_last())
    }
}

/// The simple gate name: the part after the last `.`.
pub open spec fn simple_name(s: Seq<char>) -> Seq<char> {
    s.subrange(name_cut(s), s.len() as int)
}

/// Whether a simple name is `swap`, compared without regard to ASCII case.
pub open spec fn is_swap_name(s: Seq<char>) -> bool {
    s.len() == 4 && (s[0] == 's' || s[0] == 'S') && (s[1] == 'w' || s[1] == 'W') && (s[2] == 'a'
        || s[2] == 'A') && (s[3] == 'p' || s[3] == 'P')
}

/// The label drawn inside a gate box: rotation names in subscript
/// convention, an adjoint marker when requested, and the argument list in
/// parentheses when non-empty.
pub open spec fn label_text(name: Seq<char>, args: Seq<Seq<char>>, is_adjoint: bool) -> Seq<char> {
    let base = if name == "Rx"@ {
        "R_x"@
    } else if name == "Ry"@ {
        "R_y"@
    } else if name == "Rz"@ {
        "R_z"@
    } else if name == "R1"@ {
        "R_1"@
    } else {
        name
    };
    let marked = if is_adjoint {
        base + "^\\dagger"@
    } else {
        base
    };
    if args.len() > 0 {
        marked + "("@ + join_sep(args, ", "@) + ")"@
    } else {
        marked
    }
}

/// One rendered diagram line: the optional label, the column separator,
/// the row's cells joined by the separator, and the row terminator.
pub open spec fn row_line_text(rm: RowModel, cells: Seq<Seq<char>>) -> Seq<char> {
    (match rm.label {
        Some(l) => l,
        None => Seq::<char>::empty(),
    }) + " & "@ + join_sep(cells, " & "@) + " \\\\\n"@
}

/// The first `upto` diagram lines.
pub open spec fn rows_text(rows: Seq<RowModel>, table: Seq<Seq<Seq<char>>>, upto: int) -> Seq<char>
    decreases upto,
{
    if upto <= 0 {
        Seq::empty()
    } else {
        rows_text(rows, table, upto - 1) + row_line_text(rows[upto - 1], table[upto - 1])
    }
}

/// The complete LaTeX block.
pub open spec fn latex_text(rows: Seq<RowModel>, table: Seq<Seq<Seq<char>>>) -> Seq<char> {
    "\\begin{quantikz}\n"@ + rows_text(rows, table, rows.len() as int) + "\\end{quantikz}\n"@
}

/// The rows qubit `k` contributes: its labeled quantum wire row, then its
/// unlabeled classical rows (one per result slot, or the forced spacer).
pub open spec fn rows_for_qubit(c: Circuit, k: int) -> Seq<RowModel> {
    seq![RowModel { label: Some(qubit_label(c.qubits@[k].id)), is_classical: false }] + Seq::new(
        (qubit_row_span(c, k) - 1) as nat,
        |i: int| RowModel { label: None, is_classical: true },
    )
}

/// The initial rows of the first `k` qubits.
pub open spec fn init_rows_upto(c: Circuit, k: int) -> Seq<RowModel>
    decreases k,
{
    if k <= 0 {
        Seq::empty()
    } else {
        init_rows_upto(c, k - 1) + rows_for_qubit(c, k - 1)
    }
}

/// The initial rows of the whole diagram.
pub open spec fn init_rows(c: Circuit) -> Seq<RowModel> {
    init_rows_upto(c, c.qubits@.len() as int)
}

/// The register resolver: built once from a circuit, read-only afterward.
/// Qubit `k`'s block of rows begins at `starts[k]`; a register resolves to
/// the block of the qubit carrying its id.
pub struct RegisterMap {
    pub ids: Vec<usize>,
    pub starts: Vec<usize>,
    pub total_rows: usize,
}

/// Whether a resolver belongs to a circuit.
pub open spec fn map_wf(m: RegisterMap, c: Circuit) -> bool {
    &&& m.ids@.len() == c.qubits@.len()
    &&& m.starts@.len() == c.qubits@.len()
    &&& forall|k: int| 0 <= k < c.qubits@.len() ==> (#[trigger] m.ids@[k]) == c.qubits@[k].id
    &&& forall|k: int|
        0 <= k < c.qubits@.len() ==> (#[trigger] m.starts@[k]) as nat == row_start(c, k)
    &&& m.total_rows as nat == row_count(c)
}

impl RegisterMap {
    /// Maps a register to its diagram row: the qubit's own row for the
    /// wire, the following rows for its classical outcomes.
    fn resolve(&self, reg: &Register, Ghost(c): Ghost<Circuit>) -> (r: usize)
        requires
            circuit_wf(c),
            map_wf(*self, c),
            reg_resolves(c, *reg),
        ensures
            r as nat == reg_row(c, *reg),
    {
        let ghost k0 = qubit_index(c, reg.qubit);
        proof {
            assert(has_qubit(c, reg.qubit));
            assert(0 <= k0 < c.qubits@.len() && c.qubits@[k0].id == reg.qubit);
        }
        let mut k: usize = 0;
        while k < self.ids.len() && self.ids[k] != reg.qubit
            invariant
                k <= self.ids@.len(),
                map_wf(*self, c),
                forall|j: int| 0 <= j < k ==> (#[trigger] self.ids@[j]) != reg.qubit,
            decreases self.ids@.len() - k,
        {
            k += 1;
        }
        proof {
            assert(k < self.ids@.len());
            if k0 < k {
                assert(self.ids@[k0] == reg.qubit);
            }
            assert(k as int == k0);
            crate::circuit::lemma_reg_row_in_range(c, *reg);
            assert(row_count(c) <= usize::MAX);
        }
        let s = self.starts[k];
        match reg.result {
            None => s,
            Some(i) => s + 1 + i,
        }
    }
}

fn op_targets_ref(op: &Operation) -> (r: &Vec<Register>)
    ensures
        r@ == op_targets(*op),
{
    match op {
        Operation::Unitary { targets, .. } => targets,
        Operation::Measurement { qubits, .. } => qubits,
        Operation::Ket { targets } => targets,
    }
}

fn op_joins_next_exec(op: &Operation, q: usize) -> (r: bool)
    ensures
        r == op_joins_next(*op, q),
{
    let targets = op_targets_ref(op);
    if q == usize::MAX {
        return false;
    }
    let mut found_q = false;
    let mut found_next = false;
    let mut i: usize = 0;
    while i < targets.len()
        invariant
            i <= targets@.len(),
            targets@ == op_targets(*op),
            q < usize::MAX,
            found_q == exists|j: int|
                0 <= j < i && (#[trigger] op_targets(*op)[j]).qubit == q,
            found_next == exists|j: int|
                0 <= j < i && (#[trigger] op_targets(*op)[j]).qubit == q + 1,
        decreases targets@.len() - i,
    {
        let t = targets[i];
        if t.qubit == q {
            found_q = true;
        }
        if t.qubit == q + 1 {
            found_next = true;
        }
        i += 1;
    }
    found_q && found_next
}

fn needs_gap_exec(c: &Circuit, q: usize) -> (r: bool)
    ensures
        r == needs_gap(*c, q),
{
    let mut k: usize = 0;
    while k < c.columns.len()
        invariant
            k <= c.columns@.len(),
            forall|a: int, b: int|
                #![trigger c.columns@[a].operations@[b]]
                0 <= a < k && 0 <= b < c.columns@[a].operations@.len() ==> !op_joins_next(
                    c.columns@[a].operations@[b],
                    q,
                ),
        decreases c.columns@.len() - k,
    {
        let ops = &c.columns[k].operations;
        let mut i: usize = 0;
        while i < ops.len()
            invariant
                i <= ops@.len(),
                k < c.columns@.len(),
                ops@ == c.columns@[k as int].operations@,
                forall|a: int, b: int|
                    #![trigger c.columns@[a].operations@[b]]
                    0 <= a < k && 0 <= b < c.columns@[a].operations@.len() ==> !op_joins_next(
                        c.columns@[a].operations@[b],
                        q,
                    ),
                forall|b: int|
                    0 <= b < i ==> !op_joins_next(
                        #[trigger] c.columns@[k as int].operations@[b],
                        q,
                    ),
            decreases ops@.len() - i,
        {
            if op_joins_next_exec(&ops[i], q) {
                proof {
                    assert(op_joins_next(c.columns@[k as int].operations@[i as int], q));
                }
                return true;
            }
            i += 1;
        }
        k += 1;
    }
    false
}

/// Assigns the diagram rows: one labeled quantum row per qubit, one
/// unlabeled classical row per attached result slot, and a forced spacer
/// row where the gap heuristic fires. The row count is exactly the sum
/// over qubits of `1 + max(num_results, gap)`.
pub fn build_rows(c: &Circuit) -> (r: (Vec<Row>, RegisterMap))
    requires
        circuit_wf(*c),
    ensures
        rows_view(r.0@) == init_rows(*c),
        r.0@.len() == row_count(*c),
        map_wf(r.1, *c),
{
    let mut rows: Vec<Row> = Vec::new();
    let mut ids: Vec<usize> = Vec::new();
    let mut starts: Vec<usize> = Vec::new();
    let mut k: usize = 0;
    while k < c.qubits.len()
        invariant
            k <= c.qubits@.len(),
            circuit_wf(*c),
            rows_view(rows@) == init_rows_upto(*c, k as int),
            rows@.len() == row_start(*c, k as int),
            ids@.len() == k,
            starts@.len() == k,
            forall|j: int| 0 <= j < k ==> (#[trigger] ids@[j]) == c.qubits@[j].id,
            forall|j: int| 0 <= j < k ==> (#[trigger] starts@[j]) as nat == row_start(*c, j),
        decreases c.qubits@.len() - k,
    {
        proof {
            crate::circuit::lemma_row_start_mono(*c, k + 1, c.qubits@.len() as int);
        }
        let q = c.qubits[k];
        ids.push(q.id);
        starts.push(rows.len());
        let mut lbl = String::from_str("\\lstick{$\\ket{0}_{");
        let t = usize_text(q.id);
        lbl.append(t.as_str());
        lbl.append("}$}");
        proof {
            assert(lbl@ =~= qubit_label(q.id));
        }
        rows.push(Row { label: Some(lbl), is_classical: false });
        let gap = needs_gap_exec(c, q.id);
        let extra = if q.num_results > 0 {
            q.num_results
        } else if gap {
            1
        } else {
            0
        };
        proof {
            assert(extra as nat == qubit_row_span(*c, k as int) - 1);
        }
        let mut i: usize = 0;
        while i < extra
            invariant
                i <= extra,
                k < c.qubits@.len(),
                extra as nat == qubit_row_span(*c, k as int) - 1,
                row_start(*c, k as int + 1) <= row_count(*c) <= usize::MAX,
                rows_view(rows@) == init_rows_upto(*c, k as int) + seq![
                    RowModel {
                        label: Some(qubit_label(c.qubits@[k as int].id)),
                        is_classical: false,
                    },
                ] + Seq::new(i as nat, |i2: int| RowModel { label: None, is_classical: true }),
                rows@.len() == row_start(*c, k as int) + 1 + i,
            decreases extra - i,
        {
            rows.push(Row { label: None, is_classical: true });
            proof {
                assert(rows_view(rows@) =~= init_rows_upto(*c, k as int) + seq![
                    RowModel {
                        label: Some(qubit_label(c.qubits@[k as int].id)),
                        is_classical: false,
                    },
                ] + Seq::new(
                    (i + 1) as nat,
                    |i2: int| RowModel { label: None, is_classical: true },
                ));
            }
            i += 1;
        }
        proof {
            assert(rows_view(rows@) =~= init_rows_upto(*c, k as int + 1));
        }
        k += 1;
    }
    let map = RegisterMap { ids, starts, total_rows: rows.len() };
    (rows, map)
}

/// Whether some register of the list resolves to row `r`.
pub open spec fn touches(c: Circuit, regs: Seq<Register>, r: nat) -> bool {
    exists|j: int| 0 <= j < regs.len() && reg_row(c, #[trigger] regs[j]) == r
}

/// The rows below `upto` some register of the list resolves to, in
/// ascending order and without duplicates.
pub open spec fn rows_touched(c: Circuit, regs: Seq<Register>, upto: nat) -> Seq<usize>
    decreases upto,
{
    if upto == 0 {
        Seq::empty()
    } else {
        rows_touched(c, regs, (upto - 1) as nat) + (if touches(c, regs, (upto - 1) as nat) {
            seq![(upto - 1) as usize]
        } else {
            Seq::empty()
        })
    }
}

/// The rows an operation is drawn on, resolved, deduplicated and sorted
/// ascending.
pub open spec fn target_rows(c: Circuit, op: Operation) -> Seq<usize> {
    rows_touched(c, op_targets(op), row_count(c))
}

/// The rows an operation's controls sit on, resolved, deduplicated and
/// sorted ascending.
pub open spec fn control_rows(c: Circuit, op: Operation) -> Seq<usize> {
    rows_touched(c, op_controls(op), row_count(c))
}

/// No registers, no rows.
proof fn lemma_rows_touched_empty(c: Circuit, upto: nat)
    ensures
        rows_touched(c, Seq::empty(), upto) == Seq::<usize>::empty(),
    decreases upto,
{
    if upto > 0 {
        lemma_rows_touched_empty(c, (upto - 1) as nat);
        assert(!touches(c, Seq::empty(), (upto - 1) as nat));
        assert(rows_touched(c, Seq::empty(), upto) =~= Seq::<usize>::empty());
    }
}

/// Touched rows stay below the bound and come out strictly ascending.
proof fn lemma_rows_touched_bounds(c: Circuit, regs: Seq<Register>, upto: nat)
    requires
        upto <= usize::MAX,
    ensures
        forall|i: int|
            #![trigger rows_touched(c, regs, upto)[i]]
            0 <= i < rows_touched(c, regs, upto).len() ==> (rows_touched(c, regs, upto)[i] as nat)
                < upto,
        forall|i: int, j: int|
            #![trigger rows_touched(c, regs, upto)[i], rows_touched(c, regs, upto)[j]]
            0 <= i < j < rows_touched(c, regs, upto).len() ==> rows_touched(c, regs, upto)[i]
                < rows_touched(c, regs, upto)[j],
    decreases upto,
{
    if upto > 0 {
        lemma_rows_touched_bounds(c, regs, (upto - 1) as nat);
        assert(rows_touched(c, regs, (upto - 1) as nat) == rows_touched(c, regs, upto).take(
            rows_touched(c, regs, (upto - 1) as nat).len() as int,
        )) by {
            assert(rows_touched(c, regs, (upto - 1) as nat) =~= rows_touched(c, regs, upto).take(
                rows_touched(c, regs, (upto - 1) as nat).len() as int,
            ));
        }
    }
}

fn rows_for_registers(regs: &Vec<Register>, map: &RegisterMap, Ghost(c): Ghost<Circuit>) -> (out:
    Vec<usize>)
    requires
        circuit_wf(c),
        map_wf(*map, c),
        forall|j: int| 0 <= j < regs@.len() ==> reg_resolves(c, #[trigger] regs@[j]),
    ensures
        out@ == rows_touched(c, regs@, row_count(c)),
{
    let mut out: Vec<usize> = Vec::new();
    let mut row: usize = 0;
    while row < map.total_rows
        invariant
            row <= map.total_rows,
            circuit_wf(c),
            map_wf(*map, c),
            forall|j: int| 0 <= j < regs@.len() ==> reg_resolves(c, #[trigger] regs@[j]),
            out@ == rows_touched(c, regs@, row as nat),
        decreases map.total_rows - row,
    {
        let mut found = false;
        let mut j: usize = 0;
        while j < regs.len()
            invariant
                j <= regs@.len(),
                circuit_wf(c),
                map_wf(*map, c),
                forall|x: int| 0 <= x < regs@.len() ==> reg_resolves(c, #[trigger] regs@[x]),
                found == exists|x: int|
                    0 <= x < j && reg_row(c, #[trigger] regs@[x]) == row as nat,
            decreases regs@.len() - j,
        {
            let rr = map.resolve(&regs[j], Ghost(c));
            if rr == row {
                found = true;
            }
            j += 1;
        }
        proof {
            assert(found == touches(c, regs@, row as nat));
        }
        if found {
            out.push(row);
        }
        proof {
            assert(out@ =~= rows_touched(c, regs@, (row + 1) as nat));
        }
        row += 1;
    }
    out
}

/// Resolves an operation's drawn registers (`is_target`) or its control
/// registers into row indices: deduplicated and sorted ascending. A
/// measurement is drawn on its qubit wires.
fn get_rows_for_operation(
    op: &Operation,
    map: &RegisterMap,
    is_target: bool,
    Ghost(c): Ghost<Circuit>,
) -> (out: Vec<usize>)
    requires
        circuit_wf(c),
        map_wf(*map, c),
        crate::circuit::op_wf(c, *op),
    ensures
        is_target ==> out@ == target_rows(c, *op),
        !is_target ==> out@ == control_rows(c, *op),
{
    if is_target {
        let regs = op_targets_ref(op);
        rows_for_registers(regs, map, Ghost(c))
    } else {
        match op {
            Operation::Unitary { controls, .. } => {
                proof {
                    assert(op_controls(*op) == controls@);
                }
                rows_for_registers(controls, map, Ghost(c))
            },
            Operation::Measurement { .. } => {
                let out: Vec<usize> = Vec::new();
                proof {
                    lemma_rows_touched_empty(c, row_count(c));
                }
                out
            },
            Operation::Ket { .. } => {
                let out: Vec<usize> = Vec::new();
                proof {
                    lemma_rows_touched_empty(c, row_count(c));
                }
                out
            },
        }
    }
}

/// Extracts the simple gate name: the segment after the last `.`.
fn simple_gate_name(name: &str) -> (r: &str)
    ensures
        r@ == simple_name(name@),
{
    let len = name.unicode_len();
    let mut cut: usize = 0;
    let mut i: usize = 0;
    while i < len
        invariant
            i <= len,
            len == name@.len(),
            cut == name_cut(name@.take(i as int)),
            cut <= i,
        decreases len - i,
    {
        proof {
            assert(name@.take(i + 1).drop_last() =~= name@.take(i as int));
            assert(name@.take(i + 1).last() == name@[i as int]);
        }
        if name.get_char(i) == '.' {
            cut = i + 1;
        }
        i += 1;
    }
    proof {
        assert(name@.take(len as int) =~= name@);
    }
    name.substring_char(cut, len)
}

/// Decides whether a name is `swap` without regard to ASCII case.
fn is_swap_gate(name: &str) -> (r: bool)
    ensures
        r == is_swap_name(name@),
{
    if name.unicode_len() != 4 {
        return false;
    }
    let c0 = name.get_char(0);
    let c1 = name.get_char(1);
    let c2 = name.get_char(2);
    let c3 = name.get_char(3);
    (c0 == 's' || c0 == 'S') && (c1 == 'w' || c1 == 'W') && (c2 == 'a' || c2 == 'A') && (c3 == 'p'
        || c3 == 'P')
}

/// Builds the label drawn inside a gate box from the simple gate name,
/// the argument list and the adjoint marker.
pub fn operation_label(name: &str, args: &Vec<String>, is_adjoint: bool) -> (r: String)
    ensures
        r@ == label_text(name@, strs_view(args@), is_adjoint),
{
    let mut lbl = if str_eq(name, "Rx") {
        String::from_str("R_x")
    } else if str_eq(name, "Ry") {
        String::from_str("R_y")
    } else if str_eq(name, "Rz") {
        String::from_str("R_z")
    } else if str_eq(name, "R1") {
        String::from_str("R_1")
    } else {
        String::from_str(name)
    };
    if is_adjoint {
        lbl.append("^\\dagger");
    }
    if args.len() > 0 {
        let joined = join_strings(args, ", ");
        let mut out = lbl;
        out.append("(");
        out.append(joined.as_str());
        out.append(")");
        proof {
            assert(out@ =~= label_text(name@, strs_view(args@), is_adjoint));
        }
        out
    } else {
        proof {
            assert(lbl@ =~= label_text(name@, strs_view(args@), is_adjoint));
        }
        lbl
    }
}

/// The layout state the column walk threads through: the symbol table and
/// the rows with their current wire modes.
#[verifier::ext_equal]
pub ghost struct Layout {
    pub table: Seq<Seq<Seq<char>>>,
    pub rows: Seq<RowModel>,
}

/// The table with one cell overwritten.
pub open spec fn set_cell(table: Seq<Seq<Seq<char>>>, r: usize, col: usize, v: Seq<char>) -> Seq<
    Seq<Seq<char>>,
> {
    table.update(r as int, table[r as int].update(col as int, v))
}

/// Control glyphs: each control row points toward the first target row,
/// or toward itself when there is none.
pub open spec fn apply_ctrls(
    table: Seq<Seq<Seq<char>>>,
    crs: Seq<usize>,
    col: usize,
    trs: Seq<usize>,
) -> Seq<Seq<Seq<char>>>
    decreases crs.len(),
{
    if crs.len() == 0 {
        table
    } else {
        let prev = apply_ctrls(table, crs.drop_last(), col, trs);
        let ctl = crs.last();
        let base: int = if trs.len() > 0 {
            trs[0] as int
        } else {
            ctl as int
        };
        set_cell(prev, ctl, col, ctrl_cell(base - ctl))
    }
}

/// Target glyphs of a controlled X.
pub open spec fn apply_targs(table: Seq<Seq<Seq<char>>>, trs: Seq<usize>, col: usize) -> Seq<
    Seq<Seq<char>>,
>
    decreases trs.len(),
{
    if trs.len() == 0 {
        table
    } else {
        set_cell(apply_targs(table, trs.drop_last(), col), trs.last(), col, targ_cell())
    }
}

/// Control-styled glyphs of a controlled Z: each target row points back
/// toward the first control row.
pub open spec fn apply_zctrls(
    table: Seq<Seq<Seq<char>>>,
    trs: Seq<usize>,
    col: usize,
    c0: usize,
) -> Seq<Seq<Seq<char>>>
    decreases trs.len(),
{
    if trs.len() == 0 {
        table
    } else {
        let t = trs.last();
        set_cell(
            apply_zctrls(table, trs.drop_last(), col, c0),
            t,
            col,
            ctrl_cell(-(t as int - c0 as int)),
        )
    }
}

/// One unitary placed in a column: a swap glyph pair for an uncontrolled
/// two-target SWAP, target glyphs for a controlled X, control-styled
/// glyphs for a controlled Z, a gate box otherwise — multi-wire when it
/// spans several target rows — and a control glyph on every control row.
pub open spec fn apply_unitary(
    table: Seq<Seq<Seq<char>>>,
    gate: Seq<char>,
    args: Seq<Seq<char>>,
    is_adjoint: bool,
    col: usize,
    trs: Seq<usize>,
    crs: Seq<usize>,
) -> Seq<Seq<Seq<char>>> {
    let sn = simple_name(gate);
    if is_swap_name(sn) && trs.len() == 2 {
        apply_ctrls(
            set_cell(
                set_cell(table, trs[0], col, swap_cell(trs[1] as int - trs[0] as int)),
                trs[1],
                col,
                targx_cell(),
            ),
            crs,
            col,
            trs,
        )
    } else {
        let boxed = if (sn == "X"@ || sn == "CNOT"@) && crs.len() > 0 {
            apply_targs(table, trs, col)
        } else if sn == "Z"@ && crs.len() > 0 {
            apply_zctrls(table, trs, col, crs[0])
        } else if trs.len() > 1 {
            set_cell(
                table,
                trs[0],
                col,
                gate_wires_cell(trs.len(), label_text(sn, args, is_adjoint)),
            )
        } else if trs.len() == 1 {
            set_cell(table, trs[0], col, gate_cell(label_text(sn, args, is_adjoint)))
        } else {
            table
        };
        if crs.len() > 0 {
            apply_ctrls(boxed, crs, col, trs)
        } else {
            boxed
        }
    }
}

/// A measured row: a meter glyph at the column, classical wire for the
/// rest of the diagram.
pub open spec fn meas_row_cells(cells: Seq<Seq<char>>, col: usize) -> Seq<Seq<char>> {
    Seq::new(
        cells.len(),
        |j: int|
            if j == col {
                meter_cell()
            } else if j > col {
                "\\cw"@
            } else {
                cells[j]
            },
    )
}

/// A re-initialized row: a ket-zero glyph at the column, quantum wire for
/// the rest of the diagram.
pub open spec fn ket_row_cells(cells: Seq<Seq<char>>, col: usize) -> Seq<Seq<char>> {
    Seq::new(
        cells.len(),
        |j: int|
            if j == col {
                ket_cell()
            } else if j > col {
                "\\qw"@
            } else {
                cells[j]
            },
    )
}

/// A measurement placed in a column: every target row gets a meter, flips
/// to classical mode, and stays classical for the remaining columns.
pub open spec fn apply_meas(st: Layout, trs: Seq<usize>, col: usize) -> Layout
    decreases trs.len(),
{
    if trs.len() == 0 {
        st
    } else {
        let prev = apply_meas(st, trs.drop_last(), col);
        let t = trs.last() as int;
        Layout {
            table: prev.table.update(t, meas_row_cells(prev.table[t], col)),
            rows: prev.rows.update(
                t,
                RowModel { label: prev.rows[t].label, is_classical: true },
            ),
        }
    }
}

/// A re-initialization placed in a column: every target row gets a
/// ket-zero glyph, flips back to quantum mode, and stays quantum for the
/// remaining columns.
pub open spec fn apply_ket(st: Layout, trs: Seq<usize>, col: usize) -> Layout
    decreases trs.len(),
{
    if trs.len() == 0 {
        st
    } else {
        let prev = apply_ket(st, trs.drop_last(), col);
        let t = trs.last() as int;
        Layout {
            table: prev.table.update(t, ket_row_cells(prev.table[t], col)),
            rows: prev.rows.update(
                t,
                RowModel { label: prev.rows[t].label, is_classical: false },
            ),
        }
    }
}

/// One operation placed in a column.
pub open spec fn apply_operation(c: Circuit, st: Layout, op: Operation, col: usize) -> Layout {
    match op {
        Operation::Unitary { gate, args, is_adjoint, .. } => Layout {
            table: apply_unitary(
                st.table,
                gate@,
                strs_view(args@),
                is_adjoint,
                col,
                target_rows(c, op),
                control_rows(c, op),
            ),
            rows: st.rows,
        },
        Operation::Measurement { .. } => apply_meas(st, target_rows(c, op), col),
        Operation::Ket { .. } => apply_ket(st, target_rows(c, op), col),
    }
}

/// A column's operations placed one after the other.
pub open spec fn apply_ops(c: Circuit, st: Layout, ops: Seq<Operation>, col: usize) -> Layout
    decreases ops.len(),
{
    if ops.len() == 0 {
        st
    } else {
        apply_operation(c, apply_ops(c, st, ops.drop_last(), col), ops.last(), col)
    }
}

/// The first `k` columns placed left to right.
pub open spec fn apply_columns(c: Circuit, st: Layout, k: int) -> Layout
    decreases k,
{
    if k <= 0 {
        st
    } else {
        apply_ops(c, apply_columns(c, st, k - 1), c.columns@[k - 1].operations@, (k - 1) as usize)
    }
}

/// The layout before any operation is placed.
pub open spec fn init_layout(c: Circuit) -> Layout {
    Layout {
        table: Seq::new(
            row_count(c),
            |r: int|
                Seq::new(
                    c.columns@.len() + 1,
                    |j: int| default_wire(init_rows(c)[r].is_classical),
                ),
        ),
        rows: init_rows(c),
    }
}

/// The layout after the whole circuit is placed.
pub open spec fn final_layout(c: Circuit) -> Layout {
    apply_columns(c, init_layout(c), c.columns@.len() as int)
}

/// The complete diagram text of a circuit.
pub open spec fn quantikz_text(c: Circuit) -> Seq<char> {
    latex_text(final_layout(c).rows, final_layout(c).table)
}

fn write_cell(table: &mut Vec<Vec<String>>, r: usize, col: usize, v: String)
    requires
        r < old(table)@.len(),
        col < old(table)@[r as int]@.len(),
    ensures
        table_view(final(table)@) == set_cell(table_view(old(table)@), r, col, v@),
        final(table)@.len() == old(table)@.len(),
        forall|k: int|
            0 <= k < final(table)@.len() ==> (#[trigger] final(table)@[k])@.len() == old(
                table,
            )@[k]@.len(),
{
    table[r][col] = v;
    proof {
        assert(table_view(table@) =~= set_cell(table_view(old(table)@), r, col, v@));
    }
}

/// Builds the initial symbol table: one column per circuit column plus
/// one trailing terminator column, every cell pre-filled with the default
/// wire symbol of its row's initial mode.
pub fn initialize_table(row_count: usize, col_count: usize, rows: &Vec<Row>) -> (t: Vec<
    Vec<String>,
>)
    requires
        rows@.len() == row_count,
        col_count < usize::MAX,
    ensures
        table_view(t@) == Seq::new(
            row_count as nat,
            |r: int| Seq::new((col_count + 1) as nat, |j: int| default_wire(rows@[r]@.is_classical)),
        ),
{
    let mut t: Vec<Vec<String>> = Vec::new();
    let mut r: usize = 0;
    while r < row_count
        invariant
            r <= row_count,
            rows@.len() == row_count,
            col_count < usize::MAX,
            table_view(t@) =~= Seq::new(
                r as nat,
                |k: int|
                    Seq::new((col_count + 1) as nat, |j: int| default_wire(rows@[k]@.is_classical)),
            ),
        decreases row_count - r,
    {
        let mut line: Vec<String> = Vec::new();
        let mut j: usize = 0;
        while j < col_count + 1
            invariant
                j <= col_count + 1,
                r < row_count,
                col_count < usize::MAX,
                rows@.len() == row_count,
                strs_view(line@) =~= Seq::new(
                    j as nat,
                    |k: int| default_wire(rows@[r as int]@.is_classical),
                ),
            decreases col_count + 1 - j,
        {
            let cell = if rows[r].is_classical {
                String::from_str("\\cw")
            } else {
                String::from_str("\\qw")
            };
            line.push(cell);
            proof {
                assert(strs_view(line@) =~= Seq::new(
                    (j + 1) as nat,
                    |k: int| default_wire(rows@[r as int]@.is_classical),
                ));
            }
            j += 1;
        }
        t.push(line);
        proof {
            assert(table_view(t@) =~= Seq::new(
                (r + 1) as nat,
                |k: int|
                    Seq::new((col_count + 1) as nat, |j: int| default_wire(rows@[k]@.is_classical)),
            ));
        }
        r += 1;
    }
    t
}

fn ctrl_string(base: usize, ctl: usize) -> (r: String)
    ensures
        r@ == ctrl_cell(base as int - ctl as int),
{
    let mut s = String::from_str("\\ctrl{");
    let off = offset_text(base, ctl);
    s.append(off.as_str());
    s.append("}");
    proof {
        assert(s@ =~= ctrl_cell(base as int - ctl as int));
    }
    s
}

/// Places one unitary in a column of the symbol table: the swap pair for
/// an uncontrolled two-target SWAP, target glyphs for a controlled X,
/// control-styled glyphs for a controlled Z, a gate box otherwise, and a
/// control glyph on every control row. `targets` and `controls` arrive
/// resolved, deduplicated and sorted.
pub fn process_unitary(
    name: &str,
    args: &Vec<String>,
    is_adjoint: bool,
    col: usize,
    targets: &Vec<usize>,
    controls: &Vec<usize>,
    table: &mut Vec<Vec<String>>,
)
    requires
        forall|i: int| 0 <= i < targets@.len() ==> (#[trigger] targets@[i]) < old(table)@.len(),
        forall|i: int| 0 <= i < controls@.len() ==> (#[trigger] controls@[i]) < old(table)@.len(),
        forall|k: int| 0 <= k < old(table)@.len() ==> col < (#[trigger] old(table)@[k])@.len(),
    ensures
        table_view(final(table)@) == apply_unitary(
            table_view(old(table)@),
            name@,
            strs_view(args@),
            is_adjoint,
            col,
            targets@,
            controls@,
        ),
        final(table)@.len() == old(table)@.len(),
        forall|k: int|
            0 <= k < final(table)@.len() ==> (#[trigger] final(table)@[k])@.len() == old(
                table,
            )@[k]@.len(),
{
    let ghost tv0 = table_view(table@);
    let simple = simple_gate_name(name);
    let swap_gate = is_swap_gate(simple);
    if swap_gate && targets.len() == 2 {
        let t1 = targets[0];
        let t2 = targets[1];
        let mut cell = String::from_str("\\swap{");
        let off = offset_text(t2, t1);
        cell.append(off.as_str());
        cell.append("}");
        proof {
            assert(cell@ =~= swap_cell(t2 as int - t1 as int));
        }
        write_cell(table, t1, col, cell);
        write_cell(table, t2, col, String::from_str("\\targX{}"));
        let ghost tv_mid = table_view(table@);
        let mut i: usize = 0;
        while i < controls.len()
            invariant
                i <= controls@.len(),
                targets@.len() == 2,
                targets@[0] == t1,
                table@.len() == old(table)@.len(),
                forall|k: int|
                    0 <= k < table@.len() ==> (#[trigger] table@[k])@.len() == old(
                        table,
                    )@[k]@.len(),
                forall|x: int|
                    0 <= x < controls@.len() ==> (#[trigger] controls@[x]) < old(table)@.len(),
                forall|k: int|
                    0 <= k < old(table)@.len() ==> col < (#[trigger] old(table)@[k])@.len(),
                table_view(table@) == apply_ctrls(tv_mid, controls@.take(i as int), col, targets@),
            decreases controls@.len() - i,
        {
            let ctl = controls[i];
            let cellc = ctrl_string(t1, ctl);
            write_cell(table, ctl, col, cellc);
            proof {
                assert(controls@.take(i + 1).drop_last() =~= controls@.take(i as int));
                assert(controls@.take(i + 1).last() == controls@[i as int]);
                assert(table_view(table@) =~= apply_ctrls(
                    tv_mid,
                    controls@.take(i + 1),
                    col,
                    targets@,
                ));
            }
            i += 1;
        }
        proof {
            assert(controls@.take(controls@.len() as int) =~= controls@);
            assert(table_view(table@) =~= apply_unitary(
                tv0,
                name@,
                strs_view(args@),
                is_adjoint,
                col,
                targets@,
                controls@,
            ));
        }
        return ;
    }
    let is_x = str_eq(simple, "X") || str_eq(simple, "CNOT");
    let is_z = str_eq(simple, "Z");
    if is_x && controls.len() > 0 {
        let mut i: usize = 0;
        while i < targets.len()
            invariant
                i <= targets@.len(),
                table@.len() == old(table)@.len(),
                forall|k: int|
                    0 <= k < table@.len() ==> (#[trigger] table@[k])@.len() == old(
                        table,
                    )@[k]@.len(),
                forall|x: int|
                    0 <= x < targets@.len() ==> (#[trigger] targets@[x]) < old(table)@.len(),
                forall|k: int|
                    0 <= k < old(table)@.len() ==> col < (#[trigger] old(table)@[k])@.len(),
                table_view(table@) == apply_targs(tv0, targets@.take(i as int), col),
            decreases targets@.len() - i,
        {
            let t = targets[i];
            write_cell(table, t, col, String::from_str("\\targ{}"));
            proof {
                assert(targets@.take(i + 1).drop_last() =~= targets@.take(i as int));
                assert(targets@.take(i + 1).last() == targets@[i as int]);
                assert(table_view(table@) =~= apply_targs(tv0, targets@.take(i + 1), col));
            }
            i += 1;
        }
        proof {
            assert(targets@.take(targets@.len() as int) =~= targets@);
        }
    } else if is_z && controls.len() > 0 {
        let c0 = controls[0];
        let mut i: usize = 0;
        while i < targets.len()
            invariant
                i <= targets@.len(),
                controls@.len() > 0,
                c0 == controls@[0],
                table@.len() == old(table)@.len(),
                forall|k: int|
                    0 <= k < table@.len() ==> (#[trigger] table@[k])@.len() == old(
                        table,
                    )@[k]@.len(),
                forall|x: int|
                    0 <= x < targets@.len() ==> (#[trigger] targets@[x]) < old(table)@.len(),
                forall|k: int|
                    0 <= k < old(table)@.len() ==> col < (#[trigger] old(table)@[k])@.len(),
                table_view(table@) == apply_zctrls(tv0, targets@.take(i as int), col, c0),
            decreases targets@.len() - i,
        {
            let t = targets[i];
            let cellz = ctrl_string(c0, t);
            proof {
                assert(c0 as int - t as int == -(t as int - c0 as int));
            }
            write_cell(table, t, col, cellz);
            proof {
                assert(targets@.take(i + 1).drop_last() =~= targets@.take(i as int));
                assert(targets@.take(i + 1).last() == targets@[i as int]);
                assert(table_view(table@) =~= apply_zctrls(tv0, targets@.take(i + 1), col, c0));
            }
            i += 1;
        }
        proof {
            assert(targets@.take(targets@.len() as int) =~= targets@);
        }
    } else if targets.len() > 1 {
        let label = operation_label(simple, args, is_adjoint);
        let mut cell = String::from_str("\\gate[wires=");
        let n = usize_text(targets.len());
        cell.append(n.as_str());
        cell.append("]{");
        cell.append(label.as_str());
        cell.append("}");
        proof {
            assert(cell@ =~= gate_wires_cell(
                targets@.len(),
                label_text(simple_name(name@), strs_view(args@), is_adjoint),
            ));
        }
        let t0 = targets[0];
        write_cell(table, t0, col, cell);
    } else if targets.len() == 1 {
        let label = operation_label(simple, args, is_adjoint);
        let mut cell = String::from_str("\\gate{");
        cell.append(label.as_str());
        cell.append("}");
        proof {
            assert(cell@ =~= gate_cell(
                label_text(simple_name(name@), strs_view(args@), is_adjoint),
            ));
        }
        let t0 = targets[0];
        write_cell(table, t0, col, cell);
    }
    let ghost tv_mid = table_view(table@);
    if controls.len() > 0 {
        let mut i: usize = 0;
        while i < controls.len()
            invariant
                i <= controls@.len(),
                table@.len() == old(table)@.len(),
                forall|k: int|
                    0 <= k < table@.len() ==> (#[trigger] table@[k])@.len() == old(
                        table,
                    )@[k]@.len(),
                forall|x: int|
                    0 <= x < controls@.len() ==> (#[trigger] controls@[x]) < old(table)@.len(),
                forall|x: int|
                    0 <= x < targets@.len() ==> (#[trigger] targets@[x]) < old(table)@.len(),
                forall|k: int|
                    0 <= k < old(table)@.len() ==> col < (#[trigger] old(table)@[k])@.len(),
                table_view(table@) == apply_ctrls(tv_mid, controls@.take(i as int), col, targets@),
            decreases controls@.len() - i,
        {
            let ctl = controls[i];
            let base = if targets.len() > 0 {
                targets[0]
            } else {
                ctl
            };
            let cellc = ctrl_string(base, ctl);
            write_cell(table, ctl, col, cellc);
            proof {
                assert(controls@.take(i + 1).drop_last() =~= controls@.take(i as int));
                assert(controls@.take(i + 1).last() == controls@[i as int]);
                assert(table_view(table@) =~= apply_ctrls(
                    tv_mid,
                    controls@.take(i + 1),
                    col,
                    targets@,
                ));
            }
            i += 1;
        }
        proof {
            assert(controls@.take(controls@.len() as int) =~= controls@);
        }
    }
    proof {
        assert(table_view(table@) =~= apply_unitary(
            tv0,
            name@,
            strs_view(args@),
            is_adjoint,
            col,
            targets@,
            controls@,
        ));
    }
}

/// A row in the middle of a wire-mode rewrite: the glyph at `col`, the new
/// wire symbol from there up to (excluding) `j`, the old cells elsewhere.
spec fn partial_row(
    cells: Seq<Seq<char>>,
    col: usize,
    j: int,
    mark: Seq<char>,
    wire: Seq<char>,
) -> Seq<Seq<char>> {
    Seq::new(
        cells.len(),
        |x: int|
            if x == col {
                mark
            } else if col < x < j {
                wire
            } else {
                cells[x]
            },
    )
}

/// Places one operation in a column: a unitary draws its glyphs, a
/// measurement draws meters and turns its wires classical for the rest of
/// the diagram, a re-initialization draws ket-zero boxes and turns its
/// wires back to quantum.
fn process_operation(
    op: &Operation,
    col: usize,
    targets: &Vec<usize>,
    controls: &Vec<usize>,
    table: &mut Vec<Vec<String>>,
    rows: &mut Vec<Row>,
    Ghost(c): Ghost<Circuit>,
)
    requires
        circuit_wf(c),
        targets@ == target_rows(c, *op),
        controls@ == control_rows(c, *op),
        old(rows)@.len() == old(table)@.len(),
        forall|i: int| 0 <= i < targets@.len() ==> (#[trigger] targets@[i]) < old(table)@.len(),
        forall|i: int| 0 <= i < controls@.len() ==> (#[trigger] controls@[i]) < old(table)@.len(),
        forall|k: int| 0 <= k < old(table)@.len() ==> col < (#[trigger] old(table)@[k])@.len(),
    ensures
        (Layout {
            table: table_view(final(table)@),
            rows: rows_view(final(rows)@),
        }) == apply_operation(
            c,
            Layout { table: table_view(old(table)@), rows: rows_view(old(rows)@) },
            *op,
            col,
        ),
        final(table)@.len() == old(table)@.len(),
        forall|k: int|
            0 <= k < final(table)@.len() ==> (#[trigger] final(table)@[k])@.len() == old(
                table,
            )@[k]@.len(),
        final(rows)@.len() == old(rows)@.len(),
{
    let ghost st0 = Layout { table: table_view(table@), rows: rows_view(rows@) };
    match op {
        Operation::Unitary { gate, args, is_adjoint, .. } => {
            process_unitary(gate.as_str(), args, *is_adjoint, col, targets, controls, table);
            proof {
                assert((Layout { table: table_view(table@), rows: rows_view(rows@) })
                    =~= apply_operation(c, st0, *op, col));
            }
        },
        Operation::Measurement { .. } => {
            let mut i: usize = 0;
            while i < targets.len()
                invariant
                    i <= targets@.len(),
                    rows@.len() == old(rows)@.len(),
                    old(rows)@.len() == old(table)@.len(),
                    table@.len() == old(table)@.len(),
                    forall|k: int|
                        0 <= k < table@.len() ==> (#[trigger] table@[k])@.len() == old(
                            table,
                        )@[k]@.len(),
                    forall|x: int|
                        0 <= x < targets@.len() ==> (#[trigger] targets@[x]) < old(
                            table,
                        )@.len(),
                    forall|k: int|
                        0 <= k < old(table)@.len() ==> col < (#[trigger] old(table)@[k])@.len(),
                    (Layout { table: table_view(table@), rows: rows_view(rows@) }) == apply_meas(
                        st0,
                        targets@.take(i as int),
                        col,
                    ),
                decreases targets@.len() - i,
            {
                let ghost prev = Layout { table: table_view(table@), rows: rows_view(rows@) };
                let t = targets[i];
                proof {
                    assert(prev.table.len() == table@.len());
                    assert(t < prev.table.len());
                    assert(prev.rows.len() == rows@.len());
                }
                write_cell(table, t, col, String::from_str("\\meter{}"));
                proof {
                    let rowp = prev.table[t as int];
                    assert(rowp.update(col as int, meter_cell()) =~= partial_row(
                        rowp,
                        col,
                        col + 1,
                        meter_cell(),
                        "\\cw"@,
                    ));
                    assert(table_view(table@) =~= prev.table.update(
                        t as int,
                        partial_row(rowp, col, col + 1, meter_cell(), "\\cw"@),
                    ));
                }
                rows[t].is_classical = true;
                proof {
                    assert(rows_view(rows@) =~= prev.rows.update(
                        t as int,
                        RowModel { label: prev.rows[t as int].label, is_classical: true },
                    ));
                }
                let w = table[t].len();
                let mut j: usize = col + 1;
                while j < w
                    invariant
                        col < j <= w,
                        t < table@.len(),
                        t < prev.table.len(),
                        prev.table.len() == table@.len(),
                        w == table@[t as int]@.len(),
                        table@.len() == old(table)@.len(),
                        forall|k: int|
                            0 <= k < table@.len() ==> (#[trigger] table@[k])@.len() == old(
                                table,
                            )@[k]@.len(),
                        table_view(table@) == prev.table.update(
                            t as int,
                            partial_row(prev.table[t as int], col, j as int, meter_cell(), "\\cw"@),
                        ),
                    decreases w - j,
                {
                    let ghost rowp = prev.table[t as int];
                    proof {
                        assert(table_view(table@).len() == table@.len());
                        assert(table_view(table@)[t as int] == strs_view(table@[t as int]@));
                        assert(table_view(table@)[t as int] == partial_row(
                            rowp,
                            col,
                            j as int,
                            meter_cell(),
                            "\\cw"@,
                        ));
                        assert(rowp.len() == w);
                    }
                    write_cell(table, t, j, String::from_str("\\cw"));
                    proof {
                        assert(partial_row(rowp, col, j as int, meter_cell(), "\\cw"@).update(
                            j as int,
                            "\\cw"@,
                        ) =~= partial_row(rowp, col, j + 1, meter_cell(), "\\cw"@));
                        assert(table_view(table@) =~= prev.table.update(
                            t as int,
                            partial_row(rowp, col, j + 1, meter_cell(), "\\cw"@),
                        ));
                    }
                    j += 1;
                }
                proof {
                    assert(partial_row(prev.table[t as int], col, w as int, meter_cell(), "\\cw"@)
                        =~= meas_row_cells(prev.table[t as int], col));
                    assert(targets@.take(i + 1).drop_last() =~= targets@.take(i as int));
                    assert(targets@.take(i + 1).last() == targets@[i as int]);
                    assert((Layout { table: table_view(table@), rows: rows_view(rows@) })
                        =~= apply_meas(st0, targets@.take(i + 1), col));
                }
                i += 1;
            }
            proof {
                assert(targets@.take(targets@.len() as int) =~= targets@);
                assert((Layout { table: table_view(table@), rows: rows_view(rows@) })
                    =~= apply_operation(c, st0, *op, col));
            }
        },
        Operation::Ket { .. } => {
            let mut i: usize = 0;
            while i < targets.len()
                invariant
                    i <= targets@.len(),
                    rows@.len() == old(rows)@.len(),
                    old(rows)@.len() == old(table)@.len(),
                    table@.len() == old(table)@.len(),
                    forall|k: int|
                        0 <= k < table@.len() ==> (#[trigger] table@[k])@.len() == old(
                            table,
                        )@[k]@.len(),
                    forall|x: int|
                        0 <= x < targets@.len() ==> (#[trigger] targets@[x]) < old(
                            table,
                        )@.len(),
                    forall|k: int|
                        0 <= k < old(table)@.len() ==> col < (#[trigger] old(table)@[k])@.len(),
                    (Layout { table: table_view(table@), rows: rows_view(rows@) }) == apply_ket(
                        st0,
                        targets@.take(i as int),
                        col,
                    ),
                decreases targets@.len() - i,
            {
                let ghost prev = Layout { table: table_view(table@), rows: rows_view(rows@) };
                let t = targets[i];
                proof {
                    assert(prev.table.len() == table@.len());
                    assert(t < prev.table.len());
                    assert(prev.rows.len() == rows@.len());
                }
                write_cell(table, t, col, String::from_str("\\gate{\\ket{0}}"));
                proof {
                    let rowp = prev.table[t as int];
                    assert(rowp.update(col as int, ket_cell()) =~= partial_row(
                        rowp,
                        col,
                        col + 1,
                        ket_cell(),
                        "\\qw"@,
                    ));
                    assert(table_view(table@) =~= prev.table.update(
                        t as int,
                        partial_row(rowp, col, col + 1, ket_cell(), "\\qw"@),
                    ));
                }
                rows[t].is_classical = false;
                proof {
                    assert(rows_view(rows@) =~= prev.rows.update(
                        t as int,
                        RowModel { label: prev.rows[t as int].label, is_classical: false },
                    ));
                }
                let w = table[t].len();
                let mut j: usize = col + 1;
                while j < w
                    invariant
                        col < j <= w,
                        t < table@.len(),
                        t < prev.table.len(),
                        prev.table.len() == table@.len(),
                        w == table@[t as int]@.len(),
                        table@.len() == old(table)@.len(),
                        forall|k: int|
                            0 <= k < table@.len() ==> (#[trigger] table@[k])@.len() == old(
                                table,
                            )@[k]@.len(),
                        table_view(table@) == prev.table.update(
                            t as int,
                            partial_row(prev.table[t as int], col, j as int, ket_cell(), "\\qw"@),
                        ),
                    decreases w - j,
                {
                    let ghost rowp = prev.table[t as int];
                    proof {
                        assert(table_view(table@).len() == table@.len());
                        assert(table_view(table@)[t as int] == strs_view(table@[t as int]@));
                        assert(table_view(table@)[t as int] == partial_row(
                            rowp,
                            col,
                            j as int,
                            ket_cell(),
                            "\\qw"@,
                        ));
                        assert(rowp.len() == w);
                    }
                    write_cell(table, t, j, String::from_str("\\qw"));
                    proof {
                        assert(partial_row(rowp, col, j as int, ket_cell(), "\\qw"@).update(
                            j as int,
                            "\\qw"@,
                        ) =~= partial_row(rowp, col, j + 1, ket_cell(), "\\qw"@));
                        assert(table_view(table@) =~= prev.table.update(
                            t as int,
                            partial_row(rowp, col, j + 1, ket_cell(), "\\qw"@),
                        ));
                    }
                    j += 1;
                }
                proof {
                    assert(partial_row(prev.table[t as int], col, w as int, ket_cell(), "\\qw"@)
                        =~= ket_row_cells(prev.table[t as int], col));
                    assert(targets@.take(i + 1).drop_last() =~= targets@.take(i as int));
                    assert(targets@.take(i + 1).last() == targets@[i as int]);
                    assert((Layout { table: table_view(table@), rows: rows_view(rows@) })
                        =~= apply_ket(st0, targets@.take(i + 1), col));
                }
                i += 1;
            }
            proof {
                assert(targets@.take(targets@.len() as int) =~= targets@);
                assert((Layout { table: table_view(table@), rows: rows_view(rows@) })
                    =~= apply_operation(c, st0, *op, col));
            }
        },
    }
}

/// Walks the circuit's columns left to right, placing every operation of
/// every column into the symbol table and tracking each row's wire mode.
pub fn populate_table(
    c: &Circuit,
    register_to_row: &RegisterMap,
    table: &mut Vec<Vec<String>>,
    rows: &mut Vec<Row>,
)
    requires
        circuit_wf(*c),
        map_wf(*register_to_row, *c),
        old(rows)@.len() == row_count(*c),
        old(table)@.len() == row_count(*c),
        forall|k: int|
            0 <= k < old(table)@.len() ==> (#[trigger] old(table)@[k])@.len() == c.columns@.len()
                + 1,
    ensures
        (Layout {
            table: table_view(final(table)@),
            rows: rows_view(final(rows)@),
        }) == apply_columns(
            *c,
            Layout { table: table_view(old(table)@), rows: rows_view(old(rows)@) },
            c.columns@.len() as int,
        ),
        final(table)@.len() == old(table)@.len(),
        final(rows)@.len() == old(rows)@.len(),
{
    let ghost st0 = Layout { table: table_view(table@), rows: rows_view(rows@) };
    let mut col_index: usize = 0;
    while col_index < c.columns.len()
        invariant
            col_index <= c.columns@.len(),
            circuit_wf(*c),
            map_wf(*register_to_row, *c),
            table@.len() == old(table)@.len(),
            rows@.len() == old(rows)@.len(),
            old(rows)@.len() == row_count(*c),
            old(table)@.len() == row_count(*c),
            forall|k: int|
                0 <= k < table@.len() ==> (#[trigger] table@[k])@.len() == c.columns@.len() + 1,
            st0 == (Layout { table: table_view(old(table)@), rows: rows_view(old(rows)@) }),
            (Layout { table: table_view(table@), rows: rows_view(rows@) }) == apply_columns(
                *c,
                st0,
                col_index as int,
            ),
        decreases c.columns@.len() - col_index,
    {
        let ghost stc = apply_columns(*c, st0, col_index as int);
        let ops = &c.columns[col_index].operations;
        let mut op_i: usize = 0;
        while op_i < ops.len()
            invariant
                op_i <= ops@.len(),
                col_index < c.columns@.len(),
                ops@ == c.columns@[col_index as int].operations@,
                circuit_wf(*c),
                map_wf(*register_to_row, *c),
                table@.len() == old(table)@.len(),
                rows@.len() == old(rows)@.len(),
                old(rows)@.len() == row_count(*c),
                old(table)@.len() == row_count(*c),
                forall|k: int|
                    0 <= k < table@.len() ==> (#[trigger] table@[k])@.len() == c.columns@.len()
                        + 1,
                (Layout { table: table_view(table@), rows: rows_view(rows@) }) == apply_ops(
                    *c,
                    stc,
                    ops@.take(op_i as int),
                    col_index,
                ),
            decreases ops@.len() - op_i,
        {
            let op = &ops[op_i];
            proof {
                assert(crate::circuit::op_wf(*c, *op));
                lemma_rows_touched_bounds(*c, op_targets(*op), row_count(*c));
                lemma_rows_touched_bounds(*c, op_controls(*op), row_count(*c));
            }
            let targets = get_rows_for_operation(op, register_to_row, true, Ghost(*c));
            let controls = get_rows_for_operation(op, register_to_row, false, Ghost(*c));
            process_operation(op, col_index, &targets, &controls, table, rows, Ghost(*c));
            proof {
                assert(ops@.take(op_i + 1).drop_last() =~= ops@.take(op_i as int));
                assert(ops@.take(op_i + 1).last() == ops@[op_i as int]);
                assert((Layout { table: table_view(table@), rows: rows_view(rows@) })
                    =~= apply_ops(*c, stc, ops@.take(op_i + 1), col_index));
            }
            op_i += 1;
        }
        proof {
            assert(ops@.take(ops@.len() as int) =~= ops@);
            assert((Layout { table: table_view(table@), rows: rows_view(rows@) })
                =~= apply_columns(*c, st0, col_index + 1));
        }
        col_index += 1;
    }
}

/// Renders a finalized circuit as a quantikz LaTeX block: row assignment,
/// table initialization, the column walk, and serialization, in that
/// order. The result is exactly `quantikz_text` of the circuit.
pub fn circuit_to_quantikz(c: &Circuit) -> (r: String)
    requires
        circuit_wf(*c),
    ensures
        r@ == quantikz_text(*c),
{
    let built = build_rows(c);
    let mut rows = built.0;
    let register_to_row = built.1;
    let col_count = c.columns.len();
    let mut table = initialize_table(rows.len(), col_count, &rows);
    proof {
        assert forall|r0: int| 0 <= r0 < rows@.len() implies rows@[r0]@ == init_rows(*c)[r0] by {
            assert(rows_view(rows@)[r0] == rows@[r0]@);
        }
        assert(table_view(table@) =~~= init_layout(*c).table);
        assert((Layout { table: table_view(table@), rows: rows_view(rows@) }) =~= init_layout(
            *c,
        ));
        assert forall|k: int| 0 <= k < table@.len() implies (#[trigger] table@[k])@.len()
            == c.columns@.len() + 1 by {
            assert(table_view(table@)[k] == strs_view(table@[k]@));
        }
        assert(table@.len() == row_count(*c));
    }
    populate_table(c, &register_to_row, &mut table, &mut rows);
    proof {
        assert((Layout { table: table_view(table@), rows: rows_view(rows@) }) == final_layout(
            *c,
        ));
        assert(rows_view(rows@).len() == rows@.len());
        assert(table_view(table@).len() == table@.len());
        assert(final_layout(*c).rows == rows_view(rows@));
        assert(final_layout(*c).table == table_view(table@));
    }
    render_latex(&rows, &table)
}

/// Law: an uncontrolled two-target SWAP produces exactly two non-default
/// cells in its column — a swap glyph on the lower-indexed row spanning
/// the row distance to its partner, and a swap-target glyph on the
/// partner row. Every other row of the table is untouched.
pub proof fn lemma_swap_column(
    table: Seq<Seq<Seq<char>>>,
    gate: Seq<char>,
    args: Seq<Seq<char>>,
    is_adjoint: bool,
    col: usize,
    trs: Seq<usize>,
)
    requires
        is_swap_name(simple_name(gate)),
        trs.len() == 2,
        trs[0] < trs[1],
        trs[1] < table.len(),
    ensures
        ({
            let placed = apply_unitary(table, gate, args, is_adjoint, col, trs, Seq::empty());
            &&& placed.len() == table.len()
            &&& placed[trs[0] as int] == table[trs[0] as int].update(
                col as int,
                swap_cell(trs[1] - trs[0]),
            )
            &&& placed[trs[1] as int] == table[trs[1] as int].update(col as int, targx_cell())
            &&& forall|r: int|
                0 <= r < table.len() && r != trs[0] && r != trs[1] ==> (#[trigger] placed[r])
                    == table[r]
        }),
{
    let placed = apply_unitary(table, gate, args, is_adjoint, col, trs, Seq::empty());
    assert(placed == set_cell(
        set_cell(table, trs[0], col, swap_cell(trs[1] as int - trs[0] as int)),
        trs[1],
        col,
        targx_cell(),
    ));
}

/// Serializes the row labels and the symbol table into the final LaTeX
/// block. Pure formatting: no layout decision is taken here.
pub fn render_latex(rows: &Vec<Row>, table: &Vec<Vec<String>>) -> (r: String)
    requires
        rows@.len() == table@.len(),
    ensures
        r@ == latex_text(rows_view(rows@), table_view(table@)),
{
    let mut out = String::from_str("\\begin{quantikz}\n");
    let mut i: usize = 0;
    while i < rows.len()
        invariant
            i <= rows@.len(),
            rows@.len() == table@.len(),
            out@ == "\\begin{quantikz}\n"@ + rows_text(
                rows_view(rows@),
                table_view(table@),
                i as int,
            ),
        decreases rows@.len() - i,
    {
        match &rows[i].label {
            Some(l) => out.append(l.as_str()),
            None => {},
        }
        out.append(" & ");
        let joined = join_strings(&table[i], " & ");
        out.append(joined.as_str());
        out.append(" \\\\\n");
        proof {
            assert(rows_view(rows@)[i as int] == rows@[i as int]@);
            assert(table_view(table@)[i as int] == strs_view(table@[i as int]@));
            assert(out@ =~= "\\begin{quantikz}\n"@ + rows_text(
                rows_view(rows@),
                table_view(table@),
                i + 1,
            ));
        }
        i += 1;
    }
    out.append("\\end{quantikz}\n");
    proof {
        assert(out@ =~= latex_text(rows_view(rows@), table_view(table@)));
    }
    out
}

} // verus!
