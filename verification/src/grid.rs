//! Diagram rows and the row-by-column symbol table, with the view lemmas
//! the layout proofs lean on.

use vstd::prelude::*;

use crate::text::strs_view;

verus! {

/// A diagram row: an optional left-hand label and the current wire mode.
/// The mode flips to classical at a measurement and back to quantum at a
/// re-initialization.
pub struct Row {
    pub label: Option<String>,
    pub is_classical: bool,
}

/// The abstract content of a row.
#[verifier::ext_equal]
pub ghost struct RowModel {
    pub label: Option<Seq<char>>,
    pub is_classical: bool,
}

impl View for Row {
    type V = RowModel;

    open spec fn view(&self) -> RowModel {
        RowModel {
            label: match self.label {
                Some(l) => Some(l@),
                None => None,
            },
            is_classical: self.is_classical,
        }
    }
}

/// The views of a sequence of rows.
pub open spec fn rows_view(rows: Seq<Row>) -> Seq<RowModel> {
    rows.map_values(|r: Row| r@)
}

/// The views of the symbol table's cells.
pub open spec fn table_view(t: Seq<Vec<String>>) -> Seq<Seq<Seq<char>>> {
    t.map_values(|row: Vec<String>| strs_view(row@))
}

/// Appending a row and then taking views appends the view.
pub broadcast proof fn lemma_rows_view_push(rows: Seq<Row>, r: Row)
    ensures
        #[trigger] rows_view(rows.push(r)) == rows_view(rows).push(r@),
{
    let a = rows_view(rows.push(r));
    let b = rows_view(rows).push(r@);
    assert forall|i: int| 0 <= i < a.len() implies a[i] == b[i] by {
        assert(a[i] == rows.push(r)[i]@);
        if i < rows.len() {
            assert(rows_view(rows)[i] == rows[i]@);
        }
    }
    assert(a =~= b);
}

/// Updating a row and then taking views updates the view.
pub broadcast proof fn lemma_rows_view_update(rows: Seq<Row>, i: int, r: Row)
    requires
        0 <= i < rows.len(),
    ensures
        #[trigger] rows_view(rows.update(i, r)) == rows_view(rows).update(i, r@),
{
    let a = rows_view(rows.update(i, r));
    let b = rows_view(rows).update(i, r@);
    assert forall|k: int| 0 <= k < a.len() implies a[k] == b[k] by {
        assert(a[k] == rows.update(i, r)[k]@);
        if k != i {
            assert(rows_view(rows)[k] == rows[k]@);
        }
    }
    assert(a =~= b);
}

/// Appending a table line and then taking views appends the view.
pub broadcast proof fn lemma_table_view_push(t: Seq<Vec<String>>, row: Vec<String>)
    ensures
        #[trigger] table_view(t.push(row)) == table_view(t).push(strs_view(row@)),
{
    let a = table_view(t.push(row));
    let b = table_view(t).push(strs_view(row@));
    assert forall|i: int| 0 <= i < a.len() implies a[i] == b[i] by {
        assert(a[i] == strs_view(t.push(row)[i]@));
        if i < t.len() {
            assert(table_view(t)[i] == strs_view(t[i]@));
        }
    }
    assert(a =~= b);
}

/// Updating a table line and then taking views updates the view.
pub broadcast proof fn lemma_table_view_update(t: Seq<Vec<String>>, i: int, row: Vec<String>)
    requires
        0 <= i < t.len(),
    ensures
        #[trigger] table_view(t.update(i, row)) == table_view(t).update(i, strs_view(row@)),
{
    let a = table_view(t.update(i, row));
    let b = table_view(t).update(i, strs_view(row@));
    assert forall|k: int| 0 <= k < a.len() implies a[k] == b[k] by {
        assert(a[k] == strs_view(t.update(i, row)[k]@));
        if k != i {
            assert(table_view(t)[k] == strs_view(t[k]@));
        }
    }
    assert(a =~= b);
}

} // verus!
