//! Rows of artifact fields for the tables that commands print.
use vstd::prelude::*;

use crate::artifact::{priority_cell, text_cell, Artifact};
use crate::output::row_view;

verus! {

/// A column of a table of artifacts.
pub enum Column {
    /// The text of a string field, or `-`.
    Field(String),
    /// The priority, or `-`.
    Priority,
}

/// The cell of column `c` for artifact `a`.
pub open spec fn column_cell(c: Column, a: Artifact) -> Seq<char> {
    match c {
        Column::Field(k) => text_cell(a, k@),
        Column::Priority => priority_cell(a),
    }
}

/// The cells of `a` in the columns `cols`.
pub open spec fn cells(cols: Seq<Column>, a: Artifact) -> Seq<Seq<char>> {
    Seq::new(cols.len(), |j: int| column_cell(cols[j], a))
}

/// The models of rows of text.
pub open spec fn rows_view(rows: Seq<Vec<String>>) -> Seq<Seq<Seq<char>>> {
    Seq::new(rows.len(), |i: int| row_view(rows[i]))
}

/// A column of the text of field `key`.
pub fn field(key: &str) -> (c: Column)
    ensures
        c matches Column::Field(k) && k@ == key@,
{
    Column::Field(crate::text::owned(key))
}

/// The cells of `a` in the columns `cols`.
pub fn artifact_cells(a: &Artifact, cols: &Vec<Column>) -> (r: Vec<String>)
    requires
        a.wf(),
    ensures
        row_view(r) == cells(cols@, *a),
{
    let mut row: Vec<String> = Vec::new();
    let mut j: usize = 0;
    while j < cols.len()
        invariant
            a.wf(),
            j <= cols@.len(),
            row@.len() == j,
            forall|q: int| 0 <= q < j ==> (#[trigger] row@[q])@ == column_cell(cols@[q], *a),
        decreases cols@.len() - j,
    {
        let cell = match &cols[j] {
            Column::Field(k) => a.field_cell(k.as_str()),
            Column::Priority => a.priority_text(),
        };
        row.push(cell);
        j += 1;
    }
    assert(row_view(row) =~= cells(cols@, *a));
    row
}

/// The rows of the artifacts at positions `sel`, in the columns `cols`.
pub fn artifact_rows(arts: &Vec<Artifact>, sel: &Vec<usize>, cols: &Vec<Column>) -> (r: Vec<Vec<String>>)
    requires
        forall|i: int| 0 <= i < arts@.len() ==> (#[trigger] arts@[i]).wf(),
        forall|k: int| 0 <= k < sel@.len() ==> #[trigger] sel@[k] < arts@.len(),
    ensures
        rows_view(r@) == Seq::new(sel@.len(), |k: int| cells(cols@, arts@[sel@[k] as int])),
{
    let mut rows: Vec<Vec<String>> = Vec::new();
    let mut k: usize = 0;
    while k < sel.len()
        invariant
            forall|i: int| 0 <= i < arts@.len() ==> (#[trigger] arts@[i]).wf(),
            forall|k: int| 0 <= k < sel@.len() ==> #[trigger] sel@[k] < arts@.len(),
            k <= sel@.len(),
            rows@.len() == k,
            forall|q: int| 0 <= q < k ==> row_view(#[trigger] rows@[q]) == cells(cols@, arts@[sel@[q] as int]),
        decreases sel@.len() - k,
    {
        rows.push(artifact_cells(&arts[sel[k]], cols));
        k += 1;
    }
    assert(rows_view(rows@) =~= Seq::new(sel@.len(), |k: int| cells(cols@, arts@[sel@[k] as int])));
    rows
}

} // verus!
