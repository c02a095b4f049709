//! `types`, `fields` and the per-type overview of `stats`: tables about
//! schemas.
use vstd::prelude::*;

use crate::discover::all_positions;
use crate::error::ArkError;
use crate::output::row_view;
use crate::schema::{field_named, FieldDef, FieldType, Schema};
use crate::sort::{key_model, lemma_sorted_members, order_by, sorted_by_keys, SortKey};
use crate::text::{join_spec, nat_text, views};

verus! {

/// The sort keys of rows: their first cells.
pub open spec fn first_cell_keys(rows: Seq<Vec<String>>) -> Seq<(int, Seq<Seq<char>>)> {
    Seq::new(rows.len(), |i: int| (0int, seq![rows[i]@[0]@]))
}

/// A copy of a row.
fn copy_row(row: &Vec<String>) -> (r: Vec<String>)
    ensures
        row_view(r) == row_view(*row),
{
    let mut out: Vec<String> = Vec::new();
    let mut i: usize = 0;
    while i < row.len()
        invariant
            i <= row@.len(),
            out@.len() == i,
            forall|j: int| 0 <= j < i ==> (#[trigger] out@[j])@ == row@[j]@,
        decreases row@.len() - i,
    {
        out.push(row[i].clone());
        i += 1;
    }
    assert(row_view(out) =~= row_view(*row));
    out
}

/// `rows` ordered by their first cells (stable), as `sort_by` on the first
/// cell orders them.
pub fn sort_rows(rows: &Vec<Vec<String>>) -> (r: Vec<Vec<String>>)
    requires
        forall|i: int| 0 <= i < rows@.len() ==> (#[trigger] rows@[i])@.len() > 0,
    ensures
        exists|order: Seq<usize>|
            sorted_by_keys(first_cell_keys(rows@), all_positions(rows@.len() as int), order) && Seq::new(
                r@.len(),
                |i: int| row_view(r@[i]),
            ) == Seq::new(order.len(), |q: int| row_view(rows@[order[q] as int])),
{
    let mut keys: Vec<SortKey> = Vec::new();
    let mut cand: Vec<usize> = Vec::new();
    let mut i: usize = 0;
    while i < rows.len()
        invariant
            forall|i: int| 0 <= i < rows@.len() ==> (#[trigger] rows@[i])@.len() > 0,
            i <= rows@.len(),
            keys@.len() == i,
            cand@ == all_positions(i as int),
            forall|j: int| 0 <= j < i ==> key_model(#[trigger] keys@[j]) == (0int, seq![rows@[j]@[0]@]),
        decreases rows@.len() - i,
    {
        let mut t: Vec<String> = Vec::new();
        t.push(rows[i][0].clone());
        let k = SortKey { num: 0, text: t };
        assert(key_model(k).1 =~= seq![rows@[i as int]@[0]@]);
        keys.push(k);
        cand.push(i);
        assert(cand@ =~= all_positions(i + 1));
        i += 1;
    }
    assert(Seq::new(keys@.len(), |j: int| key_model(keys@[j])) =~= first_cell_keys(rows@));
    let order = order_by(&cand, &keys);
    proof {
        lemma_sorted_members(Seq::new(keys@.len(), |j: int| key_model(keys@[j])), cand@, order@);
    }
    let mut out: Vec<Vec<String>> = Vec::new();
    let mut q: usize = 0;
    while q < order.len()
        invariant
            cand@ == all_positions(rows@.len() as int),
            forall|q: int| 0 <= q < order@.len() ==> #[trigger] cand@.contains(order@[q]),
            q <= order@.len(),
            out@.len() == q,
            forall|p: int| 0 <= p < q ==> row_view(#[trigger] out@[p]) == row_view(rows@[order@[p] as int]),
        decreases order@.len() - q,
    {
        assert(cand@.contains(order@[q as int]));
        out.push(copy_row(&rows[order[q]]));
        q += 1;
    }
    assert(Seq::new(out@.len(), |i: int| row_view(out@[i])) =~= Seq::new(
        order@.len(),
        |q: int| row_view(rows@[order@[q] as int]),
    ));
    out
}

/// The sort keys of rows: their first two cells.
pub open spec fn two_cell_keys(rows: Seq<Vec<String>>) -> Seq<(int, Seq<Seq<char>>)> {
    Seq::new(rows.len(), |i: int| (0int, seq![rows[i]@[0]@, rows[i]@[1]@]))
}

/// `rows` ordered by their first two cells (stable), as `sort_by` on the
/// first cell, then the second, orders them (the per-type counts of
/// `scan stats`).
pub fn sort_rows_by_two(rows: &Vec<Vec<String>>) -> (r: Vec<Vec<String>>)
    requires
        forall|i: int| 0 <= i < rows@.len() ==> (#[trigger] rows@[i])@.len() > 1,
    ensures
        exists|order: Seq<usize>|
            sorted_by_keys(two_cell_keys(rows@), all_positions(rows@.len() as int), order) && Seq::new(
                r@.len(),
                |i: int| row_view(r@[i]),
            ) == Seq::new(order.len(), |q: int| row_view(rows@[order[q] as int])),
{
    let mut keys: Vec<SortKey> = Vec::new();
    let mut cand: Vec<usize> = Vec::new();
    let mut i: usize = 0;
    while i < rows.len()
        invariant
            forall|i: int| 0 <= i < rows@.len() ==> (#[trigger] rows@[i])@.len() > 1,
            i <= rows@.len(),
            keys@.len() == i,
            cand@ == all_positions(i as int),
            forall|j: int| 0 <= j < i ==> key_model(#[trigger] keys@[j]) == (0int, seq![rows@[j]@[0]@, rows@[j]@[1]@]),
        decreases rows@.len() - i,
    {
        let mut t: Vec<String> = Vec::new();
        t.push(rows[i][0].clone());
        t.push(rows[i][1].clone());
        let k = SortKey { num: 0, text: t };
        assert(key_model(k).1 =~= seq![rows@[i as int]@[0]@, rows@[i as int]@[1]@]);
        keys.push(k);
        cand.push(i);
        assert(cand@ =~= all_positions(i + 1));
        i += 1;
    }
    assert(Seq::new(keys@.len(), |j: int| key_model(keys@[j])) =~= two_cell_keys(rows@));
    let order = order_by(&cand, &keys);
    proof {
        lemma_sorted_members(Seq::new(keys@.len(), |j: int| key_model(keys@[j])), cand@, order@);
    }
    let mut out: Vec<Vec<String>> = Vec::new();
    let mut q: usize = 0;
    while q < order.len()
        invariant
            cand@ == all_positions(rows@.len() as int),
            forall|q: int| 0 <= q < order@.len() ==> #[trigger] cand@.contains(order@[q]),
            q <= order@.len(),
            out@.len() == q,
            forall|p: int| 0 <= p < q ==> row_view(#[trigger] out@[p]) == row_view(rows@[order@[p] as int]),
        decreases order@.len() - q,
    {
        assert(cand@.contains(order@[q as int]));
        out.push(copy_row(&rows[order[q]]));
        q += 1;
    }
    assert(Seq::new(out@.len(), |i: int| row_view(out@[i])) =~= Seq::new(
        order@.len(),
        |q: int| row_view(rows@[order@[q] as int]),
    ));
    out
}

/// The row of a schema in `types`: name, prefix, directory, number of fields.
pub open spec fn type_row(s: Schema) -> Seq<Seq<char>> {
    seq![s.name@, s.prefix@, s.directory@, nat_text(s.fields@.len())]
}

/// The rows of `types`, one per schema, in schema order (to be sorted by
/// name with [`sort_rows`]).
pub fn type_rows(schemas: &Vec<Schema>) -> (r: Vec<Vec<String>>)
    ensures
        r@.len() == schemas@.len(),
        forall|i: int| 0 <= i < schemas@.len() ==> row_view(#[trigger] r@[i]) == type_row(schemas@[i]),
        forall|i: int| 0 <= i < r@.len() ==> (#[trigger] r@[i])@.len() > 0,
{
    let mut rows: Vec<Vec<String>> = Vec::new();
    let mut i: usize = 0;
    while i < schemas.len()
        invariant
            i <= schemas@.len(),
            rows@.len() == i,
            forall|j: int| 0 <= j < i ==> row_view(#[trigger] rows@[j]) == type_row(schemas@[j]),
            forall|j: int| 0 <= j < i ==> (#[trigger] rows@[j])@.len() > 0,
        decreases schemas@.len() - i,
    {
        let s = &schemas[i];
        let mut row: Vec<String> = Vec::new();
        row.push(s.name.clone());
        row.push(s.prefix.clone());
        row.push(s.directory.clone());
        row.push(crate::text::usize_text(s.fields.len()));
        assert(row_view(row) =~= type_row(*s));
        rows.push(row);
        i += 1;
    }
    rows
}

/// The row of a schema in the overview of `stats`: name, number of
/// artifacts, directory.
pub open spec fn overview_row(s: Schema, count: nat) -> Seq<Seq<char>> {
    seq![s.name@, nat_text(count), s.directory@]
}

/// The rows of the overview of `stats`, one per schema with the number of
/// its artifacts, in schema order (to be sorted by name with [`sort_rows`]).
pub fn overview_rows(schemas: &Vec<Schema>, counts: &Vec<usize>) -> (r: Vec<Vec<String>>)
    requires
        counts@.len() == schemas@.len(),
    ensures
        r@.len() == schemas@.len(),
        forall|i: int| 0 <= i < schemas@.len() ==> row_view(#[trigger] r@[i]) == overview_row(schemas@[i], counts@[i] as nat),
        forall|i: int| 0 <= i < r@.len() ==> (#[trigger] r@[i])@.len() > 0,
{
    let mut rows: Vec<Vec<String>> = Vec::new();
    let mut i: usize = 0;
    while i < schemas.len()
        invariant
            counts@.len() == schemas@.len(),
            i <= schemas@.len(),
            rows@.len() == i,
            forall|j: int| 0 <= j < i ==> row_view(#[trigger] rows@[j]) == overview_row(schemas@[j], counts@[j] as nat),
            forall|j: int| 0 <= j < i ==> (#[trigger] rows@[j])@.len() > 0,
        decreases schemas@.len() - i,
    {
        let s = &schemas[i];
        let mut row: Vec<String> = Vec::new();
        row.push(s.name.clone());
        row.push(crate::text::usize_text(counts[i]));
        row.push(s.directory.clone());
        assert(row_view(row) =~= overview_row(*s, counts@[i as int] as nat));
        rows.push(row);
        i += 1;
    }
    rows
}

/// The name of a field type, in lower case.
pub open spec fn type_name_text(t: FieldType) -> Seq<char> {
    match t {
        FieldType::String => "string"@,
        FieldType::Integer => "integer"@,
        FieldType::Date => "date"@,
        FieldType::Enum => "enum"@,
        FieldType::List => "list"@,
        FieldType::Boolean => "boolean"@,
    }
}

/// The name of a field type, in lower case.
pub fn type_name_of(t: FieldType) -> (r: String)
    ensures
        r@ == type_name_text(t),
{
    match t {
        FieldType::String => crate::text::owned("string"),
        FieldType::Integer => crate::text::owned("integer"),
        FieldType::Date => crate::text::owned("date"),
        FieldType::Enum => crate::text::owned("enum"),
        FieldType::List => crate::text::owned("list"),
        FieldType::Boolean => crate::text::owned("boolean"),
    }
}

/// `yes` when `b`, else empty.
pub open spec fn yes(b: bool) -> Seq<char> {
    if b {
        "yes"@
    } else {
        ""@
    }
}

/// The row of a field in `fields`: name, type, whether required, unique,
/// derived, and its values separated by `, `.
pub open spec fn field_row(f: FieldDef) -> Seq<Seq<char>> {
    seq![
        f.name@,
        type_name_text(f.field_type),
        yes(f.required),
        yes(f.unique),
        yes(f.derived),
        match f.values {
            Some(vs) => join_spec(views(vs@), ", "@),
            None => Seq::empty(),
        },
    ]
}

/// `yes` when `b`, else empty.
fn yes_cell(b: bool) -> (r: String)
    ensures
        r@ == yes(b),
{
    if b {
        crate::text::owned("yes")
    } else {
        crate::text::owned("")
    }
}

/// The rows of `fields`, one per field of the schema, in order.
pub fn field_rows(schema: &Schema) -> (r: Vec<Vec<String>>)
    ensures
        r@.len() == schema.fields@.len(),
        forall|i: int| 0 <= i < schema.fields@.len() ==> row_view(#[trigger] r@[i]) == field_row(schema.fields@[i]),
{
    let mut rows: Vec<Vec<String>> = Vec::new();
    let mut i: usize = 0;
    while i < schema.fields.len()
        invariant
            i <= schema.fields@.len(),
            rows@.len() == i,
            forall|j: int| 0 <= j < i ==> row_view(#[trigger] rows@[j]) == field_row(schema.fields@[j]),
        decreases schema.fields@.len() - i,
    {
        let f = &schema.fields[i];
        let mut row: Vec<String> = Vec::new();
        row.push(f.name.clone());
        row.push(type_name_of(f.field_type));
        row.push(yes_cell(f.required));
        row.push(yes_cell(f.unique));
        row.push(yes_cell(f.derived));
        row.push(match &f.values {
            Some(vs) => crate::text::join(vs, ", "),
            None => String::new(),
        });
        assert(row_view(row) =~= field_row(*f));
        rows.push(row);
        i += 1;
    }
    rows
}

/// What `fields <type> <field>` prints: the field's values, one per line, or
/// a line saying it has none.
pub enum FieldValues {
    Values(Vec<String>),
    NoValues(String),
}

/// The line for a field without enumerated values.
pub open spec fn no_values_text(field: Seq<char>, t: FieldType) -> Seq<char> {
    "Field '"@ + field + "' is type '"@ + type_name_text(t) + "' with no enumerated values."@
}

/// The values of field `field` of `schema`; an unknown field is an error
/// naming the type and the field.
pub fn field_values(schema: &Schema, artifact_type: &str, field: &str) -> (r: Result<FieldValues, ArkError>)
    ensures
        r is Err <==> field_named(schema@.fields, field@) is None,
        r matches Err(e) ==> e matches ArkError::UnknownField { artifact_type: t, field: f } && t@ == artifact_type@
            && f@ == field@,
        r matches Ok(FieldValues::Values(vs)) ==> field_named(schema@.fields, field@).unwrap().values == Some(
            crate::schema::strs_view(vs@),
        ),
        r matches Ok(FieldValues::NoValues(m)) ==> field_named(schema@.fields, field@).unwrap().values is None
            && m@ == no_values_text(field@, field_named(schema@.fields, field@).unwrap().field_type),
{
    match schema.get_field(field) {
        None => Err(ArkError::UnknownField {
            artifact_type: crate::text::owned(artifact_type),
            field: crate::text::owned(field),
        }),
        Some(f) => match &f.values {
            Some(vs) => Ok(FieldValues::Values(crate::schema::copy_strs(vs))),
            None => {
                let mut m = crate::text::owned("Field '");
                m.append(field);
                m.append("' is type '");
                m.append(type_name_of(f.field_type).as_str());
                m.append("' with no enumerated values.");
                Ok(FieldValues::NoValues(m))
            },
        },
    }
}

} // verus!
