//! Rendering rows of text as a table, tab-separated values or JSON.
use vstd::prelude::*;

use crate::text::{join_spec, split_spec, to_uppercase, uppercase, views};

verus! {

/// The output format of listing commands.
#[derive(Debug, Clone, Copy, PartialEq, Eq, Structural)]
pub enum OutputFormat {
    Pretty,
    Tsv,
    Json,
}

impl Default for OutputFormat {
    fn default() -> (r: OutputFormat)
        ensures
            r == OutputFormat::Pretty,
    {
        OutputFormat::Pretty
    }
}

/// The models of the headers.
pub open spec fn header_views(h: Seq<&str>) -> Seq<Seq<char>> {
    Seq::new(h.len(), |i: int| h[i]@)
}

/// The models of a row.
pub open spec fn row_view(r: Vec<String>) -> Seq<Seq<char>> {
    Seq::new(r@.len(), |i: int| r@[i]@)
}

/// The rows after the header line: each on a line of its own, cells separated by tabs.
pub open spec fn tsv_rows(rows: Seq<Vec<String>>) -> Seq<char>
    decreases rows.len(),
{
    if rows.len() == 0 {
        Seq::empty()
    } else {
        tsv_rows(rows.drop_last()) + "\n"@ + join_spec(row_view(rows.last()), "\t"@)
    }
}

/// Tab-separated text: the header line, then one line per row.
pub open spec fn tsv_text(headers: Seq<&str>, rows: Seq<Vec<String>>) -> Seq<char> {
    join_spec(header_views(headers), "\t"@) + tsv_rows(rows)
}

/// The cells of `parts` joined by `sep`.
fn join_strs(parts: &[&str], sep: &str) -> (r: String)
    ensures
        r@ == join_spec(header_views(parts@), sep@),
{
    let mut out = String::new();
    let mut i: usize = 0;
    while i < parts.len()
        invariant
            i <= parts@.len(),
            out@ == join_spec(header_views(parts@.take(i as int)), sep@),
        decreases parts@.len() - i,
    {
        assert(header_views(parts@.take(i + 1)).drop_last() =~= header_views(parts@.take(i as int)));
        if i > 0 {
            out.append(sep);
        }
        out.append(parts[i]);
        i += 1;
    }
    assert(parts@.take(parts@.len() as int) =~= parts@);
    out
}

/// Tab-separated values: headers on the first line, then one line per row.
pub fn render_tsv(headers: &[&str], rows: &Vec<Vec<String>>) -> (r: String)
    ensures
        r@ == tsv_text(headers@, rows@),
{
    let mut out = join_strs(headers, "\t");
    let ghost head = out@;
    let mut i: usize = 0;
    assert(rows@.take(0) =~= Seq::<Vec<String>>::empty());
    while i < rows.len()
        invariant
            i <= rows@.len(),
            head == join_spec(header_views(headers@), "\t"@),
            out@ == head + tsv_rows(rows@.take(i as int)),
        decreases rows@.len() - i,
    {
        assert(rows@.take(i + 1).drop_last() =~= rows@.take(i as int));
        out.append("\n");
        let line = crate::text::join(&rows[i], "\t");
        assert(crate::text::views(rows@[i as int]@) =~= row_view(rows@[i as int]));
        out.append(line.as_str());
        assert(out@ =~= head + tsv_rows(rows@.take(i + 1)));
        i += 1;
    }
    assert(rows@.take(rows@.len() as int) =~= rows@);
    out
}

/// The records of JSON output: each row's cells paired with the headers, as
/// far as both go.
pub open spec fn records(headers: Seq<&str>, rows: Seq<Vec<String>>) -> Seq<Seq<(Seq<char>, Seq<char>)>> {
    Seq::new(
        rows.len(),
        |i: int| {
            let n = if headers.len() < rows[i]@.len() { headers.len() } else { rows[i]@.len() };
            Seq::new(n, |j: int| (headers[j]@, rows[i]@[j]@))
        },
    )
}

/// The models of records.
pub open spec fn records_view(rs: Seq<Vec<(String, String)>>) -> Seq<Seq<(Seq<char>, Seq<char>)>> {
    Seq::new(rs.len(), |i: int| Seq::new(rs[i]@.len(), |j: int| (rs[i]@[j].0@, rs[i]@[j].1@)))
}

/// Each row's cells paired with the headers.
pub fn pair_with_headers(headers: &[&str], rows: &Vec<Vec<String>>) -> (r: Vec<Vec<(String, String)>>)
    ensures
        records_view(r@) == records(headers@, rows@),
{
    let mut out: Vec<Vec<(String, String)>> = Vec::new();
    let mut i: usize = 0;
    while i < rows.len()
        invariant
            i <= rows@.len(),
            out@.len() == i,
            forall|k: int| 0 <= k < i ==> #[trigger] records_view(out@)[k] == records(headers@, rows@)[k],
        decreases rows@.len() - i,
    {
        let row = &rows[i];
        let mut rec: Vec<(String, String)> = Vec::new();
        let mut j: usize = 0;
        let n = if headers.len() < row.len() { headers.len() } else { row.len() };
        while j < n
            invariant
                j <= n,
                n <= headers@.len(),
                n <= row@.len(),
                rec@.len() == j,
                forall|q: int| 0 <= q < j ==> #[trigger] rec@[q].0@ == headers@[q]@ && rec@[q].1@ == row@[q]@,
            decreases n - j,
        {
            let ghost before = rec@;
            rec.push((crate::text::owned(headers[j]), row[j].clone()));
            assert forall|q: int| 0 <= q < j + 1 implies #[trigger] rec@[q].0@ == headers@[q]@ && rec@[q].1@ == row@[q]@ by {
                if q < j {
                    assert(rec@[q] == before[q]);
                }
            }
            j += 1;
        }
        let ghost rv = Seq::new(rec@.len(), |q: int| (rec@[q].0@, rec@[q].1@));
        assert(rv =~= records(headers@, rows@)[i as int]);
        let ghost before = out@;
        out.push(rec);
        assert forall|k: int| 0 <= k < i + 1 implies #[trigger] records_view(out@)[k] == records(headers@, rows@)[k] by {
            if k < i {
                assert(records_view(out@)[k] == records_view(before)[k]);
            }
        }
        i += 1;
    }
    assert(records_view(out@) =~= records(headers@, rows@));
    out
}

/// What serde_json's `to_string_pretty` writes for a list of objects, each
/// mapping keys to strings.
pub uninterp spec fn pretty_json_records(rs: Seq<Seq<(Seq<char>, Seq<char>)>>) -> Seq<char>;

/// `serde_json::to_string_pretty` of the records as a JSON array of objects
/// whose values are strings.
#[verifier::external_body]
fn json_records_text(rs: Vec<Vec<(String, String)>>) -> (r: String)
    ensures
        r@ == pretty_json_records(records_view(rs@)),
{
    let maps: Vec<serde_json::Map<String, serde_json::Value>> = rs
        .into_iter()
        .map(|rec| rec.into_iter().map(|(k, v)| (k, serde_json::Value::String(v))).collect())
        .collect();
    serde_json::to_string_pretty(&maps).unwrap_or_default()
}

/// A text framed as comfy-table draws a table with the UTF-8 condensed
/// style: its first line is the top border, which starts with `┌`, and its
/// last line the bottom border, which ends with `┘`.
pub open spec fn framed_table(t: Seq<char>) -> bool {
    &&& t.len() > 0
    &&& t[0] == '┌'
    &&& t[t.len() - 1] == '┘'
    &&& t.contains('\n')
}

/// How many times `c` occurs in `t`.
pub open spec fn char_count(t: Seq<char>, c: char) -> nat
    decreases t.len(),
{
    if t.len() == 0 {
        0
    } else {
        char_count(t.drop_last(), c) + if t.last() == c { 1nat } else { 0nat }
    }
}

/// The most cells that one of `rows` has.
pub open spec fn widest_row(rows: Seq<Vec<String>>) -> nat
    decreases rows.len(),
{
    if rows.len() == 0 {
        0
    } else {
        let w = widest_row(rows.drop_last());
        if rows.last()@.len() > w { rows.last()@.len() } else { w }
    }
}

/// The number of columns of a table with `header_cells` header cells and
/// the given rows: the most cells of any of them.
pub open spec fn column_count(header_cells: nat, rows: Seq<Vec<String>>) -> nat {
    if header_cells > widest_row(rows) { header_cells } else { widest_row(rows) }
}

/// The shape that every rendering of a table of `columns` columns and
/// `rows` rows has, whatever the terminal: framed (see [`framed_table`]);
/// when it has columns, the top border (its first line) has one `┬`
/// between each two columns, so does the bottom border (its last line) with
/// `┴`, and there are at least the top border, a line for the header, the
/// header separator, a line for each row and the bottom border.
pub open spec fn table_shape(t: Seq<char>, columns: nat, rows: nat) -> bool {
    let lines = split_spec(t, '\n');
    &&& framed_table(t)
    &&& columns >= 1 ==> {
        &&& char_count(lines[0], '┬') == columns - 1
        &&& char_count(lines.last(), '┴') == columns - 1
        &&& lines.len() >= rows + 4
    }
}

/// The text that comfy-table (`Table`'s `Display`) draws for a table with
/// the UTF-8 condensed style and dynamic arrangement, the given header cells
/// and rows, and, when `width` is given, that width set as the table's
/// width (none: no width, so no line is wrapped to fit), with no terminal
/// consulted.
pub uninterp spec fn comfy_table_text(
    headers: Seq<Seq<char>>,
    rows: Seq<Seq<Seq<char>>>,
    width: Option<u16>,
) -> Seq<char>;

/// The models of rows.
pub open spec fn table_rows(rows: Seq<Vec<String>>) -> Seq<Seq<Seq<char>>> {
    Seq::new(rows.len(), |i: int| row_view(rows[i]))
}

/// comfy-table's rendering (UTF-8 condensed borders, dynamic arrangement) of
/// a table with the given header and rows, `width` set as its width when
/// given, and the terminal left out (`force_no_tty`), so that the text
/// depends on these arguments alone. The style always draws the top and the
/// bottom border, each on a line of its own, with both corners and a
/// junction between each two columns; the table has as many columns as its
/// widest row (the header included), the header and each row take at least
/// a line, and the header separator one.
#[verifier::external_body]
fn table_text(headers: &Vec<String>, rows: &Vec<Vec<String>>, width: Option<u16>) -> (r: String)
    ensures
        r@ == comfy_table_text(views(headers@), table_rows(rows@), width),
        table_shape(r@, column_count(headers@.len(), rows@), rows@.len()),
{
    let mut table = comfy_table::Table::new();
    table.force_no_tty();
    table.load_style(comfy_table::presets::UTF8_FULL_CONDENSED);
    table.set_content_arrangement(comfy_table::ContentArrangement::Dynamic);
    if let Some(w) = width {
        table.set_width(w);
    }
    table.set_header(headers.iter().map(comfy_table::Cell::new));
    for row in rows {
        table.add_row(row.iter().map(comfy_table::Cell::new));
    }
    table.to_string()
}

/// The headers of a pretty table: each header in upper case.
pub fn upper_headers(headers: &[&str]) -> (r: Vec<String>)
    ensures
        views(r@) == Seq::new(headers@.len(), |i: int| uppercase(headers@[i]@)),
{
    let mut upper: Vec<String> = Vec::new();
    let mut i: usize = 0;
    while i < headers.len()
        invariant
            i <= headers@.len(),
            upper@.len() == i,
            forall|k: int| 0 <= k < i ==> #[trigger] upper@[k]@ == uppercase(headers@[k]@),
        decreases headers@.len() - i,
    {
        upper.push(to_uppercase(headers[i]));
        i += 1;
    }
    assert(views(upper@) =~= Seq::new(headers@.len(), |i: int| uppercase(headers@[i]@)));
    upper
}

/// JSON output: an array with one object per row, mapping headers to cells.
pub fn render_json(headers: &[&str], rows: &Vec<Vec<String>>) -> (r: String)
    ensures
        r@ == pretty_json_records(records(headers@, rows@)),
{
    json_records_text(pair_with_headers(headers, rows))
}

/// A bordered table: the headers in upper case (see [`upper_headers`]) and
/// the rows as given, drawn by comfy-table for a terminal `width` columns
/// wide (none: no terminal, no width limit); nothing when there are no rows.
pub fn render_pretty(headers: &[&str], rows: &Vec<Vec<String>>, width: Option<u16>) -> (r: String)
    ensures
        rows@.len() == 0 ==> r@.len() == 0,
        rows@.len() > 0 ==> r@ == comfy_table_text(
            Seq::new(headers@.len(), |i: int| uppercase(headers@[i]@)),
            table_rows(rows@),
            width,
        ),
        rows@.len() > 0 ==> table_shape(r@, column_count(headers@.len(), rows@), rows@.len()),
{
    if rows.len() == 0 {
        return String::new();
    }
    let upper = upper_headers(headers);
    assert(views(upper@).len() == upper@.len());
    table_text(&upper, rows, width)
}

/// Renders rows in the requested format (a pretty table for a terminal
/// `width` columns wide, see [`render_pretty`]).
pub fn render_table(headers: &[&str], rows: &Vec<Vec<String>>, format: OutputFormat, width: Option<u16>) -> (r: String)
    ensures
        format == OutputFormat::Tsv ==> r@ == tsv_text(headers@, rows@),
        format == OutputFormat::Json ==> r@ == pretty_json_records(records(headers@, rows@)),
        format == OutputFormat::Pretty && rows@.len() == 0 ==> r@.len() == 0,
        format == OutputFormat::Pretty && rows@.len() > 0 ==> r@ == comfy_table_text(
            Seq::new(headers@.len(), |i: int| uppercase(headers@[i]@)),
            table_rows(rows@),
            width,
        ),
        format == OutputFormat::Pretty && rows@.len() > 0 ==> table_shape(
            r@,
            column_count(headers@.len(), rows@),
            rows@.len(),
        ),
{
    match format {
        OutputFormat::Pretty => render_pretty(headers, rows, width),
        OutputFormat::Tsv => render_tsv(headers, rows),
        OutputFormat::Json => render_json(headers, rows),
    }
}

} // verus!
