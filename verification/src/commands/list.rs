//! `list`: filter, order and tabulate the artifacts of a type.
use vstd::prelude::*;

use crate::artifact::{
    int_field, is_archived, list_field, opt_str, or_dash, priority_cell, priority_or_last, str_field, text_cell, text_or_dash,
    Artifact,
};
use crate::output::row_view;
use crate::cli::ListArgs;
use crate::schema::{field_named, opt_view, FieldModel, FieldType, Schema, SchemaModel};
use crate::sort::{key_model, order_by, positions, sorted_by_keys, SortKey};
use crate::text::{int_text, str_eq};

verus! {

/// An artifact passes the filters of `list` (the archived ones never do).
pub open spec fn list_keeps(
    s: SchemaModel,
    a: Artifact,
    status: Option<Seq<char>>,
    project: Option<Seq<char>>,
    kind: Option<Seq<char>>,
    tag: Option<Seq<char>>,
) -> bool {
    let fm = a.frontmatter@;
    &&& !is_archived(s.archive, a)
    &&& (status is Some ==> str_field(fm, "status"@) == status)
    &&& (project is Some ==> str_field(fm, "project"@) == project)
    &&& (kind is Some ==> str_field(fm, "type"@) == kind || str_field(fm, "kind"@) == kind)
    &&& (tag is Some ==> list_field(fm, "tags"@).contains(tag.unwrap()))
}

/// The positions of the artifacts that pass the filters of `args`.
pub open spec fn list_candidates(s: SchemaModel, arts: Seq<Artifact>, args: ListArgs) -> Seq<usize> {
    positions(
        arts.len() as int,
        |i: int| list_keeps(s, arts[i], opt_view(args.status), opt_view(args.project), opt_view(args.kind), opt_view(args.tag)),
    )
}

/// The priority keys of the artifacts at positions `cand`.
pub open spec fn priority_keys(arts: Seq<Artifact>, cand: Seq<usize>) -> Seq<(int, Seq<Seq<char>>)> {
    Seq::new(cand.len(), |k: int| (priority_or_last(arts[cand[k] as int]), Seq::<Seq<char>>::empty()))
}

/// `full` cut to at most `limit` entries.
pub open spec fn limited(full: Seq<usize>, limit: Option<usize>) -> Seq<usize> {
    match limit {
        Some(n) => if n < full.len() { full.take(n as int) } else { full },
        None => full,
    }
}

/// The positions that `list` shows: the artifacts that are not archived and
/// pass the filters, ordered by priority (stable; those without one last),
/// at most `limit` of them.
pub fn list_selection(schema: &Schema, artifacts: &Vec<Artifact>, args: &ListArgs) -> (r: Vec<usize>)
    requires
        forall|i: int| 0 <= i < artifacts@.len() ==> (#[trigger] artifacts@[i]).wf(),
    ensures
        exists|full: Seq<usize>|
            sorted_by_keys(
                priority_keys(artifacts@, list_candidates(schema@, artifacts@, *args)),
                list_candidates(schema@, artifacts@, *args),
                full,
            ) && r@ == limited(full, args.limit),
        args.limit matches Some(n) ==> r@.len() <= n,
        forall|k: int| 0 <= k < r@.len() ==> #[trigger] r@[k] < artifacts@.len() && {
            let fm = artifacts@[r@[k] as int].frontmatter@;
            &&& (schema@.archive matches Some(ar) ==> str_field(fm, "status"@) != Some(ar.value))
            &&& (args.status matches Some(s) ==> str_field(fm, "status"@) == Some(s@))
            &&& (args.project matches Some(p) ==> str_field(fm, "project"@) == Some(p@))
            &&& (args.kind matches Some(t) ==> str_field(fm, "type"@) == Some(t@) || str_field(fm, "kind"@) == Some(
                t@,
            ))
            &&& (args.tag matches Some(t) ==> list_field(fm, "tags"@).contains(t@))
        },
{
    let ghost keep = |i: int|
        list_keeps(
            schema@,
            artifacts@[i],
            opt_view(args.status),
            opt_view(args.project),
            opt_view(args.kind),
            opt_view(args.tag),
        );
    let archive_value = schema.archive_value();
    let mut cand: Vec<usize> = Vec::new();
    let mut keys: Vec<SortKey> = Vec::new();
    let mut i: usize = 0;
    while i < artifacts.len()
        invariant
            forall|i: int| 0 <= i < artifacts@.len() ==> (#[trigger] artifacts@[i]).wf(),
            keep == (|i: int|
                list_keeps(
                    schema@,
                    artifacts@[i],
                    opt_view(args.status),
                    opt_view(args.project),
                    opt_view(args.kind),
                    opt_view(args.tag),
                )),
            opt_str(archive_value) == match schema@.archive {
                Some(a) => Some(a.value),
                None => None,
            },
            i <= artifacts@.len(),
            cand@ == positions(i as int, keep),
            Seq::new(keys@.len(), |k: int| key_model(keys@[k])) == priority_keys(artifacts@, cand@),
        decreases artifacts@.len() - i,
    {
        let a = &artifacts[i];
        let mut ok = !a.archived(archive_value);
        match &args.status {
            Some(st) => {
                ok = ok && match a.status() {
                    Some(x) => str_eq(x, st.as_str()),
                    None => false,
                };
            },
            None => {},
        }
        match &args.project {
            Some(p) => {
                ok = ok && match a.get_str("project") {
                    Some(x) => str_eq(x, p.as_str()),
                    None => false,
                };
            },
            None => {},
        }
        match &args.kind {
            Some(k) => {
                let by_type = match a.get_str("type") {
                    Some(x) => str_eq(x, k.as_str()),
                    None => false,
                };
                let by_kind = match a.get_str("kind") {
                    Some(x) => str_eq(x, k.as_str()),
                    None => false,
                };
                ok = ok && (by_type || by_kind);
            },
            None => {},
        }
        match &args.tag {
            Some(t) => {
                let tags = a.get_list("tags");
                ok = ok && crate::validate::contains_string(&tags, t.as_str());
                assert(crate::schema::strs_view(tags@) =~= Seq::new(tags@.len(), |k: int| tags@[k]@));
            },
            None => {},
        }
        assert(ok == keep(i as int));
        if ok {
            let ghost before = Seq::new(keys@.len(), |k: int| key_model(keys@[k]));
            let ghost cb = cand@;
            keys.push(a.priority_key());
            cand.push(i);
            assert(Seq::new(keys@.len(), |k: int| key_model(keys@[k])) =~= before.push(
                (priority_or_last(artifacts@[i as int]), Seq::<Seq<char>>::empty()),
            ));
            assert(priority_keys(artifacts@, cand@) =~= priority_keys(artifacts@, cb).push(
                (priority_or_last(artifacts@[i as int]), Seq::<Seq<char>>::empty()),
            ));
        }
        i += 1;
    }
    proof {
        let lk = |i: int|
            list_keeps(
                schema@,
                artifacts@[i],
                opt_view(args.status),
                opt_view(args.project),
                opt_view(args.kind),
                opt_view(args.tag),
            );
        assert(keep =~= lk);
        assert(cand@ == list_candidates(schema@, artifacts@, *args));
    }
    let full = order_by(&cand, &keys);
    let ghost fv = full@;
    let mut out = full;
    match args.limit {
        Some(n) => {
            if n < out.len() {
                out.truncate(n);
            }
        },
        None => {},
    }
    assert(out@ == limited(fv, args.limit));
    proof {
        crate::command_laws::law_list_filters(schema@, artifacts@, *args, out@);
    }
    out
}

/// A field that `list` shows in a column of its own: not derived, not a
/// list, and none of `id`, `title` and `priority` (which have their places).
pub open spec fn shown(f: FieldModel) -> bool {
    &&& !f.derived
    &&& f.name != "id"@
    &&& f.name != "title"@
    &&& f.name != "priority"@
    &&& f.field_type != FieldType::List
}

/// The names of the fields of `fs` that `list` shows, in order.
pub open spec fn shown_fields(fs: Seq<FieldModel>) -> Seq<Seq<char>>
    decreases fs.len(),
{
    if fs.len() == 0 {
        Seq::empty()
    } else if shown(fs.last()) {
        shown_fields(fs.drop_last()).push(fs.last().name)
    } else {
        shown_fields(fs.drop_last())
    }
}

/// The column `pri`, when the schema has a priority field.
pub open spec fn pri_column(s: SchemaModel, cell: Seq<char>) -> Seq<Seq<char>> {
    if field_named(s.fields, "priority"@) is Some {
        seq![cell]
    } else {
        Seq::empty()
    }
}

/// The header of `list`'s table: `id`, `pri` (when the schema has a
/// priority field), the shown fields, `title`.
pub open spec fn list_headers(s: SchemaModel) -> Seq<Seq<char>> {
    seq!["id"@] + pri_column(s, "pri"@) + shown_fields(s.fields) + seq!["title"@]
}

/// The row of artifact `a` in `list`'s table: each cell the field's text, or
/// `-`.
pub open spec fn list_row(s: SchemaModel, a: Artifact) -> Seq<Seq<char>> {
    seq![text_cell(a, "id"@)] + pri_column(s, priority_cell(a)) + shown_fields(s.fields).map_values(
        |n: Seq<char>| text_cell(a, n),
    ) + seq![text_cell(a, "title"@)]
}

/// The names of the shown fields.
fn shown_names(schema: &Schema) -> (r: Vec<String>)
    ensures
        row_view(r) == shown_fields(schema@.fields),
{
    let ghost fs = schema@.fields;
    let mut out: Vec<String> = Vec::new();
    let mut i: usize = 0;
    assert(fs.take(0) =~= Seq::<FieldModel>::empty());
    assert(row_view(out) =~= Seq::<Seq<char>>::empty());
    while i < schema.fields.len()
        invariant
            fs == schema@.fields,
            i <= fs.len(),
            row_view(out) == shown_fields(fs.take(i as int)),
        decreases fs.len() - i,
    {
        let f = &schema.fields[i];
        assert(fs[i as int] == f@);
        assert(fs.take(i + 1).drop_last() =~= fs.take(i as int));
        assert(fs.take(i + 1).last() == f@);
        let keep = !f.derived && !str_eq(f.name.as_str(), "id") && !str_eq(f.name.as_str(), "title")
            && !str_eq(f.name.as_str(), "priority") && f.field_type != FieldType::List;
        if keep {
            let ghost before = row_view(out);
            out.push(f.name.clone());
            assert(row_view(out) =~= before.push(f.name@));
        }
        i += 1;
    }
    assert(fs.take(fs.len() as int) =~= fs);
    out
}

/// The table of `list`: its header, and the row of each selected artifact.
pub fn list_table(schema: &Schema, artifacts: &Vec<Artifact>, sel: &Vec<usize>) -> (r: (Vec<String>, Vec<Vec<String>>))
    requires
        forall|i: int| 0 <= i < artifacts@.len() ==> (#[trigger] artifacts@[i]).wf(),
        forall|k: int| 0 <= k < sel@.len() ==> #[trigger] sel@[k] < artifacts@.len(),
    ensures
        row_view(r.0) == list_headers(schema@),
        r.1@.len() == sel@.len(),
        forall|k: int| 0 <= k < sel@.len() ==> row_view(#[trigger] r.1@[k]) == list_row(schema@, artifacts@[sel@[k] as int]),
{
    let names = shown_names(schema);
    let has_pri = schema.priority_field().is_some();
    let mut headers: Vec<String> = Vec::new();
    headers.push(crate::text::owned("id"));
    if has_pri {
        headers.push(crate::text::owned("pri"));
    }
    assert(row_view(headers) =~= seq!["id"@] + pri_column(schema@, "pri"@));
    assert(row_view(names).take(0) =~= Seq::<Seq<char>>::empty());
    let mut j: usize = 0;
    while j < names.len()
        invariant
            j <= names@.len(),
            row_view(headers) == seq!["id"@] + pri_column(schema@, "pri"@) + row_view(names).take(j as int),
        decreases names@.len() - j,
    {
        let ghost hb = row_view(headers);
        headers.push(names[j].clone());
        assert(row_view(headers) =~= hb.push(names@[j as int]@));
        assert(row_view(names).take(j + 1) =~= row_view(names).take(j as int).push(names@[j as int]@));
        assert(row_view(headers) =~= seq!["id"@] + pri_column(schema@, "pri"@) + row_view(names).take(j + 1));
        j += 1;
    }
    let ghost hb = row_view(headers);
    headers.push(crate::text::owned("title"));
    assert(row_view(headers) =~= hb.push("title"@));
    assert(row_view(names).take(names@.len() as int) =~= row_view(names));
    assert(row_view(headers) =~= list_headers(schema@));
    let mut rows: Vec<Vec<String>> = Vec::new();
    let mut k: usize = 0;
    while k < sel.len()
        invariant
            forall|i: int| 0 <= i < artifacts@.len() ==> (#[trigger] artifacts@[i]).wf(),
            forall|k: int| 0 <= k < sel@.len() ==> #[trigger] sel@[k] < artifacts@.len(),
            row_view(names) == shown_fields(schema@.fields),
            has_pri == (field_named(schema@.fields, "priority"@) is Some),
            k <= sel@.len(),
            rows@.len() == k,
            forall|q: int| 0 <= q < k ==> row_view(#[trigger] rows@[q]) == list_row(schema@, artifacts@[sel@[q] as int]),
        decreases sel@.len() - k,
    {
        let a = &artifacts[sel[k]];
        let mut row: Vec<String> = Vec::new();
        row.push(a.field_cell("id"));
        if has_pri {
            row.push(a.priority_text());
        }
        let ghost head = row_view(row);
        assert(head =~= seq![text_cell(*a, "id"@)] + pri_column(schema@, priority_cell(*a)));
        let mut j: usize = 0;
        while j < names.len()
            invariant
                a.wf(),
                j <= names@.len(),
                row_view(row) == head + row_view(names).take(j as int).map_values(|n: Seq<char>| text_cell(*a, n)),
            decreases names@.len() - j,
        {
            let ghost rb = row_view(row);
            row.push(a.field_cell(names[j].as_str()));
            assert(row_view(row) =~= rb.push(text_cell(*a, names@[j as int]@)));
            assert(row_view(names).take(j + 1).map_values(|n: Seq<char>| text_cell(*a, n)) =~= row_view(names).take(
                j as int,
            ).map_values(|n: Seq<char>| text_cell(*a, n)).push(text_cell(*a, names@[j as int]@)));
            assert(row_view(row) =~= head + row_view(names).take(j + 1).map_values(|n: Seq<char>| text_cell(*a, n)));
            j += 1;
        }
        let ghost rb = row_view(row);
        row.push(a.field_cell("title"));
        assert(row_view(row) =~= rb.push(text_cell(*a, "title"@)));
        assert(row_view(names).take(names@.len() as int) =~= row_view(names));
        assert(row_view(row) =~= list_row(schema@, *a));
        rows.push(row);
        k += 1;
    }
    (headers, rows)
}

} // verus!
