//! `diff`: which changed files are artifacts, how each changed, and which
//! frontmatter fields changed.
use vstd::prelude::*;

use crate::artifact::{str_field, strings_in, Artifact};
use crate::json::{compact_json, to_json_text};
use crate::output::row_view;
use crate::schema::{Schema, SchemaModel};
use crate::sort::{key_model, order_by, sorted_by_keys, sort_distinct_strings, str_views, strictly_ascending, SortKey};
use crate::text::{has_prefix, has_suffix, join_spec, str_eq};
use crate::value::{has_key, key_index, Frontmatter, Val, Value};

verus! {

/// How a value is shown in a diff: a string as it is, a list as its strings
/// between `[` and `]` separated by `, `, anything else as compact JSON.
pub open spec fn format_text(v: Val) -> Seq<char> {
    match v {
        Val::Str(s) => s,
        Val::List(items) => seq!['['] + join_spec(strings_in(items), ", "@) + seq![']'],
        _ => compact_json(v),
    }
}

/// How `v` is shown in a diff (see [`format_text`]).
pub fn format_value(v: &Value) -> (r: String)
    ensures
        r@ == format_text(v.deep()),
{
    match v {
        Value::Str(s) => s.clone(),
        Value::List(items) => {
            let ghost im = Seq::new(items@.len(), |i: int| items@[i].deep());
            let mut strs: Vec<String> = Vec::new();
            let mut i: usize = 0;
            assert(im.take(0) =~= Seq::<Val>::empty());
            while i < items.len()
                invariant
                    im == Seq::new(items@.len(), |i: int| items@[i].deep()),
                    i <= items@.len(),
                    crate::text::views(strs@) == strings_in(im.take(i as int)),
                decreases items@.len() - i,
            {
                assert(im.take(i + 1).drop_last() =~= im.take(i as int));
                match &items[i] {
                    Value::Str(s) => {
                        let ghost before = crate::text::views(strs@);
                        strs.push(s.clone());
                        assert(crate::text::views(strs@) =~= before.push(s@));
                    },
                    _ => {},
                }
                i += 1;
            }
            assert(im.take(items@.len() as int) =~= im);
            assert(v.deep()->List_0 =~= im);
            let mut r = crate::text::owned("[");
            let j = crate::text::join(&strs, ", ");
            r.append(j.as_str());
            r.append("]");
            proof {
                reveal_strlit("[");
                reveal_strlit("]");
            }
            assert(r@ =~= format_text(v.deep()));
            r
        },
        _ => to_json_text(v),
    }
}

/// The change of field `k` between frontmatters `old` and `new`, as shown:
/// nothing for `updated` or an unchanged field; the old and new text of a
/// changed field; `(none)` as old text of a new field; `(removed)` as new
/// text of a removed one.
pub open spec fn change_of(old: Map<Seq<char>, Val>, new: Map<Seq<char>, Val>, k: Seq<char>) -> Option<
    (Seq<char>, Seq<char>),
> {
    if k == "updated"@ {
        None
    } else if new.contains_key(k) {
        if old.contains_key(k) {
            if old[k] != new[k] {
                Some((format_text(old[k]), format_text(new[k])))
            } else {
                None
            }
        } else {
            Some(("(none)"@, format_text(new[k])))
        }
    } else if old.contains_key(k) {
        Some((format_text(old[k]), "(removed)"@))
    } else {
        None
    }
}

/// A changed field, with its old and new text.
pub struct FieldChange {
    pub field: String,
    pub old_value: String,
    pub new_value: String,
}

/// The fields of changes.
pub open spec fn change_fields(v: Seq<FieldChange>) -> Seq<Seq<char>> {
    Seq::new(v.len(), |i: int| v[i].field@)
}

/// The change of field `k`, if any.
fn change_for(old: &Frontmatter, new: &Frontmatter, k: &str) -> (r: Option<(String, String)>)
    requires
        old.wf(),
        new.wf(),
    ensures
        match r {
            Some((a, b)) => change_of(old@, new@, k@) == Some((a@, b@)),
            None => change_of(old@, new@, k@) is None,
        },
{
    if str_eq(k, "updated") {
        return None;
    }
    match new.get(k) {
        Some(nv) => match old.get(k) {
            Some(ov) => {
                if crate::value::value_eq(ov, nv) {
                    None
                } else {
                    Some((format_value(ov), format_value(nv)))
                }
            },
            None => Some((crate::text::owned("(none)"), format_value(nv))),
        },
        None => match old.get(k) {
            Some(ov) => Some((format_value(ov), crate::text::owned("(removed)"))),
            None => None,
        },
    }
}

/// `r` lists the field changes between `old` and `new`: one per changed
/// field (see [`change_of`]), in ascending order of field name.
pub open spec fn frontmatter_diff(old: Map<Seq<char>, Val>, new: Map<Seq<char>, Val>, r: Seq<FieldChange>) -> bool {
    &&& strictly_ascending(change_fields(r))
    &&& forall|q: int| 0 <= q < r.len() ==> change_of(old, new, (#[trigger] r[q]).field@) == Some(
        (r[q].old_value@, r[q].new_value@),
    )
    &&& forall|k: Seq<char>| change_of(old, new, k) is Some ==> #[trigger] change_fields(r).contains(k)
}

/// The field changes between two frontmatters, as [`frontmatter_diff`]
/// states.
pub fn diff_frontmatter(old: &Frontmatter, new: &Frontmatter) -> (r: Vec<FieldChange>)
    requires
        old.wf(),
        new.wf(),
    ensures
        frontmatter_diff(old@, new@, r@),
{
    let mut names: Vec<String> = Vec::new();
    let mut i: usize = 0;
    while i < new.entries.len()
        invariant
            old.wf(),
            new.wf(),
            i <= new.entries@.len(),
            forall|a: int, b: int| 0 <= a < b < names@.len() ==> names@[a]@ != names@[b]@,
            forall|q: int| 0 <= q < names@.len() ==> exists|j: int| 0 <= j < i && (#[trigger] names@[q])@ == new.entries@[j].0@,
            forall|q: int| 0 <= q < names@.len() ==> change_of(old@, new@, (#[trigger] names@[q])@) is Some,
            forall|j: int| 0 <= j < i && change_of(old@, new@, new.entries@[j].0@) is Some ==> str_views(names@).contains(
                #[trigger] new.entries@[j].0@,
            ),
        decreases new.entries@.len() - i,
    {
        let k = new.entries[i].0.as_str();
        let ghost before = names@;
        if change_for(old, new, k).is_some() {
            names.push(new.entries[i].0.clone());
            assert forall|a: int| 0 <= a < before.len() implies names@[a]@ != k@ by {
                let j = choose|j: int| 0 <= j < i && before[a]@ == new.entries@[j].0@;
            }
            assert(str_views(names@)[before.len() as int] == k@);
        }
        assert forall|j: int| 0 <= j < i + 1 && change_of(old@, new@, new.entries@[j].0@) is Some implies str_views(
            names@,
        ).contains(#[trigger] new.entries@[j].0@) by {
            if j < i {
                let w = choose|w: int| 0 <= w < before.len() && str_views(before)[w] == new.entries@[j].0@;
                assert(str_views(names@)[w] == new.entries@[j].0@);
            } else {
                assert(str_views(names@)[before.len() as int] == k@);
            }
        }
        i += 1;
    }
    let mut i: usize = 0;
    while i < old.entries.len()
        invariant
            old.wf(),
            new.wf(),
            i <= old.entries@.len(),
            forall|a: int, b: int| 0 <= a < b < names@.len() ==> names@[a]@ != names@[b]@,
            forall|q: int| 0 <= q < names@.len() ==> new@.contains_key((#[trigger] names@[q])@) || exists|j: int|
                0 <= j < i && names@[q]@ == old.entries@[j].0@,
            forall|q: int| 0 <= q < names@.len() ==> change_of(old@, new@, (#[trigger] names@[q])@) is Some,
            forall|j: int| 0 <= j < new.entries@.len() && change_of(old@, new@, new.entries@[j].0@) is Some ==> str_views(
                names@,
            ).contains(#[trigger] new.entries@[j].0@),
            forall|j: int| 0 <= j < i && change_of(old@, new@, old.entries@[j].0@) is Some ==> str_views(names@).contains(
                #[trigger] old.entries@[j].0@,
            ),
        decreases old.entries@.len() - i,
    {
        let k = old.entries[i].0.as_str();
        let ghost before = names@;
        if !new.contains_key(k) && change_for(old, new, k).is_some() {
            names.push(old.entries[i].0.clone());
            assert forall|a: int| 0 <= a < before.len() implies names@[a]@ != k@ by {
                if !new@.contains_key(before[a]@) {
                    let j = choose|j: int| 0 <= j < i && before[a]@ == old.entries@[j].0@;
                }
            }
            assert(str_views(names@)[before.len() as int] == k@);
        }
        assert forall|j: int| 0 <= j < new.entries@.len() && change_of(old@, new@, new.entries@[j].0@) is Some implies str_views(
            names@,
        ).contains(#[trigger] new.entries@[j].0@) by {
            let w = choose|w: int| 0 <= w < before.len() && str_views(before)[w] == new.entries@[j].0@;
            assert(str_views(names@)[w] == new.entries@[j].0@);
        }
        assert forall|j: int| 0 <= j < i + 1 && change_of(old@, new@, old.entries@[j].0@) is Some implies str_views(
            names@,
        ).contains(#[trigger] old.entries@[j].0@) by {
            if j < i {
                let w = choose|w: int| 0 <= w < before.len() && str_views(before)[w] == old.entries@[j].0@;
                assert(str_views(names@)[w] == old.entries@[j].0@);
            } else if new@.contains_key(k@) {
                let w = key_index(new.entries@, k@);
                assert(new.entries@[w].0@ == k@);
                let w2 = choose|w2: int| 0 <= w2 < before.len() && str_views(before)[w2] == new.entries@[w].0@;
                assert(str_views(names@)[w2] == k@);
            } else {
                assert(str_views(names@)[before.len() as int] == k@);
            }
        }
        i += 1;
    }
    let sorted = sort_distinct_strings(&names);
    let mut out: Vec<FieldChange> = Vec::new();
    let mut q: usize = 0;
    while q < sorted.len()
        invariant
            old.wf(),
            new.wf(),
            q <= sorted@.len(),
            out@.len() == q,
            forall|p: int| 0 <= p < sorted@.len() ==> str_views(names@).contains(#[trigger] sorted@[p]@),
            forall|q: int| 0 <= q < names@.len() ==> change_of(old@, new@, (#[trigger] names@[q])@) is Some,
            forall|p: int| 0 <= p < q ==> (#[trigger] out@[p]).field@ == sorted@[p]@,
            forall|p: int| 0 <= p < q ==> change_of(old@, new@, (#[trigger] out@[p]).field@) == Some(
                (out@[p].old_value@, out@[p].new_value@),
            ),
        decreases sorted@.len() - q,
    {
        proof {
            assert(str_views(names@).contains(sorted@[q as int]@));
            let w = choose|w: int| 0 <= w < names@.len() && str_views(names@)[w] == sorted@[q as int]@;
            assert(change_of(old@, new@, names@[w]@) is Some);
        }
        match change_for(old, new, sorted[q].as_str()) {
            Some((a, b)) => {
                out.push(FieldChange { field: sorted[q].clone(), old_value: a, new_value: b });
            },
            None => {
                assert(false);
            },
        }
        q += 1;
    }
    proof {
        assert(change_fields(out@) =~= str_views(sorted@));
        assert forall|k: Seq<char>| change_of(old@, new@, k) is Some implies #[trigger] change_fields(out@).contains(k) by {
            if new@.contains_key(k) {
                let w = key_index(new.entries@, k);
                assert(new.entries@[w].0@ == k);
                assert(str_views(names@).contains(new.entries@[w].0@));
            } else {
                let w = key_index(old.entries@, k);
                assert(old.entries@[w].0@ == k);
                assert(str_views(names@).contains(old.entries@[w].0@));
            }
            let n = choose|n: int| 0 <= n < names@.len() && str_views(names@)[n] == k;
            assert(str_views(sorted@).contains(names@[n]@));
        }
    }
    out
}

/// How an artifact file changed.
#[derive(Clone, Copy, PartialEq, Eq, Structural)]
pub enum ChangeType {
    Added,
    Modified,
    Removed,
}

/// How a file changed, from whether it existed at the ref and exists now.
pub open spec fn change_kind(old_present: bool, new_present: bool) -> Option<ChangeType> {
    if old_present && new_present {
        Some(ChangeType::Modified)
    } else if old_present {
        Some(ChangeType::Removed)
    } else if new_present {
        Some(ChangeType::Added)
    } else {
        None
    }
}

/// A file ending in `.md` or `.feature` under the schema's directory or its
/// archive directory.
pub open spec fn tracked_file(s: SchemaModel, file: Seq<char>) -> bool {
    &&& (has_prefix(file, s.directory + seq!['/']) || (s.archive is Some && has_prefix(
        file,
        s.archive.unwrap().directory + seq!['/'],
    )))
    &&& (has_suffix(file, ".md"@) || has_suffix(file, ".feature"@))
}

/// Whether the changed file `file` holds an artifact of `schema`.
pub fn is_tracked_file(schema: &Schema, file: &str) -> (r: bool)
    ensures
        r == tracked_file(schema@, file@),
{
    let mut dir = schema.directory.clone();
    dir.append("/");
    proof {
        reveal_strlit("/");
    }
    assert(dir@ =~= schema@.directory + seq!['/']);
    let in_dir = crate::text::starts_with(file, dir.as_str());
    let in_archive = match schema.archive_directory() {
        Some(d) => {
            let mut a = crate::text::owned(d);
            a.append("/");
            assert(a@ =~= schema@.archive.unwrap().directory + seq!['/']);
            crate::text::starts_with(file, a.as_str())
        },
        None => false,
    };
    (in_dir || in_archive) && (crate::text::ends_with(file, ".md") || crate::text::ends_with(file, ".feature"))
}

/// A changed artifact.
pub struct DiffEntry {
    pub schema_name: String,
    pub id: String,
    pub title: String,
    pub change_type: ChangeType,
    pub field_changes: Vec<FieldChange>,
}

/// The artifact that names a change: the current one, else the old one.
pub open spec fn naming(old: Option<Artifact>, new: Option<Artifact>) -> Option<Artifact> {
    match new {
        Some(a) => Some(a),
        None => old,
    }
}

/// The entry of a changed file of type `schema_name`: none when the file
/// exists neither at the ref nor now; else how it changed, the ID of the
/// artifact (the current one, else the old one; the file's path when it has
/// none), its title (empty when none) and, for a modified artifact whose two
/// versions parse, the field changes.
pub fn diff_entry(
    schema_name: &str,
    file: &str,
    old_present: bool,
    new_present: bool,
    old: &Option<Artifact>,
    new: &Option<Artifact>,
) -> (r: Option<DiffEntry>)
    requires
        old matches Some(a) ==> a.wf(),
        new matches Some(a) ==> a.wf(),
    ensures
        r is None <==> change_kind(old_present, new_present) is None,
        r matches Some(e) ==> {
            &&& Some(e.change_type) == change_kind(old_present, new_present)
            &&& e.schema_name@ == schema_name@
            &&& e.id@ == match naming(*old, *new) {
                Some(a) => match str_field(a.frontmatter@, "id"@) {
                    Some(id) => id,
                    None => file@,
                },
                None => file@,
            }
            &&& e.title@ == match naming(*old, *new) {
                Some(a) => match str_field(a.frontmatter@, "title"@) {
                    Some(t) => t,
                    None => Seq::empty(),
                },
                None => Seq::empty(),
            }
            &&& if e.change_type == ChangeType::Modified && old is Some && new is Some {
                frontmatter_diff(old.unwrap().frontmatter@, new.unwrap().frontmatter@, e.field_changes@)
            } else {
                e.field_changes@.len() == 0
            }
        },
{
    let change_type = if old_present && new_present {
        ChangeType::Modified
    } else if old_present {
        ChangeType::Removed
    } else if new_present {
        ChangeType::Added
    } else {
        return None;
    };
    let named = match new {
        Some(a) => Some(a),
        None => match old {
            Some(a) => Some(a),
            None => None,
        },
    };
    let id = match named {
        Some(a) => match a.id() {
            Some(x) => crate::text::owned(x),
            None => crate::text::owned(file),
        },
        None => crate::text::owned(file),
    };
    let title = match named {
        Some(a) => match a.title() {
            Some(x) => crate::text::owned(x),
            None => String::new(),
        },
        None => String::new(),
    };
    let field_changes = match (old, new) {
        (Some(o), Some(n)) => {
            if change_type == ChangeType::Modified {
                diff_frontmatter(&o.frontmatter, &n.frontmatter)
            } else {
                Vec::new()
            }
        },
        _ => Vec::new(),
    };
    Some(DiffEntry { schema_name: crate::text::owned(schema_name), id, title, change_type, field_changes })
}

/// The symbol of a change: `+`, `~` or `-`.
pub open spec fn change_symbol(c: ChangeType) -> Seq<char> {
    match c {
        ChangeType::Added => "+"@,
        ChangeType::Modified => "~"@,
        ChangeType::Removed => "-"@,
    }
}

/// The rank of a change in the table: added, then modified, then removed.
pub open spec fn change_rank(c: ChangeType) -> int {
    match c {
        ChangeType::Added => 0,
        ChangeType::Modified => 1,
        ChangeType::Removed => 2,
    }
}

/// The text of a field change: `field: old -> new`.
pub open spec fn field_change_text(c: FieldChange) -> Seq<char> {
    c.field@ + ": "@ + c.old_value@ + " -> "@ + c.new_value@
}

/// The row of a changed artifact: symbol, type, ID, the field changes
/// separated by `; `, title.
pub open spec fn diff_row(e: DiffEntry) -> Seq<Seq<char>> {
    seq![
        change_symbol(e.change_type),
        e.schema_name@,
        e.id@,
        join_spec(Seq::new(e.field_changes@.len(), |i: int| field_change_text(e.field_changes@[i])), "; "@),
        e.title@,
    ]
}

/// The sort keys of entries: their ranks.
pub open spec fn rank_keys(es: Seq<DiffEntry>) -> Seq<(int, Seq<Seq<char>>)> {
    Seq::new(es.len(), |i: int| (change_rank(es[i].change_type), Seq::<Seq<char>>::empty()))
}

/// The fields cell of an entry.
fn fields_cell(e: &DiffEntry) -> (r: String)
    ensures
        r@ == join_spec(Seq::new(e.field_changes@.len(), |i: int| field_change_text(e.field_changes@[i])), "; "@),
{
    let mut parts: Vec<String> = Vec::new();
    let mut i: usize = 0;
    while i < e.field_changes.len()
        invariant
            i <= e.field_changes@.len(),
            parts@.len() == i,
            forall|j: int| 0 <= j < i ==> (#[trigger] parts@[j])@ == field_change_text(e.field_changes@[j]),
        decreases e.field_changes@.len() - i,
    {
        let c = &e.field_changes[i];
        let mut t = c.field.clone();
        t.append(": ");
        t.append(c.old_value.as_str());
        t.append(" -> ");
        t.append(c.new_value.as_str());
        parts.push(t);
        i += 1;
    }
    assert(crate::text::views(parts@) =~= Seq::new(e.field_changes@.len(), |i: int| field_change_text(e.field_changes@[i])));
    crate::text::join(&parts, "; ")
}

/// The table rows of `diff`: the entries ordered added, modified, removed
/// (stable), each as [`diff_row`] gives it.
pub fn diff_rows(entries: &Vec<DiffEntry>) -> (r: Vec<Vec<String>>)
    ensures
        exists|order: Seq<usize>|
            sorted_by_keys(rank_keys(entries@), crate::discover::all_positions(entries@.len() as int), order)
                && Seq::new(r@.len(), |i: int| row_view(r@[i])) == Seq::new(
                order.len(),
                |q: int| diff_row(entries@[order[q] as int]),
            ),
{
    let mut keys: Vec<SortKey> = Vec::new();
    let mut cand: Vec<usize> = Vec::new();
    let mut i: usize = 0;
    while i < entries.len()
        invariant
            i <= entries@.len(),
            keys@.len() == i,
            cand@ == crate::discover::all_positions(i as int),
            forall|j: int| 0 <= j < i ==> key_model(#[trigger] keys@[j]) == (
                change_rank(entries@[j].change_type),
                Seq::<Seq<char>>::empty(),
            ),
        decreases entries@.len() - i,
    {
        let num: i64 = match entries[i].change_type {
            ChangeType::Added => 0,
            ChangeType::Modified => 1,
            ChangeType::Removed => 2,
        };
        let k = SortKey { num, text: Vec::new() };
        assert(key_model(k).1 =~= Seq::<Seq<char>>::empty());
        keys.push(k);
        cand.push(i);
        assert(cand@ =~= crate::discover::all_positions(i + 1));
        i += 1;
    }
    assert(Seq::new(keys@.len(), |j: int| key_model(keys@[j])) =~= rank_keys(entries@));
    let order = order_by(&cand, &keys);
    proof {
        crate::sort::lemma_sorted_members(Seq::new(keys@.len(), |j: int| key_model(keys@[j])), cand@, order@);
    }
    let mut rows: Vec<Vec<String>> = Vec::new();
    let mut q: usize = 0;
    while q < order.len()
        invariant
            cand@ == crate::discover::all_positions(entries@.len() as int),
            forall|q: int| 0 <= q < order@.len() ==> #[trigger] cand@.contains(order@[q]),
            q <= order@.len(),
            rows@.len() == q,
            forall|p: int| 0 <= p < q ==> row_view(#[trigger] rows@[p]) == diff_row(entries@[order@[p] as int]),
        decreases order@.len() - q,
    {
        assert(cand@.contains(order@[q as int]));
        let e = &entries[order[q]];
        let sym = match e.change_type {
            ChangeType::Added => crate::text::owned("+"),
            ChangeType::Modified => crate::text::owned("~"),
            ChangeType::Removed => crate::text::owned("-"),
        };
        let mut row: Vec<String> = Vec::new();
        row.push(sym);
        row.push(e.schema_name.clone());
        row.push(e.id.clone());
        row.push(fields_cell(e));
        row.push(e.title.clone());
        assert(row_view(row) =~= diff_row(*e));
        rows.push(row);
        q += 1;
    }
    assert(Seq::new(rows@.len(), |i: int| row_view(rows@[i])) =~= Seq::new(
        order@.len(),
        |q: int| diff_row(entries@[order@[q] as int]),
    ));
    rows
}

} // verus!
