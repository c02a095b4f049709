//! Properties of what the commands select, create and change, stated over
//! their inputs and results.
use vstd::prelude::*;

use crate::artifact::{list_field, str_field, Artifact};
use crate::cli::{EditArgs, ListArgs, NewArgs};
use crate::commands::edit::{edit_map, with_pairs};
use crate::commands::new::{new_map, pairs_view, with_extras, with_status, with_text};
use crate::schema::opt_view;
use crate::commands::list::{limited, list_candidates, priority_keys};
use crate::commands::next::{active_positions, finished_status, queued_positions};
use crate::schema::{
    field_json, field_named, lemma_entry_insert, properties_json, required_json, schema_json, FieldModel, FieldType,
    SchemaModel,
};
use crate::sort::{lemma_positions, lemma_positions_keep, lemma_sorted_members, positions, sorted_by_keys};
use crate::validate::coerced;
use crate::value::Val;

verus! {

// ---------------------------------------------------------------------------
// Selections
// ---------------------------------------------------------------------------

/// A selection cut from a sorted set of kept positions holds only kept
/// positions below `n`, and no more than the limit.
proof fn lemma_selected_keep(
    n: int,
    keep: spec_fn(int) -> bool,
    km: Seq<(int, Seq<Seq<char>>)>,
    full: Seq<usize>,
    lim: Option<usize>,
)
    requires
        0 <= n <= usize::MAX,
        km.len() == positions(n, keep).len(),
        sorted_by_keys(km, positions(n, keep), full),
    ensures
        forall|k: int| 0 <= k < limited(full, lim).len() ==> #[trigger] limited(full, lim)[k] < n && keep(
            limited(full, lim)[k] as int,
        ),
        lim matches Some(c) ==> limited(full, lim).len() <= c,
{
    let cand = positions(n, keep);
    lemma_positions(n, keep);
    lemma_positions_keep(n, keep);
    lemma_sorted_members(km, cand, full);
    assert forall|k: int| 0 <= k < limited(full, lim).len() implies #[trigger] limited(full, lim)[k] < n && keep(
        limited(full, lim)[k] as int,
    ) by {
        assert(limited(full, lim)[k] == full[k]);
        assert(cand.contains(full[k]));
        let w = choose|w: int| 0 <= w < cand.len() && cand[w] == full[k];
        assert(keep(cand[w] as int));
    }
}

/// What `next` shows: every active position holds an artifact whose status
/// is `active`; the queue has at most `count` positions, and none of them
/// holds an artifact whose status is `active`, `blocked` or the finished
/// status (the schema's archive value, else `done`).
pub proof fn law_next_shows_active_and_waiting(
    schema: SchemaModel,
    arts: Seq<Artifact>,
    count: usize,
    active: Seq<usize>,
    queued: Seq<usize>,
)
    requires
        arts.len() <= usize::MAX,
        active == active_positions(arts),
        exists|full: Seq<usize>|
            sorted_by_keys(
                priority_keys(arts, queued_positions(arts, finished_status(schema))),
                queued_positions(arts, finished_status(schema)),
                full,
            ) && queued == limited(full, Some(count)),
    ensures
        forall|k: int| 0 <= k < active.len() ==> #[trigger] active[k] < arts.len() && str_field(
            arts[active[k] as int].frontmatter@,
            "status"@,
        ) == Some("active"@),
        queued.len() <= count,
        forall|k: int| 0 <= k < queued.len() ==> #[trigger] queued[k] < arts.len() && {
            let st = str_field(arts[queued[k] as int].frontmatter@, "status"@);
            &&& st != Some("active"@)
            &&& st != Some("blocked"@)
            &&& st != Some(
                match schema.archive {
                    Some(a) => a.value,
                    None => "done"@,
                },
            )
        },
{
    let n = arts.len() as int;
    let act = |i: int| crate::commands::next::is_active(arts[i]);
    assert(active_positions(arts) == positions(n, act)) by {
        assert(act =~= (|i: int| crate::commands::next::is_active(arts[i])));
    }
    lemma_positions(n, act);
    lemma_positions_keep(n, act);
    let fin = finished_status(schema);
    let que = |i: int| crate::commands::next::is_queued(arts[i], fin);
    assert(queued_positions(arts, fin) == positions(n, que)) by {
        assert(que =~= (|i: int| crate::commands::next::is_queued(arts[i], fin)));
    }
    let full = choose|full: Seq<usize>|
        sorted_by_keys(priority_keys(arts, queued_positions(arts, fin)), queued_positions(arts, fin), full)
            && queued == limited(full, Some(count));
    lemma_selected_keep(n, que, priority_keys(arts, positions(n, que)), full, Some(count));
    assert forall|k: int| 0 <= k < queued.len() implies #[trigger] queued[k] < arts.len() && {
        let st = str_field(arts[queued[k] as int].frontmatter@, "status"@);
        &&& st != Some("active"@)
        &&& st != Some("blocked"@)
        &&& st != Some(
            match schema.archive {
                Some(a) => a.value,
                None => "done"@,
            },
        )
    } by {
        assert(que(queued[k] as int));
    }
}

/// What `list` shows: at most `limit` positions, each holding an artifact
/// that is not archived (its status is not the schema's archive value) and
/// has the status, project and kind (field `type` or `kind`) asked for and
/// the tag asked for among its tags.
pub proof fn law_list_filters(schema: SchemaModel, arts: Seq<Artifact>, args: ListArgs, shown: Seq<usize>)
    requires
        arts.len() <= usize::MAX,
        exists|full: Seq<usize>|
            sorted_by_keys(
                priority_keys(arts, list_candidates(schema, arts, args)),
                list_candidates(schema, arts, args),
                full,
            ) && shown == limited(full, args.limit),
    ensures
        args.limit matches Some(n) ==> shown.len() <= n,
        forall|k: int| 0 <= k < shown.len() ==> #[trigger] shown[k] < arts.len() && {
            let fm = arts[shown[k] as int].frontmatter@;
            &&& (schema.archive matches Some(ar) ==> str_field(fm, "status"@) != Some(ar.value))
            &&& (args.status matches Some(s) ==> str_field(fm, "status"@) == Some(s@))
            &&& (args.project matches Some(p) ==> str_field(fm, "project"@) == Some(p@))
            &&& (args.kind matches Some(t) ==> str_field(fm, "type"@) == Some(t@) || str_field(fm, "kind"@) == Some(
                t@,
            ))
            &&& (args.tag matches Some(t) ==> list_field(fm, "tags"@).contains(t@))
        },
{
    let n = arts.len() as int;
    let keep = |i: int|
        crate::commands::list::list_keeps(
            schema,
            arts[i],
            crate::schema::opt_view(args.status),
            crate::schema::opt_view(args.project),
            crate::schema::opt_view(args.kind),
            crate::schema::opt_view(args.tag),
        );
    assert(list_candidates(schema, arts, args) == positions(n, keep));
    let full = choose|full: Seq<usize>|
        sorted_by_keys(priority_keys(arts, list_candidates(schema, arts, args)), list_candidates(schema, arts, args), full)
            && shown == limited(full, args.limit);
    lemma_selected_keep(n, keep, priority_keys(arts, positions(n, keep)), full, args.limit);
    assert forall|k: int| 0 <= k < shown.len() implies #[trigger] shown[k] < arts.len() && {
        let fm = arts[shown[k] as int].frontmatter@;
        &&& (schema.archive matches Some(ar) ==> str_field(fm, "status"@) != Some(ar.value))
        &&& (args.status matches Some(s) ==> str_field(fm, "status"@) == Some(s@))
        &&& (args.project matches Some(p) ==> str_field(fm, "project"@) == Some(p@))
        &&& (args.kind matches Some(t) ==> str_field(fm, "type"@) == Some(t@) || str_field(fm, "kind"@) == Some(t@))
        &&& (args.tag matches Some(t) ==> list_field(fm, "tags"@).contains(t@))
    } by {
        assert(keep(shown[k] as int));
    }
}


// ---------------------------------------------------------------------------
// Edits
// ---------------------------------------------------------------------------

/// Some pair of `es` has key `k`.
pub open spec fn names_key(es: Seq<(String, String)>, k: Seq<char>) -> bool {
    exists|q: int| 0 <= q < es.len() && #[trigger] es[q].0@ == k
}

/// `after` maps `k` to the text `v`.
pub open spec fn holds_text(after: Map<Seq<char>, Val>, k: Seq<char>, v: Seq<char>) -> bool {
    after.contains_key(k) && after[k] == Val::Str(v)
}

/// Read-after-write for an edit of the frontmatter `before` into `after`:
/// `updated` holds `today`; each flag given (status, title, project, kind as
/// field `type`, priority) holds its value unless a `--set` pair names the
/// same field; each `--set` pair that no later pair overrides holds its text
/// (but `updated`); every other field is as it was.
pub open spec fn edit_reads_back(
    before: Map<Seq<char>, Val>,
    args: EditArgs,
    today: Seq<char>,
    after: Map<Seq<char>, Val>,
) -> bool {
    let es = args.fields@;
    &&& holds_text(after, "updated"@, today)
    &&& (args.status matches Some(v) ==> (!names_key(es, "status"@) ==> holds_text(after, "status"@, v@)))
    &&& (args.title matches Some(v) ==> (!names_key(es, "title"@) ==> holds_text(after, "title"@, v@)))
    &&& (args.project matches Some(v) ==> (!names_key(es, "project"@) ==> holds_text(after, "project"@, v@)))
    &&& (args.kind matches Some(v) ==> (!names_key(es, "type"@) ==> holds_text(after, "type"@, v@)))
    &&& (args.priority matches Some(p) ==> (!names_key(es, "priority"@) ==> after.contains_key("priority"@)
        && after["priority"@] == Val::Int(p as int)))
    &&& forall|q: int|
        0 <= q < es.len() && es[q].0@ != "updated"@ && (forall|q2: int| q < q2 < es.len() ==> es[q2].0@ != es[q].0@)
            ==> holds_text(after, #[trigger] es[q].0@, es[q].1@)
    &&& forall|k: Seq<char>|
        k != "updated"@ && !names_key(es, k) && !(k == "status"@ && args.status is Some) && !(k == "title"@
            && args.title is Some) && !(k == "project"@ && args.project is Some) && !(k == "type"@ && args.kind is Some)
            && !(k == "priority"@ && args.priority is Some) ==> (#[trigger] after.contains_key(k) == before.contains_key(k))
            && (before.contains_key(k) ==> after[k] == before[k])
}

proof fn lemma_pairs_untouched(m: Map<Seq<char>, Val>, es: Seq<(Seq<char>, Seq<char>)>, k: Seq<char>)
    requires
        forall|q: int| 0 <= q < es.len() ==> (#[trigger] es[q]).0 != k,
    ensures
        with_pairs(m, es).contains_key(k) == m.contains_key(k),
        m.contains_key(k) ==> with_pairs(m, es)[k] == m[k],
    decreases es.len(),
{
    if es.len() > 0 {
        let rest = es.drop_first();
        assert forall|q: int| 0 <= q < rest.len() implies (#[trigger] rest[q]).0 != k by {
            assert(rest[q] == es[q + 1]);
        }
        assert(es[0].0 != k);
        lemma_pairs_untouched(m.insert(es[0].0, Val::Str(es[0].1)), rest, k);
    }
}

proof fn lemma_pairs_last(m: Map<Seq<char>, Val>, es: Seq<(Seq<char>, Seq<char>)>, q: int)
    requires
        0 <= q < es.len(),
        forall|q2: int| q < q2 < es.len() ==> (#[trigger] es[q2]).0 != es[q].0,
    ensures
        with_pairs(m, es).contains_key(es[q].0),
        with_pairs(m, es)[es[q].0] == Val::Str(es[q].1),
    decreases es.len(),
{
    let rest = es.drop_first();
    let m1 = m.insert(es[0].0, Val::Str(es[0].1));
    if q == 0 {
        assert forall|j: int| 0 <= j < rest.len() implies (#[trigger] rest[j]).0 != es[0].0 by {
            assert(rest[j] == es[j + 1]);
        }
        lemma_pairs_untouched(m1, rest, es[0].0);
    } else {
        assert forall|q2: int| q - 1 < q2 < rest.len() implies (#[trigger] rest[q2]).0 != rest[q - 1].0 by {
            assert(rest[q2] == es[q2 + 1]);
            assert(rest[q - 1] == es[q]);
        }
        lemma_pairs_last(m1, rest, q - 1);
        assert(rest[q - 1] == es[q]);
    }
}

/// An edit reads back what it wrote: its frontmatter after the edit holds
/// each value given (see [`edit_reads_back`]) and leaves the rest alone.
pub proof fn law_edit_reads_back(m: Map<Seq<char>, Val>, args: EditArgs, today: Seq<char>)
    ensures
        edit_reads_back(m, args, today, edit_map(m, args, today)),
{
    reveal_strlit("status");
    reveal_strlit("priority");
    reveal_strlit("title");
    reveal_strlit("project");
    reveal_strlit("type");
    reveal_strlit("updated");
    let es = args.fields@;
    let ps = pairs_view(es);
    let m1 = with_text(m, "status"@, opt_view(args.status));
    let m2 = match args.priority {
        Some(p) => m1.insert("priority"@, Val::Int(p as int)),
        None => m1,
    };
    let m3 = with_text(m2, "title"@, opt_view(args.title));
    let m4 = with_text(m3, "project"@, opt_view(args.project));
    let m5 = with_text(m4, "type"@, opt_view(args.kind));
    let w = with_pairs(m5, ps);
    let after = edit_map(m, args, today);
    assert(after == w.insert("updated"@, Val::Str(today)));
    let keys = seq!["status"@, "priority"@, "title"@, "project"@, "type"@, "updated"@];
    assert(keys[0][0] == 's' && keys[1][0] == 'p' && keys[2][0] == 't' && keys[3][0] == 'p' && keys[4][0] == 't'
        && keys[5][0] == 'u');
    assert(keys[1][2] == 'i' && keys[3][2] == 'o' && keys[2][1] == 'i' && keys[4][1] == 'y');
    assert(keys[0] != keys[1] && keys[0] != keys[2] && keys[0] != keys[3] && keys[0] != keys[4] && keys[0] != keys[5]);
    assert(keys[1] != keys[2] && keys[1] != keys[3] && keys[1] != keys[4] && keys[1] != keys[5]);
    assert(keys[2] != keys[3] && keys[2] != keys[4] && keys[2] != keys[5]);
    assert(keys[3] != keys[4] && keys[3] != keys[5] && keys[4] != keys[5]);
    assert forall|k: Seq<char>| !names_key(es, k) implies (forall|q: int| 0 <= q < ps.len() ==> (#[trigger] ps[q]).0 != k) by {
        assert forall|q: int| 0 <= q < ps.len() implies (#[trigger] ps[q]).0 != k by {
            assert(ps[q].0 == es[q].0@);
        }
    }
    assert forall|k: Seq<char>| !names_key(es, k) implies w.contains_key(k) == m5.contains_key(k) && (m5.contains_key(k)
        ==> w[k] == m5[k]) by {
        lemma_pairs_untouched(m5, ps, k);
    }
    assert forall|q: int|
        0 <= q < es.len() && es[q].0@ != "updated"@ && (forall|q2: int| q < q2 < es.len() ==> es[q2].0@ != es[q].0@)
        implies holds_text(after, #[trigger] es[q].0@, es[q].1@) by {
        assert forall|q2: int| q < q2 < ps.len() implies (#[trigger] ps[q2]).0 != ps[q].0 by {
            assert(ps[q2].0 == es[q2].0@);
        }
        lemma_pairs_last(m5, ps, q);
    }
}


// ---------------------------------------------------------------------------
// New artifacts
// ---------------------------------------------------------------------------

/// The `--set` pairs of `new`, none when none are given.
pub open spec fn extra_pairs(args: NewArgs) -> Seq<(String, String)> {
    match args.extra_fields {
        Some(e) => e@,
        None => Seq::empty(),
    }
}

/// Read-after-write for the frontmatter `after` that `new` makes with ID
/// `id` on `today`: `created` and `updated` hold `today`; the ID, the title,
/// and each flag given (status, priority, project, kind as field `type`,
/// tags as the list of their texts in order) hold their values unless a
/// `--set` pair names the same field; without a status the schema's default
/// status is used; each `--set` pair that no later pair overrides holds its
/// value typed by the schema (but `created` and `updated`).
pub open spec fn new_reads_back(
    s: SchemaModel,
    args: NewArgs,
    id: Seq<char>,
    today: Seq<char>,
    after: Map<Seq<char>, Val>,
) -> bool {
    let es = extra_pairs(args);
    &&& holds_text(after, "created"@, today)
    &&& holds_text(after, "updated"@, today)
    &&& (!names_key(es, "id"@) ==> holds_text(after, "id"@, id))
    &&& (!names_key(es, "title"@) ==> holds_text(after, "title"@, args.title@))
    &&& (args.status matches Some(v) ==> (!names_key(es, "status"@) ==> holds_text(after, "status"@, v@)))
    &&& (args.status is None && !names_key(es, "status"@) ==> (field_named(s.fields, "status"@) matches Some(f) ==> (
    f.default matches Some(d) ==> after.contains_key("status"@) && after["status"@] == d)))
    &&& (args.priority matches Some(p) ==> (!names_key(es, "priority"@) ==> after.contains_key("priority"@)
        && after["priority"@] == Val::Int(p as int)))
    &&& (args.project matches Some(v) ==> (!names_key(es, "project"@) ==> holds_text(after, "project"@, v@)))
    &&& (args.kind matches Some(v) ==> (!names_key(es, "type"@) ==> holds_text(after, "type"@, v@)))
    &&& (args.tags matches Some(ts) ==> (!names_key(es, "tags"@) ==> after.contains_key("tags"@) && (
    after["tags"@] matches Val::List(items) && items.len() == ts@.len() && forall|i: int|
        0 <= i < ts@.len() ==> #[trigger] items[i] == Val::Str(ts@[i]@))))
    &&& forall|q: int|
        0 <= q < es.len() && es[q].0@ != "created"@ && es[q].0@ != "updated"@ && (forall|q2: int|
            q < q2 < es.len() ==> es[q2].0@ != es[q].0@) ==> after.contains_key(#[trigger] es[q].0@)
            && after[es[q].0@] == coerced(s.fields, es[q].0@, es[q].1@)
}

proof fn lemma_extras_untouched(
    m: Map<Seq<char>, Val>,
    fs: Seq<FieldModel>,
    es: Seq<(Seq<char>, Seq<char>)>,
    k: Seq<char>,
)
    requires
        forall|q: int| 0 <= q < es.len() ==> (#[trigger] es[q]).0 != k,
    ensures
        with_extras(m, fs, es).contains_key(k) == m.contains_key(k),
        m.contains_key(k) ==> with_extras(m, fs, es)[k] == m[k],
    decreases es.len(),
{
    if es.len() > 0 {
        let rest = es.drop_first();
        assert forall|q: int| 0 <= q < rest.len() implies (#[trigger] rest[q]).0 != k by {
            assert(rest[q] == es[q + 1]);
        }
        assert(es[0].0 != k);
        lemma_extras_untouched(m.insert(es[0].0, coerced(fs, es[0].0, es[0].1)), fs, rest, k);
    }
}

proof fn lemma_extras_last(m: Map<Seq<char>, Val>, fs: Seq<FieldModel>, es: Seq<(Seq<char>, Seq<char>)>, q: int)
    requires
        0 <= q < es.len(),
        forall|q2: int| q < q2 < es.len() ==> (#[trigger] es[q2]).0 != es[q].0,
    ensures
        with_extras(m, fs, es).contains_key(es[q].0),
        with_extras(m, fs, es)[es[q].0] == coerced(fs, es[q].0, es[q].1),
    decreases es.len(),
{
    let rest = es.drop_first();
    let m1 = m.insert(es[0].0, coerced(fs, es[0].0, es[0].1));
    if q == 0 {
        assert forall|j: int| 0 <= j < rest.len() implies (#[trigger] rest[j]).0 != es[0].0 by {
            assert(rest[j] == es[j + 1]);
        }
        lemma_extras_untouched(m1, fs, rest, es[0].0);
    } else {
        assert forall|q2: int| q - 1 < q2 < rest.len() implies (#[trigger] rest[q2]).0 != rest[q - 1].0 by {
            assert(rest[q2] == es[q2 + 1]);
            assert(rest[q - 1] == es[q]);
        }
        lemma_extras_last(m1, fs, rest, q - 1);
        assert(rest[q - 1] == es[q]);
    }
}

/// `new` reads back what it was given: the frontmatter it makes holds each
/// value given (see [`new_reads_back`]).
pub proof fn law_new_reads_back(s: SchemaModel, args: NewArgs, id: Seq<char>, today: Seq<char>)
    ensures
        new_reads_back(s, args, id, today, new_map(s, args, id, today)),
{
    reveal_strlit("id");
    reveal_strlit("title");
    reveal_strlit("status");
    reveal_strlit("priority");
    reveal_strlit("project");
    reveal_strlit("type");
    reveal_strlit("tags");
    reveal_strlit("created");
    reveal_strlit("updated");
    let keys = seq!["id"@, "title"@, "status"@, "priority"@, "project"@, "type"@, "tags"@, "created"@, "updated"@];
    assert(keys[0][0] == 'i' && keys[1][0] == 't' && keys[2][0] == 's' && keys[3][0] == 'p' && keys[4][0] == 'p');
    assert(keys[5][0] == 't' && keys[6][0] == 't' && keys[7][0] == 'c' && keys[8][0] == 'u');
    assert(keys[3][2] == 'i' && keys[4][2] == 'o' && keys[1][1] == 'i' && keys[5][1] == 'y' && keys[6][1] == 'a');
    assert forall|a: int, b: int| 0 <= a < b < 9 implies keys[a] != keys[b] by {
        if keys[a].len() == keys[b].len() {
            assert(keys[a][0] != keys[b][0] || keys[a][1] != keys[b][1] || keys[a][2] != keys[b][2]);
        }
    }
    let es = extra_pairs(args);
    let ps = pairs_view(es);
    let m0 = Map::<Seq<char>, Val>::empty().insert("id"@, Val::Str(id)).insert("title"@, Val::Str(args.title@));
    let m1 = with_status(m0, s, args);
    let m2 = match args.priority {
        Some(p) => m1.insert("priority"@, Val::Int(p as int)),
        None => m1,
    };
    let m3 = with_text(m2, "project"@, opt_view(args.project));
    let m4 = with_text(m3, "type"@, opt_view(args.kind));
    let m5 = match args.tags {
        Some(t) => m4.insert("tags"@, Val::List(Seq::new(t@.len(), |i: int| Val::Str(t@[i]@)))),
        None => m4,
    };
    let m6 = with_extras(m5, s.fields, ps);
    assert(new_map(s, args, id, today) == m6.insert("created"@, Val::Str(today)).insert("updated"@, Val::Str(today))) by {
        match args.extra_fields {
            Some(e) => {},
            None => {
                assert(ps =~= Seq::<(Seq<char>, Seq<char>)>::empty());
            },
        }
    }
    assert forall|k: Seq<char>| !names_key(es, k) implies m6.contains_key(k) == m5.contains_key(k) && (m5.contains_key(k)
        ==> m6[k] == m5[k]) by {
        assert forall|q: int| 0 <= q < ps.len() implies (#[trigger] ps[q]).0 != k by {
            assert(ps[q].0 == es[q].0@);
        }
        lemma_extras_untouched(m5, s.fields, ps, k);
    }
    assert forall|q: int|
        0 <= q < es.len() && es[q].0@ != "created"@ && es[q].0@ != "updated"@ && (forall|q2: int|
            q < q2 < es.len() ==> es[q2].0@ != es[q].0@) implies m6.contains_key(#[trigger] es[q].0@)
            && m6[es[q].0@] == coerced(s.fields, es[q].0@, es[q].1@) by {
        assert forall|q2: int| q < q2 < ps.len() implies (#[trigger] ps[q2]).0 != ps[q].0 by {
            assert(ps[q2].0 == es[q2].0@);
        }
        lemma_extras_last(m5, s.fields, ps, q);
    }
}


// ---------------------------------------------------------------------------
// JSON Schema of a schema
// ---------------------------------------------------------------------------

/// The JSON Schema `v` checks what a field `f` of its type must hold: an
/// object whose `type` is `string` (strings, dates, enums), `integer`,
/// `array` (lists) or `boolean`; a string field's pattern, a date's form
/// `YYYY-MM-DD` and an enum's values among its entries.
pub open spec fn field_checks(f: FieldModel, v: Val) -> bool {
    match v {
        Val::Object(es) => match f.field_type {
            FieldType::String => es.contains(("type"@, Val::Str("string"@))) && match f.pattern {
                Some(p) => es.contains(("pattern"@, Val::Str(p))),
                None => true,
            },
            FieldType::Integer => es.contains(("type"@, Val::Str("integer"@))),
            FieldType::Date => es.contains(("type"@, Val::Str("string"@))) && es.contains(
                ("pattern"@, Val::Str("^\\d{4}-\\d{2}-\\d{2}$"@)),
            ),
            FieldType::Enum => es.contains(("type"@, Val::Str("string"@))) && match f.values {
                Some(vs) => exists|i: int|
                    0 <= i < es.len() && #[trigger] es[i].0 == "enum"@ && (es[i].1 matches Val::List(items)
                        && items.len() == vs.len() && forall|j: int| 0 <= j < vs.len() ==> items[j] == Val::Str(vs[j])),
                None => true,
            },
            FieldType::List => es.contains(("type"@, Val::Str("array"@))),
            FieldType::Boolean => es.contains(("type"@, Val::Str("boolean"@))),
        },
        _ => false,
    }
}

/// The JSON Schema of each field checks what the field's type asks: a date
/// field only takes text of the form `YYYY-MM-DD`, an enum field only its
/// values, a string field with a pattern only text the pattern matches.
pub proof fn law_field_json_checks(f: FieldModel)
    ensures
        field_checks(f, field_json(f)),
{
    reveal_strlit("type");
    reveal_strlit("pattern");
    reveal_strlit("enum");
    match field_json(f) {
        Val::Object(es) => {
            match f.field_type {
                FieldType::String => {
                    assert(es[0] == ("type"@, Val::Str("string"@)));
                    if f.pattern is Some {
                        assert(es[1] == ("pattern"@, Val::Str(f.pattern.unwrap())));
                    }
                },
                FieldType::Integer => {
                    assert(es[0] == ("type"@, Val::Str("integer"@)));
                },
                FieldType::Date => {
                    assert(es[0] == ("type"@, Val::Str("string"@)));
                    assert(es[1] == ("pattern"@, Val::Str("^\\d{4}-\\d{2}-\\d{2}$"@)));
                },
                FieldType::Enum => {
                    assert(es[0] == ("type"@, Val::Str("string"@)));
                    if f.values is Some {
                        assert(es[1].0 == "enum"@);
                    }
                },
                FieldType::List => {
                    assert(es[0] == ("type"@, Val::Str("array"@)));
                },
                FieldType::Boolean => {
                    assert(es[0] == ("type"@, Val::Str("boolean"@)));
                },
            }
        },
        _ => {},
    }
}

proof fn lemma_properties_hold(fs: Seq<FieldModel>, i: int)
    requires
        0 <= i < fs.len(),
        forall|j: int| i < j < fs.len() ==> (#[trigger] fs[j]).name != fs[i].name,
    ensures
        properties_json(fs).contains((fs[i].name, field_json(fs[i]))),
    decreases fs.len(),
{
    let init = fs.drop_last();
    lemma_entry_insert(properties_json(init), fs.last().name, field_json(fs.last()));
    if i < fs.len() - 1 {
        assert forall|j: int| i < j < init.len() implies (#[trigger] init[j]).name != init[i].name by {
            assert(init[j] == fs[j]);
        }
        lemma_properties_hold(init, i);
        assert(init[i] == fs[i]);
        assert(fs[fs.len() - 1].name != fs[i].name);
    }
}

proof fn lemma_required_hold(fs: Seq<FieldModel>, i: int)
    requires
        0 <= i < fs.len(),
        fs[i].required && !fs[i].derived,
    ensures
        required_json(fs).contains(Val::Str(fs[i].name)),
    decreases fs.len(),
{
    let init = fs.drop_last();
    if i < fs.len() - 1 {
        lemma_required_hold(init, i);
        assert(init[i] == fs[i]);
        let w = choose|w: int| 0 <= w < required_json(init).len() && required_json(init)[w] == Val::Str(fs[i].name);
        if fs.last().required && !fs.last().derived {
            assert(required_json(fs)[w] == Val::Str(fs[i].name));
        }
    } else {
        assert(required_json(fs)[required_json(init).len() as int] == Val::Str(fs[i].name));
    }
}

/// The JSON Schema of a schema checks each field: it is an object of type
/// `object` whose `properties` hold, for the last definition of each field
/// name, a constraint that checks what the field's type asks (see
/// [`field_checks`]).
pub proof fn law_json_schema_checks_fields(s: SchemaModel, i: int)
    requires
        0 <= i < s.fields.len(),
        forall|j: int| i < j < s.fields.len() ==> (#[trigger] s.fields[j]).name != s.fields[i].name,
    ensures
        exists|top: Seq<(Seq<char>, Val)>, ps: Seq<(Seq<char>, Val)>, v: Val|
            #![trigger top.contains(("properties"@, Val::Object(ps))), ps.contains((s.fields[i].name, v))]
            schema_json(s) == Val::Object(top) && top.contains(("type"@, Val::Str("object"@))) && top.contains(
                ("properties"@, Val::Object(ps)),
            ) && ps.contains((s.fields[i].name, v)) && field_checks(s.fields[i], v),
{
    let fs = s.fields;
    let top = seq![
        ("type"@, Val::Str("object"@)),
        ("properties"@, Val::Object(properties_json(fs))),
        ("required"@, Val::List(required_json(fs))),
    ];
    assert(schema_json(s) == Val::Object(top));
    assert(top[0] == ("type"@, Val::Str("object"@)));
    assert(top[1] == ("properties"@, Val::Object(properties_json(fs))));
    lemma_properties_hold(fs, i);
    law_field_json_checks(fs[i]);
    assert(top.contains(("properties"@, Val::Object(properties_json(fs)))));
    assert(properties_json(fs).contains((fs[i].name, field_json(fs[i]))));
    assert(field_checks(fs[i], field_json(fs[i])));
    assert(top.contains(("type"@, Val::Str("object"@))));
}

/// The JSON Schema of a schema asks for each required field that is not
/// derived: its `required` list names the field.
pub proof fn law_json_schema_requires_fields(s: SchemaModel, i: int)
    requires
        0 <= i < s.fields.len(),
        s.fields[i].required && !s.fields[i].derived,
    ensures
        exists|top: Seq<(Seq<char>, Val)>, rs: Seq<Val>|
            #![trigger top.contains(("required"@, Val::List(rs)))]
            schema_json(s) == Val::Object(top) && top.contains(("required"@, Val::List(rs))) && rs.contains(
                Val::Str(s.fields[i].name),
            ),
{
    let fs = s.fields;
    let top = seq![
        ("type"@, Val::Str("object"@)),
        ("properties"@, Val::Object(properties_json(fs))),
        ("required"@, Val::List(required_json(fs))),
    ];
    assert(schema_json(s) == Val::Object(top));
    assert(top[2] == ("required"@, Val::List(required_json(fs))));
    lemma_required_hold(fs, i);
    assert(top.contains(("required"@, Val::List(required_json(fs)))));
}

} // verus!
