//! `next`: the active artifacts, and the queue by priority.
use vstd::prelude::*;

use crate::artifact::{priority_cell, str_field, text_cell, Artifact};
use crate::commands::list::{limited, priority_keys};
use crate::commands::table::{artifact_rows, cells, field, rows_view, Column};
use crate::schema::{Schema, SchemaModel};
use crate::sort::{key_model, order_by, positions, sorted_by_keys, SortKey};
use crate::text::str_eq;

verus! {

/// The status that `next` leaves out of the queue as finished: the schema's
/// archive value, else `done`.
pub open spec fn finished_status(s: SchemaModel) -> Seq<char> {
    match s.archive {
        Some(a) => a.value,
        None => "done"@,
    }
}

/// `a` is active.
pub open spec fn is_active(a: Artifact) -> bool {
    str_field(a.frontmatter@, "status"@) == Some("active"@)
}

/// `a` waits in the queue: its status is none of the finished status,
/// `active` and `blocked`.
pub open spec fn is_queued(a: Artifact, finished: Seq<char>) -> bool {
    let st = str_field(a.frontmatter@, "status"@);
    st != Some(finished) && st != Some("active"@) && st != Some("blocked"@)
}

/// The positions of the active artifacts.
pub open spec fn active_positions(arts: Seq<Artifact>) -> Seq<usize> {
    positions(arts.len() as int, |i: int| is_active(arts[i]))
}

/// The positions of the queued artifacts, in order.
pub open spec fn queued_positions(arts: Seq<Artifact>, finished: Seq<char>) -> Seq<usize> {
    positions(arts.len() as int, |i: int| is_queued(arts[i], finished))
}

/// What `next` shows: the active artifacts in order, and the first `count`
/// of the queue ordered by priority (stable; those without one last).
pub fn next_selection(schema: &Schema, artifacts: &Vec<Artifact>, count: usize) -> (r: (Vec<usize>, Vec<usize>))
    requires
        forall|i: int| 0 <= i < artifacts@.len() ==> (#[trigger] artifacts@[i]).wf(),
    ensures
        r.0@ == active_positions(artifacts@),
        exists|full: Seq<usize>|
            sorted_by_keys(
                priority_keys(artifacts@, queued_positions(artifacts@, finished_status(schema@))),
                queued_positions(artifacts@, finished_status(schema@)),
                full,
            ) && r.1@ == limited(full, Some(count)),
        forall|k: int| 0 <= k < r.0@.len() ==> #[trigger] r.0@[k] < artifacts@.len() && str_field(
            artifacts@[r.0@[k] as int].frontmatter@,
            "status"@,
        ) == Some("active"@),
        r.1@.len() <= count,
        forall|k: int| 0 <= k < r.1@.len() ==> #[trigger] r.1@[k] < artifacts@.len() && {
            let st = str_field(artifacts@[r.1@[k] as int].frontmatter@, "status"@);
            &&& st != Some("active"@)
            &&& st != Some("blocked"@)
            &&& st != Some(
                match schema@.archive {
                    Some(a) => a.value,
                    None => "done"@,
                },
            )
        },
{
    let finished = match schema.archive_value() {
        Some(v) => v,
        None => "done",
    };
    let ghost fin = finished_status(schema@);
    assert(finished@ == fin);
    let ghost act = |i: int| is_active(artifacts@[i]);
    let ghost que = |i: int| is_queued(artifacts@[i], fin);
    let mut active: Vec<usize> = Vec::new();
    let mut cand: Vec<usize> = Vec::new();
    let mut keys: Vec<SortKey> = Vec::new();
    let mut i: usize = 0;
    while i < artifacts.len()
        invariant
            forall|i: int| 0 <= i < artifacts@.len() ==> (#[trigger] artifacts@[i]).wf(),
            finished@ == fin,
            act == (|i: int| is_active(artifacts@[i])),
            que == (|i: int| is_queued(artifacts@[i], fin)),
            i <= artifacts@.len(),
            active@ == positions(i as int, act),
            cand@ == positions(i as int, que),
            Seq::new(keys@.len(), |k: int| key_model(keys@[k])) == priority_keys(artifacts@, cand@),
        decreases artifacts@.len() - i,
    {
        let a = &artifacts[i];
        let st = a.status();
        let is_act = match st {
            Some(x) => str_eq(x, "active"),
            None => false,
        };
        let is_que = match st {
            Some(x) => !str_eq(x, finished) && !str_eq(x, "active") && !str_eq(x, "blocked"),
            None => true,
        };
        assert(is_act == act(i as int));
        assert(is_que == que(i as int));
        if is_act {
            active.push(i);
        }
        if is_que {
            let ghost before = Seq::new(keys@.len(), |k: int| key_model(keys@[k]));
            let ghost cb = cand@;
            keys.push(a.priority_key());
            cand.push(i);
            assert(Seq::new(keys@.len(), |k: int| key_model(keys@[k])) =~= before.push(
                (crate::artifact::priority_or_last(artifacts@[i as int]), Seq::<Seq<char>>::empty()),
            ));
            assert(priority_keys(artifacts@, cand@) =~= priority_keys(artifacts@, cb).push(
                (crate::artifact::priority_or_last(artifacts@[i as int]), Seq::<Seq<char>>::empty()),
            ));
        }
        i += 1;
    }
    proof {
        assert(act =~= (|i: int| is_active(artifacts@[i])));
        assert(que =~= (|i: int| is_queued(artifacts@[i], fin)));
    }
    let full = order_by(&cand, &keys);
    let ghost fv = full@;
    let mut out = full;
    if count < out.len() {
        out.truncate(count);
    }
    assert(out@ == limited(fv, Some(count)));
    proof {
        crate::command_laws::law_next_shows_active_and_waiting(schema@, artifacts@, count, active@, out@);
    }
    (active, out)
}

/// A row of the active table: ID, priority, title.
pub open spec fn active_row(a: Artifact) -> Seq<Seq<char>> {
    seq![text_cell(a, "id"@), priority_cell(a), text_cell(a, "title"@)]
}

/// A row of the queue: ID, priority, status, title.
pub open spec fn queued_row(a: Artifact) -> Seq<Seq<char>> {
    seq![text_cell(a, "id"@), priority_cell(a), text_cell(a, "status"@), text_cell(a, "title"@)]
}

/// The columns ID, priority, title.
pub fn active_columns() -> (r: Vec<Column>)
    ensures
        forall|a: Artifact| #[trigger] cells(r@, a) == active_row(a),
{
    let mut r: Vec<Column> = Vec::new();
    r.push(field("id"));
    r.push(Column::Priority);
    r.push(field("title"));
    assert forall|a: Artifact| #[trigger] cells(r@, a) == active_row(a) by {
        assert(cells(r@, a) =~= active_row(a));
    }
    r
}

/// The columns ID, priority, status, title.
pub fn queued_columns() -> (r: Vec<Column>)
    ensures
        forall|a: Artifact| #[trigger] cells(r@, a) == queued_row(a),
{
    let mut r: Vec<Column> = Vec::new();
    r.push(field("id"));
    r.push(Column::Priority);
    r.push(field("status"));
    r.push(field("title"));
    assert forall|a: Artifact| #[trigger] cells(r@, a) == queued_row(a) by {
        assert(cells(r@, a) =~= queued_row(a));
    }
    r
}

/// The two tables of `next`: the active artifacts at `active` (headers
/// `id`, `pri`, `title`) and the queued ones at `queued` (headers `id`,
/// `pri`, `status`, `title`).
pub fn next_tables(artifacts: &Vec<Artifact>, active: &Vec<usize>, queued: &Vec<usize>) -> (r: (
    Vec<Vec<String>>,
    Vec<Vec<String>>,
))
    requires
        forall|i: int| 0 <= i < artifacts@.len() ==> (#[trigger] artifacts@[i]).wf(),
        forall|k: int| 0 <= k < active@.len() ==> #[trigger] active@[k] < artifacts@.len(),
        forall|k: int| 0 <= k < queued@.len() ==> #[trigger] queued@[k] < artifacts@.len(),
    ensures
        rows_view(r.0@) == Seq::new(active@.len(), |k: int| active_row(artifacts@[active@[k] as int])),
        rows_view(r.1@) == Seq::new(queued@.len(), |k: int| queued_row(artifacts@[queued@[k] as int])),
{
    let ac = active_columns();
    let qc = queued_columns();
    let a = artifact_rows(artifacts, active, &ac);
    let q = artifact_rows(artifacts, queued, &qc);
    assert(Seq::new(active@.len(), |k: int| cells(ac@, artifacts@[active@[k] as int])) =~= Seq::new(
        active@.len(),
        |k: int| active_row(artifacts@[active@[k] as int]),
    ));
    assert(Seq::new(queued@.len(), |k: int| cells(qc@, artifacts@[queued@[k] as int])) =~= Seq::new(
        queued@.len(),
        |k: int| queued_row(artifacts@[queued@[k] as int]),
    ));
    (a, q)
}

} // verus!
