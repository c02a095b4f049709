//! `scan`: listing, queueing and counting artifacts across the projects
//! found below a directory.
use vstd::prelude::*;

use crate::artifact::{int_field, priority_cell, priority_or_last, str_field, text_cell, Artifact};
use crate::commands::list::limited;
use crate::discover::ProjectArtifact;
use crate::output::row_view;
use crate::sort::{key_model, order_by, positions, sorted_by_keys, SortKey};
use crate::text::{nat_text, str_eq};

verus! {

/// The ID of an artifact as a sort key: after those without one.
pub open spec fn id_key(a: Artifact) -> Seq<Seq<char>> {
    match str_field(a.frontmatter@, "id"@) {
        Some(id) => seq![id],
        None => Seq::empty(),
    }
}

/// The order of `scan list`: priority (none last), then project, then ID.
pub open spec fn scan_key(pa: ProjectArtifact) -> (int, Seq<Seq<char>>) {
    (priority_or_last(pa.artifact), seq![pa.project@] + id_key(pa.artifact))
}

/// The filters of `scan list`.
pub open spec fn scan_keeps(pa: ProjectArtifact, status: Option<Seq<char>>, project: Option<Seq<char>>) -> bool {
    &&& (status is Some ==> str_field(pa.artifact.frontmatter@, "status"@) == status)
    &&& (project is Some ==> pa.project@ == project.unwrap())
}

/// The positions that pass the filters of `scan list`.
pub open spec fn scan_candidates(pas: Seq<ProjectArtifact>, status: Option<Seq<char>>, project: Option<Seq<char>>) -> Seq<usize> {
    positions(pas.len() as int, |i: int| scan_keeps(pas[i], status, project))
}

/// The keys of the positions `cand`.
pub open spec fn scan_keys(pas: Seq<ProjectArtifact>, cand: Seq<usize>) -> Seq<(int, Seq<Seq<char>>)> {
    Seq::new(cand.len(), |k: int| scan_key(pas[cand[k] as int]))
}

/// The model of an optional string slice.
pub open spec fn opt_text(o: Option<&str>) -> Option<Seq<char>> {
    match o {
        Some(s) => Some(s@),
        None => None,
    }
}

/// The key that orders `pa` in `scan list`.
fn scan_sort_key(pa: &ProjectArtifact) -> (r: SortKey)
    requires
        pa.artifact.wf(),
    ensures
        key_model(r) == scan_key(*pa),
{
    let num = match pa.artifact.priority() {
        Some(p) => p,
        None => i64::MAX,
    };
    let mut text: Vec<String> = Vec::new();
    text.push(pa.project.clone());
    match pa.artifact.id() {
        Some(id) => {
            text.push(crate::text::owned(id));
        },
        None => {},
    }
    let r = SortKey { num, text };
    assert(key_model(r).1 =~= seq![pa.project@] + id_key(pa.artifact));
    r
}

/// What `scan list` shows: the artifacts that pass the filters (status,
/// project), ordered by priority (none last), then project, then ID
/// (stable), at most `limit` of them.
pub fn scan_list_selection(pas: &Vec<ProjectArtifact>, status: Option<&str>, project: Option<&str>, limit: Option<usize>) -> (r: Vec<usize>)
    requires
        forall|i: int| 0 <= i < pas@.len() ==> (#[trigger] pas@[i]).artifact.wf(),
    ensures
        exists|full: Seq<usize>|
            sorted_by_keys(
                scan_keys(pas@, scan_candidates(pas@, opt_text(status), opt_text(project))),
                scan_candidates(pas@, opt_text(status), opt_text(project)),
                full,
            ) && r@ == limited(full, limit),
{
    let ghost keep = |i: int| scan_keeps(pas@[i], opt_text(status), opt_text(project));
    let mut cand: Vec<usize> = Vec::new();
    let mut keys: Vec<SortKey> = Vec::new();
    let mut i: usize = 0;
    while i < pas.len()
        invariant
            forall|i: int| 0 <= i < pas@.len() ==> (#[trigger] pas@[i]).artifact.wf(),
            keep == (|i: int| scan_keeps(pas@[i], opt_text(status), opt_text(project))),
            i <= pas@.len(),
            cand@ == positions(i as int, keep),
            Seq::new(keys@.len(), |k: int| key_model(keys@[k])) == scan_keys(pas@, cand@),
        decreases pas@.len() - i,
    {
        let pa = &pas[i];
        let ok_status = match status {
            Some(s) => match pa.artifact.status() {
                Some(x) => str_eq(x, s),
                None => false,
            },
            None => true,
        };
        let ok_project = match project {
            Some(p) => str_eq(pa.project.as_str(), p),
            None => true,
        };
        assert((ok_status && ok_project) == keep(i as int));
        if ok_status && ok_project {
            let ghost before = Seq::new(keys@.len(), |k: int| key_model(keys@[k]));
            let ghost cb = cand@;
            keys.push(scan_sort_key(pa));
            cand.push(i);
            assert(Seq::new(keys@.len(), |k: int| key_model(keys@[k])) =~= before.push(scan_key(pas@[i as int])));
            assert(scan_keys(pas@, cand@) =~= scan_keys(pas@, cb).push(scan_key(pas@[i as int])));
        }
        i += 1;
    }
    assert(keep =~= (|i: int| scan_keeps(pas@[i], opt_text(status), opt_text(project))));
    let full = order_by(&cand, &keys);
    let ghost fv = full@;
    let mut out = full;
    match limit {
        Some(n) => {
            if n < out.len() {
                out.truncate(n);
            }
        },
        None => {},
    }
    assert(out@ == limited(fv, limit));
    out
}

/// The header of `scan list`: `project`, `id`, `pri` and `status` when
/// some shown artifact has them, `title`.
pub open spec fn scan_list_headers(has_pri: bool, has_status: bool) -> Seq<Seq<char>> {
    seq!["project"@, "id"@] + (if has_pri { seq!["pri"@] } else { Seq::empty() }) + (if has_status {
        seq!["status"@]
    } else {
        Seq::empty()
    }) + seq!["title"@]
}

/// A row of `scan list`.
pub open spec fn scan_list_row(pa: ProjectArtifact, has_pri: bool, has_status: bool) -> Seq<Seq<char>> {
    let a = pa.artifact;
    seq![pa.project@, text_cell(a, "id"@)] + (if has_pri { seq![priority_cell(a)] } else { Seq::empty() }) + (
    if has_status {
        seq![text_cell(a, "status"@)]
    } else {
        Seq::empty()
    }) + seq![text_cell(a, "title"@)]
}

/// Some artifact at `sel` has a priority.
pub open spec fn any_priority(pas: Seq<ProjectArtifact>, sel: Seq<usize>) -> bool {
    exists|k: int| 0 <= k < sel.len() && #[trigger] int_field(pas[sel[k] as int].artifact.frontmatter@, "priority"@) is Some
}

/// Some artifact at `sel` has a status.
pub open spec fn any_status(pas: Seq<ProjectArtifact>, sel: Seq<usize>) -> bool {
    exists|k: int| 0 <= k < sel.len() && #[trigger] str_field(pas[sel[k] as int].artifact.frontmatter@, "status"@) is Some
}

/// The table of `scan list` for the artifacts at `sel`.
pub fn scan_list_table(pas: &Vec<ProjectArtifact>, sel: &Vec<usize>) -> (r: (Vec<String>, Vec<Vec<String>>))
    requires
        forall|i: int| 0 <= i < pas@.len() ==> (#[trigger] pas@[i]).artifact.wf(),
        forall|k: int| 0 <= k < sel@.len() ==> #[trigger] sel@[k] < pas@.len(),
    ensures
        row_view(r.0) == scan_list_headers(any_priority(pas@, sel@), any_status(pas@, sel@)),
        r.1@.len() == sel@.len(),
        forall|k: int| 0 <= k < sel@.len() ==> row_view(#[trigger] r.1@[k]) == scan_list_row(
            pas@[sel@[k] as int],
            any_priority(pas@, sel@),
            any_status(pas@, sel@),
        ),
{
    let mut has_pri = false;
    let mut has_status = false;
    let mut k: usize = 0;
    while k < sel.len()
        invariant
            forall|i: int| 0 <= i < pas@.len() ==> (#[trigger] pas@[i]).artifact.wf(),
            forall|k: int| 0 <= k < sel@.len() ==> #[trigger] sel@[k] < pas@.len(),
            k <= sel@.len(),
            has_pri == any_priority(pas@, sel@.take(k as int)),
            has_status == any_status(pas@, sel@.take(k as int)),
        decreases sel@.len() - k,
    {
        let a = &pas[sel[k]].artifact;
        let hp = a.priority().is_some();
        let hs = a.status().is_some();
        if hp {
            has_pri = true;
        }
        if hs {
            has_status = true;
        }
        proof {
            let t1 = sel@.take(k + 1);
            let t0 = sel@.take(k as int);
            assert(t1[k as int] == sel@[k as int]);
            assert forall|q: int| 0 <= q < k implies t1[q] == t0[q] by {}
            if any_priority(pas@, t1) && !any_priority(pas@, t0) {
                let q = choose|q: int| 0 <= q < t1.len() && #[trigger] int_field(pas@[t1[q] as int].artifact.frontmatter@, "priority"@) is Some;
                assert(q == k);
            }
            if any_status(pas@, t1) && !any_status(pas@, t0) {
                let q = choose|q: int| 0 <= q < t1.len() && #[trigger] str_field(pas@[t1[q] as int].artifact.frontmatter@, "status"@) is Some;
                assert(q == k);
            }
            if any_priority(pas@, t0) {
                let q = choose|q: int| 0 <= q < t0.len() && #[trigger] int_field(pas@[t0[q] as int].artifact.frontmatter@, "priority"@) is Some;
                assert(int_field(pas@[t1[q] as int].artifact.frontmatter@, "priority"@) is Some);
            }
            if any_status(pas@, t0) {
                let q = choose|q: int| 0 <= q < t0.len() && #[trigger] str_field(pas@[t0[q] as int].artifact.frontmatter@, "status"@) is Some;
                assert(str_field(pas@[t1[q] as int].artifact.frontmatter@, "status"@) is Some);
            }
            if hp {
                assert(int_field(pas@[t1[k as int] as int].artifact.frontmatter@, "priority"@) is Some);
            }
            if hs {
                assert(str_field(pas@[t1[k as int] as int].artifact.frontmatter@, "status"@) is Some);
            }
        }
        k += 1;
    }
    assert(sel@.take(sel@.len() as int) =~= sel@);
    let mut headers: Vec<String> = Vec::new();
    headers.push(crate::text::owned("project"));
    headers.push(crate::text::owned("id"));
    if has_pri {
        headers.push(crate::text::owned("pri"));
    }
    if has_status {
        headers.push(crate::text::owned("status"));
    }
    headers.push(crate::text::owned("title"));
    assert(row_view(headers) =~= scan_list_headers(has_pri, has_status));
    let mut rows: Vec<Vec<String>> = Vec::new();
    let mut q: usize = 0;
    while q < sel.len()
        invariant
            forall|i: int| 0 <= i < pas@.len() ==> (#[trigger] pas@[i]).artifact.wf(),
            forall|k: int| 0 <= k < sel@.len() ==> #[trigger] sel@[k] < pas@.len(),
            q <= sel@.len(),
            rows@.len() == q,
            forall|p: int| 0 <= p < q ==> row_view(#[trigger] rows@[p]) == scan_list_row(pas@[sel@[p] as int], has_pri, has_status),
        decreases sel@.len() - q,
    {
        let pa = &pas[sel[q]];
        let mut row: Vec<String> = Vec::new();
        row.push(pa.project.clone());
        row.push(pa.artifact.field_cell("id"));
        if has_pri {
            row.push(pa.artifact.priority_text());
        }
        if has_status {
            row.push(pa.artifact.field_cell("status"));
        }
        row.push(pa.artifact.field_cell("title"));
        assert(row_view(row) =~= scan_list_row(*pa, has_pri, has_status));
        rows.push(row);
        q += 1;
    }
    (headers, rows)
}

/// `pa` is active.
pub open spec fn scan_active(pa: ProjectArtifact) -> bool {
    str_field(pa.artifact.frontmatter@, "status"@) == Some("active"@)
}

/// `pa` waits in the queue of `scan next`: its status (empty when it has
/// none) is none of `active`, `blocked` and `done`.
pub open spec fn scan_queued(pa: ProjectArtifact) -> bool {
    let st = match str_field(pa.artifact.frontmatter@, "status"@) {
        Some(s) => s,
        None => ""@,
    };
    st != "active"@ && st != "blocked"@ && st != "done"@
}

/// The priority keys of the positions `cand`.
pub open spec fn scan_priority_keys(pas: Seq<ProjectArtifact>, cand: Seq<usize>) -> Seq<(int, Seq<Seq<char>>)> {
    Seq::new(cand.len(), |k: int| (priority_or_last(pas[cand[k] as int].artifact), Seq::<Seq<char>>::empty()))
}

/// How many of the positions `s` hold an artifact of project `p`.
pub open spec fn in_project(pas: Seq<ProjectArtifact>, s: Seq<usize>, p: Seq<char>) -> nat
    decreases s.len(),
{
    if s.len() == 0 {
        0
    } else {
        in_project(pas, s.drop_last(), p) + if pas[s.last() as int].project@ == p { 1nat } else { 0nat }
    }
}

/// The positions of `full[0..n]` that are among the first `count` of their
/// project, in the order of `full`.
pub open spec fn per_project(pas: Seq<ProjectArtifact>, full: Seq<usize>, count: nat, n: int) -> Seq<usize>
    decreases n,
{
    if n <= 0 {
        Seq::empty()
    } else {
        let prev = per_project(pas, full, count, n - 1);
        let x = full[n - 1];
        if in_project(pas, prev, pas[x as int].project@) < count {
            prev.push(x)
        } else {
            prev
        }
    }
}

/// The number of artifacts of project `p` among the positions `s`.
fn count_in_project(pas: &Vec<ProjectArtifact>, s: &Vec<usize>, p: &str) -> (r: usize)
    requires
        forall|k: int| 0 <= k < s@.len() ==> s@[k] < pas@.len(),
    ensures
        r == in_project(pas@, s@, p@),
{
    let mut c: usize = 0;
    let mut k: usize = 0;
    while k < s.len()
        invariant
            forall|k: int| 0 <= k < s@.len() ==> s@[k] < pas@.len(),
            k <= s@.len(),
            c == in_project(pas@, s@.take(k as int), p@),
            c <= k,
        decreases s@.len() - k,
    {
        assert(s@.take(k + 1).drop_last() =~= s@.take(k as int));
        if str_eq(pas[s[k]].project.as_str(), p) {
            c = c + 1;
        }
        k += 1;
    }
    assert(s@.take(s@.len() as int) =~= s@);
    c
}

/// What `scan next` shows: the active artifacts, and the queue ordered by
/// priority (stable; none last), where each project keeps only its first
/// `count` queued artifacts.
pub fn scan_next_selection(pas: &Vec<ProjectArtifact>, count: usize) -> (r: (Vec<usize>, Vec<usize>))
    requires
        forall|i: int| 0 <= i < pas@.len() ==> (#[trigger] pas@[i]).artifact.wf(),
    ensures
        r.0@ == positions(pas@.len() as int, |i: int| scan_active(pas@[i])),
        exists|full: Seq<usize>|
            sorted_by_keys(
                scan_priority_keys(pas@, positions(pas@.len() as int, |i: int| scan_queued(pas@[i]))),
                positions(pas@.len() as int, |i: int| scan_queued(pas@[i])),
                full,
            ) && r.1@ == per_project(pas@, full, count as nat, full.len() as int),
{
    let ghost act = |i: int| scan_active(pas@[i]);
    let ghost que = |i: int| scan_queued(pas@[i]);
    let mut active: Vec<usize> = Vec::new();
    let mut cand: Vec<usize> = Vec::new();
    let mut keys: Vec<SortKey> = Vec::new();
    let mut i: usize = 0;
    while i < pas.len()
        invariant
            forall|i: int| 0 <= i < pas@.len() ==> (#[trigger] pas@[i]).artifact.wf(),
            act == (|i: int| scan_active(pas@[i])),
            que == (|i: int| scan_queued(pas@[i])),
            i <= pas@.len(),
            active@ == positions(i as int, act),
            cand@ == positions(i as int, que),
            Seq::new(keys@.len(), |k: int| key_model(keys@[k])) == scan_priority_keys(pas@, cand@),
        decreases pas@.len() - i,
    {
        let a = &pas[i].artifact;
        let st = match a.status() {
            Some(x) => x,
            None => "",
        };
        let is_act = match a.status() {
            Some(x) => str_eq(x, "active"),
            None => false,
        };
        let is_que = !str_eq(st, "active") && !str_eq(st, "blocked") && !str_eq(st, "done");
        assert(is_act == act(i as int));
        assert(is_que == que(i as int));
        if is_act {
            active.push(i);
        }
        if is_que {
            let ghost before = Seq::new(keys@.len(), |k: int| key_model(keys@[k]));
            let ghost cb = cand@;
            keys.push(a.priority_key());
            cand.push(i);
            assert(Seq::new(keys@.len(), |k: int| key_model(keys@[k])) =~= before.push(
                (priority_or_last(pas@[i as int].artifact), Seq::<Seq<char>>::empty()),
            ));
            assert(scan_priority_keys(pas@, cand@) =~= scan_priority_keys(pas@, cb).push(
                (priority_or_last(pas@[i as int].artifact), Seq::<Seq<char>>::empty()),
            ));
        }
        i += 1;
    }
    assert(act =~= (|i: int| scan_active(pas@[i])));
    assert(que =~= (|i: int| scan_queued(pas@[i])));
    let full = order_by(&cand, &keys);
    proof {
        crate::sort::lemma_positions(pas@.len() as int, que);
        crate::sort::lemma_sorted_members(scan_priority_keys(pas@, cand@), cand@, full@);
        assert forall|k: int| 0 <= k < full@.len() implies full@[k] < pas@.len() by {
            assert(cand@.contains(full@[k]));
        }
    }
    let mut out: Vec<usize> = Vec::new();
    let mut j: usize = 0;
    while j < full.len()
        invariant
            forall|k: int| 0 <= k < full@.len() ==> full@[k] < pas@.len(),
            j <= full@.len(),
            out@ == per_project(pas@, full@, count as nat, j as int),
            forall|k: int| 0 <= k < out@.len() ==> out@[k] < pas@.len(),
        decreases full@.len() - j,
    {
        let x = full[j];
        let c = count_in_project(pas, &out, pas[x].project.as_str());
        if c < count {
            out.push(x);
        }
        j += 1;
    }
    (active, out)
}

/// A row of the active table of `scan next`: project, ID, priority, title.
pub open spec fn scan_active_row(pa: ProjectArtifact) -> Seq<Seq<char>> {
    seq![pa.project@, text_cell(pa.artifact, "id"@), priority_cell(pa.artifact), text_cell(pa.artifact, "title"@)]
}

/// A row of the queue of `scan next`: project, ID, priority, status, title.
pub open spec fn scan_queued_row(pa: ProjectArtifact) -> Seq<Seq<char>> {
    seq![
        pa.project@,
        text_cell(pa.artifact, "id"@),
        priority_cell(pa.artifact),
        text_cell(pa.artifact, "status"@),
        text_cell(pa.artifact, "title"@),
    ]
}

/// The rows of `scan next` for the artifacts at `sel`: those of the queue
/// (with the status) when `queued`, else those of the active table.
pub fn scan_next_rows(pas: &Vec<ProjectArtifact>, sel: &Vec<usize>, queued: bool) -> (r: Vec<Vec<String>>)
    requires
        forall|i: int| 0 <= i < pas@.len() ==> (#[trigger] pas@[i]).artifact.wf(),
        forall|k: int| 0 <= k < sel@.len() ==> #[trigger] sel@[k] < pas@.len(),
    ensures
        r@.len() == sel@.len(),
        forall|k: int| 0 <= k < sel@.len() ==> row_view(#[trigger] r@[k]) == if queued {
            scan_queued_row(pas@[sel@[k] as int])
        } else {
            scan_active_row(pas@[sel@[k] as int])
        },
{
    let mut rows: Vec<Vec<String>> = Vec::new();
    let mut q: usize = 0;
    while q < sel.len()
        invariant
            forall|i: int| 0 <= i < pas@.len() ==> (#[trigger] pas@[i]).artifact.wf(),
            forall|k: int| 0 <= k < sel@.len() ==> #[trigger] sel@[k] < pas@.len(),
            q <= sel@.len(),
            rows@.len() == q,
            forall|p: int| 0 <= p < q ==> row_view(#[trigger] rows@[p]) == if queued {
                scan_queued_row(pas@[sel@[p] as int])
            } else {
                scan_active_row(pas@[sel@[p] as int])
            },
        decreases sel@.len() - q,
    {
        let pa = &pas[sel[q]];
        let mut row: Vec<String> = Vec::new();
        row.push(pa.project.clone());
        row.push(pa.artifact.field_cell("id"));
        row.push(pa.artifact.priority_text());
        if queued {
            row.push(pa.artifact.field_cell("status"));
        }
        row.push(pa.artifact.field_cell("title"));
        if queued {
            assert(row_view(row) =~= scan_queued_row(*pa));
        } else {
            assert(row_view(row) =~= scan_active_row(*pa));
        }
        rows.push(row);
        q += 1;
    }
    rows
}

/// The projects of `pas`, in order (the groups of `scan stats` by project).
pub fn project_keys(pas: &Vec<ProjectArtifact>) -> (r: Vec<String>)
    ensures
        crate::sort::str_views(r@) == Seq::new(pas@.len(), |i: int| pas@[i].project@),
{
    let mut out: Vec<String> = Vec::new();
    let mut i: usize = 0;
    while i < pas.len()
        invariant
            i <= pas@.len(),
            out@.len() == i,
            forall|j: int| 0 <= j < i ==> (#[trigger] out@[j])@ == pas@[j].project@,
        decreases pas@.len() - i,
    {
        out.push(pas[i].project.clone());
        i += 1;
    }
    assert(crate::sort::str_views(out@) =~= Seq::new(pas@.len(), |i: int| pas@[i].project@));
    out
}

/// The last line of `scan lint`.
pub open spec fn scan_lint_summary_text(files: nat, projects: nat, errors: nat) -> Seq<char> {
    if errors == 0 {
        "Scan lint passed. "@ + nat_text(files) + " files across "@ + nat_text(projects) + " projects, no issues found."@
    } else {
        "Scan lint complete. "@ + nat_text(files) + " files across "@ + nat_text(projects) + " projects: "@
            + nat_text(errors) + " errors."@
    }
}

/// The last line of `scan lint`: files checked, projects, errors.
pub fn scan_lint_summary(files: usize, projects: usize, errors: usize) -> (r: String)
    ensures
        r@ == scan_lint_summary_text(files as nat, projects as nat, errors as nat),
{
    let mut r = String::new();
    if errors == 0 {
        r.append("Scan lint passed. ");
        r.append(crate::text::usize_text(files).as_str());
        r.append(" files across ");
        r.append(crate::text::usize_text(projects).as_str());
        r.append(" projects, no issues found.");
    } else {
        r.append("Scan lint complete. ");
        r.append(crate::text::usize_text(files).as_str());
        r.append(" files across ");
        r.append(crate::text::usize_text(projects).as_str());
        r.append(" projects: ");
        r.append(crate::text::usize_text(errors).as_str());
        r.append(" errors.");
    }
    r
}

} // verus!
