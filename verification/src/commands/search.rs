//! `search` and `scan search`: artifacts whose title or body a regular
//! expression matches.
use vstd::prelude::*;

use crate::artifact::{str_field, text_cell, Artifact};
use crate::output::row_view;
use crate::pattern::{
    lite_accepts, lite_check, lite_error, lite_finds, lite_is_match, regex_accepts, regex_check, regex_error,
    regex_finds, regex_is_match,
};

verus! {

/// Where a pattern matched: `title, body`, `title`, or `body`.
pub open spec fn match_label(in_title: bool, in_body: bool) -> Seq<char> {
    if in_title && in_body {
        "title, body"@
    } else if in_title {
        "title"@
    } else if in_body {
        "body"@
    } else {
        ""@
    }
}

/// Where a pattern matched.
fn label(in_title: bool, in_body: bool) -> (r: String)
    ensures
        r@ == match_label(in_title, in_body),
{
    if in_title && in_body {
        crate::text::owned("title, body")
    } else if in_title {
        crate::text::owned("title")
    } else if in_body {
        crate::text::owned("body")
    } else {
        crate::text::owned("")
    }
}

/// The search rows of `arts[0..k]` by the matcher `finds`: for each artifact
/// whose title or body it matches, the cells `lead`, ID, title and where it
/// matched.
pub open spec fn hit_rows(
    finds: spec_fn(Seq<char>) -> bool,
    lead: Seq<Seq<char>>,
    arts: Seq<Artifact>,
    k: int,
) -> Seq<Seq<Seq<char>>>
    decreases k,
{
    if k <= 0 {
        Seq::empty()
    } else {
        let a = arts[k - 1];
        let in_body = finds(a.body@);
        let in_title = match str_field(a.frontmatter@, "title"@) {
            Some(t) => finds(t),
            None => false,
        };
        let before = hit_rows(finds, lead, arts, k - 1);
        if in_body || in_title {
            before.push(lead + seq![text_cell(a, "id"@), text_cell(a, "title"@), match_label(in_title, in_body)])
        } else {
            before
        }
    }
}

/// The pattern `search` compiles: `(?i)` before the given one when case is
/// ignored.
pub open spec fn effective_pattern(pattern: Seq<char>, ignore_case: bool) -> Seq<char> {
    if ignore_case {
        "(?i)"@ + pattern
    } else {
        pattern
    }
}

/// The error for a pattern the regex crate refuses.
pub open spec fn invalid_pattern(e: Seq<char>) -> Seq<char> {
    "invalid regex pattern: "@ + e
}

/// The rows of `search` for the artifacts of one type.
fn regex_rows(pattern: &str, type_label: &str, arts: &Vec<Artifact>, rows: &mut Vec<Vec<String>>)
    requires
        regex_accepts(pattern@),
        forall|i: int| 0 <= i < arts@.len() ==> (#[trigger] arts@[i]).wf(),
    ensures
        Seq::new(final(rows)@.len(), |i: int| row_view(final(rows)@[i])) == Seq::new(
            old(rows)@.len(),
            |i: int| row_view(old(rows)@[i]),
        ) + hit_rows(|t: Seq<char>| regex_finds(pattern@, t), seq![type_label@], arts@, arts@.len() as int),
{
    let ghost finds = |t: Seq<char>| regex_finds(pattern@, t);
    let ghost start = Seq::new(rows@.len(), |i: int| row_view(rows@[i]));
    let mut i: usize = 0;
    while i < arts.len()
        invariant
            regex_accepts(pattern@),
            forall|i: int| 0 <= i < arts@.len() ==> (#[trigger] arts@[i]).wf(),
            finds == (|t: Seq<char>| regex_finds(pattern@, t)),
            i <= arts@.len(),
            Seq::new(rows@.len(), |i: int| row_view(rows@[i])) == start + hit_rows(finds, seq![type_label@], arts@, i as int),
        decreases arts@.len() - i,
    {
        let a = &arts[i];
        let in_body = regex_is_match(pattern, a.body.as_str());
        let in_title = match a.title() {
            Some(t) => regex_is_match(pattern, t),
            None => false,
        };
        if in_body || in_title {
            let mut row: Vec<String> = Vec::new();
            row.push(crate::text::owned(type_label));
            row.push(a.field_cell("id"));
            row.push(a.field_cell("title"));
            row.push(label(in_title, in_body));
            let ghost before = Seq::new(rows@.len(), |i: int| row_view(rows@[i]));
            assert(row_view(row) =~= seq![type_label@] + seq![
                text_cell(*a, "id"@),
                text_cell(*a, "title"@),
                match_label(in_title, in_body),
            ]);
            rows.push(row);
            assert(Seq::new(rows@.len(), |i: int| row_view(rows@[i])) =~= before.push(row_view(rows@.last())));
        }
        i += 1;
    }
}

/// The rows of `search`: for each type in turn (its name and artifacts), the
/// artifacts whose title or body the pattern matches (case ignored when
/// asked), with the type, ID, title and where it matched. An error when the
/// regex crate refuses the pattern.
pub fn search_rows(pattern: &str, ignore_case: bool, types: &Vec<(String, Vec<Artifact>)>) -> (r: Result<
    Vec<Vec<String>>,
    String,
>)
    requires
        forall|t: int, i: int| 0 <= t < types@.len() && 0 <= i < types@[t].1@.len() ==> (#[trigger] types@[t].1@[i]).wf(),
    ensures
        r is Ok <==> regex_accepts(effective_pattern(pattern@, ignore_case)),
        r matches Err(m) ==> m@ == invalid_pattern(regex_error(effective_pattern(pattern@, ignore_case))),
        r matches Ok(rows) ==> Seq::new(rows@.len(), |i: int| row_view(rows@[i])) == search_hits(
            effective_pattern(pattern@, ignore_case),
            types@,
            types@.len() as int,
        ),
{
    let mut eff = String::new();
    if ignore_case {
        eff.append("(?i)");
    }
    eff.append(pattern);
    match regex_check(eff.as_str()) {
        Err(e) => {
            let mut m = crate::text::owned("invalid regex pattern: ");
            m.append(e.as_str());
            return Err(m);
        },
        Ok(()) => {},
    }
    let mut rows: Vec<Vec<String>> = Vec::new();
    let mut t: usize = 0;
    while t < types.len()
        invariant
            regex_accepts(eff@),
            eff@ == effective_pattern(pattern@, ignore_case),
            forall|t: int, i: int| 0 <= t < types@.len() && 0 <= i < types@[t].1@.len() ==> (#[trigger] types@[t].1@[i]).wf(),
            t <= types@.len(),
            Seq::new(rows@.len(), |i: int| row_view(rows@[i])) == search_hits(eff@, types@, t as int),
        decreases types@.len() - t,
    {
        assert forall|i: int| 0 <= i < types@[t as int].1@.len() implies (#[trigger] types@[t as int].1@[i]).wf() by {}
        regex_rows(eff.as_str(), types[t].0.as_str(), &types[t].1, &mut rows);
        t += 1;
    }
    Ok(rows)
}

/// The rows of `search` over `types[0..k]`.
pub open spec fn search_hits(p: Seq<char>, types: Seq<(String, Vec<Artifact>)>, k: int) -> Seq<Seq<Seq<char>>>
    decreases k,
{
    if k <= 0 {
        Seq::empty()
    } else {
        search_hits(p, types, k - 1) + hit_rows(
            |t: Seq<char>| regex_finds(p, t),
            seq![types[k - 1].0@],
            types[k - 1].1@,
            types[k - 1].1@.len() as int,
        )
    }
}

/// One project's type in `scan search`: the project, the type, its artifacts.
pub struct ScanGroup {
    pub project: String,
    pub type_label: String,
    pub artifacts: Vec<Artifact>,
}

/// The rows of `scan search` over `groups[0..k]`.
pub open spec fn scan_hits(p: Seq<char>, groups: Seq<ScanGroup>, k: int) -> Seq<Seq<Seq<char>>>
    decreases k,
{
    if k <= 0 {
        Seq::empty()
    } else {
        scan_hits(p, groups, k - 1) + hit_rows(
            |t: Seq<char>| lite_finds(p, t),
            seq![groups[k - 1].project@, groups[k - 1].type_label@],
            groups[k - 1].artifacts@,
            groups[k - 1].artifacts@.len() as int,
        )
    }
}

/// The rows of `scan search` for one group.
fn lite_rows(pattern: &str, g: &ScanGroup, rows: &mut Vec<Vec<String>>)
    requires
        lite_accepts(pattern@),
        forall|i: int| 0 <= i < g.artifacts@.len() ==> (#[trigger] g.artifacts@[i]).wf(),
    ensures
        Seq::new(final(rows)@.len(), |i: int| row_view(final(rows)@[i])) == Seq::new(
            old(rows)@.len(),
            |i: int| row_view(old(rows)@[i]),
        ) + hit_rows(
            |t: Seq<char>| lite_finds(pattern@, t),
            seq![g.project@, g.type_label@],
            g.artifacts@,
            g.artifacts@.len() as int,
        ),
{
    let ghost finds = |t: Seq<char>| lite_finds(pattern@, t);
    let ghost lead = seq![g.project@, g.type_label@];
    let ghost start = Seq::new(rows@.len(), |i: int| row_view(rows@[i]));
    let arts = &g.artifacts;
    let mut i: usize = 0;
    while i < arts.len()
        invariant
            lite_accepts(pattern@),
            forall|i: int| 0 <= i < arts@.len() ==> (#[trigger] arts@[i]).wf(),
            finds == (|t: Seq<char>| lite_finds(pattern@, t)),
            lead == seq![g.project@, g.type_label@],
            i <= arts@.len(),
            Seq::new(rows@.len(), |i: int| row_view(rows@[i])) == start + hit_rows(finds, lead, arts@, i as int),
        decreases arts@.len() - i,
    {
        let a = &arts[i];
        let in_body = lite_is_match(pattern, a.body.as_str());
        let in_title = match a.title() {
            Some(t) => lite_is_match(pattern, t),
            None => false,
        };
        if in_body || in_title {
            let mut row: Vec<String> = Vec::new();
            row.push(g.project.clone());
            row.push(g.type_label.clone());
            row.push(a.field_cell("id"));
            row.push(a.field_cell("title"));
            row.push(label(in_title, in_body));
            let ghost before = Seq::new(rows@.len(), |i: int| row_view(rows@[i]));
            assert(row_view(row) =~= lead + seq![
                text_cell(*a, "id"@),
                text_cell(*a, "title"@),
                match_label(in_title, in_body),
            ]);
            rows.push(row);
            assert(Seq::new(rows@.len(), |i: int| row_view(rows@[i])) =~= before.push(row_view(rows@.last())));
        }
        i += 1;
    }
}

/// The rows of `scan search`: for each group in turn, the artifacts whose
/// title or body the pattern (by `regex-lite`) matches, with the project,
/// type, ID, title and where it matched. An error when the crate refuses the
/// pattern.
pub fn scan_search_rows(pattern: &str, groups: &Vec<ScanGroup>) -> (r: Result<Vec<Vec<String>>, String>)
    requires
        forall|g: int, i: int| 0 <= g < groups@.len() && 0 <= i < groups@[g].artifacts@.len() ==> (#[trigger] groups@[g].artifacts@[i]).wf(),
    ensures
        r is Ok <==> lite_accepts(pattern@),
        r matches Err(m) ==> m@ == invalid_pattern(lite_error(pattern@)),
        r matches Ok(rows) ==> Seq::new(rows@.len(), |i: int| row_view(rows@[i])) == scan_hits(
            pattern@,
            groups@,
            groups@.len() as int,
        ),
{
    match lite_check(pattern) {
        Err(e) => {
            let mut m = crate::text::owned("invalid regex pattern: ");
            m.append(e.as_str());
            return Err(m);
        },
        Ok(()) => {},
    }
    let mut rows: Vec<Vec<String>> = Vec::new();
    let mut k: usize = 0;
    while k < groups.len()
        invariant
            lite_accepts(pattern@),
            forall|g: int, i: int| 0 <= g < groups@.len() && 0 <= i < groups@[g].artifacts@.len() ==> (#[trigger] groups@[g].artifacts@[i]).wf(),
            k <= groups@.len(),
            Seq::new(rows@.len(), |i: int| row_view(rows@[i])) == scan_hits(pattern@, groups@, k as int),
        decreases groups@.len() - k,
    {
        assert forall|i: int| 0 <= i < groups@[k as int].artifacts@.len() implies (#[trigger] groups@[k as int].artifacts@[i]).wf() by {}
        lite_rows(pattern, &groups[k], &mut rows);
        k += 1;
    }
    Ok(rows)
}

} // verus!
