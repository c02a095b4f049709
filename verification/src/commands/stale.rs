//! `stale`: artifacts with no activity since a cutoff date.
use vstd::prelude::*;

use crate::artifact::{str_field, text_cell, Artifact};
use crate::output::row_view;
use crate::text::{seq_less, str_less};

verus! {

/// The `updated` date of an artifact (empty when it has none).
pub open spec fn updated_of(a: Artifact) -> Seq<char> {
    match str_field(a.frontmatter@, "updated"@) {
        Some(u) => u,
        None => Seq::empty(),
    }
}

/// `a` may be stale: its `updated` date is empty or not after `cutoff`
/// (dates `YYYY-MM-DD` compare as text).
pub open spec fn stale_candidate(a: Artifact, cutoff: Seq<char>) -> bool {
    updated_of(a).len() == 0 || !seq_less(cutoff, updated_of(a))
}

/// Whether `a` may be stale (see [`stale_candidate`]); only these get their
/// last commit looked up.
pub fn is_stale_candidate(a: &Artifact, cutoff: &str) -> (r: bool)
    requires
        a.wf(),
    ensures
        r == stale_candidate(*a, cutoff@),
{
    match a.get_str("updated") {
        Some(u) => u.is_empty() || !str_less(cutoff, u),
        None => true,
    }
}

/// A candidate is stale when its file has no commit, or its last commit is
/// not after `cutoff`.
pub open spec fn commit_stale(last: Option<Seq<char>>, cutoff: Seq<char>) -> bool {
    match last {
        Some(d) => !seq_less(cutoff, d),
        None => true,
    }
}

/// Whether a candidate with last commit `last` is stale.
pub fn is_commit_stale(last: &Option<String>, cutoff: &str) -> (r: bool)
    ensures
        r == commit_stale(crate::schema::opt_view(*last), cutoff@),
{
    match last {
        Some(d) => !str_less(cutoff, d.as_str()),
        None => true,
    }
}

/// The row of a stale artifact: ID, status, `updated`, last commit
/// (`untracked` when none), title.
pub open spec fn stale_row_text(a: Artifact, last: Option<Seq<char>>) -> Seq<Seq<char>> {
    seq![
        text_cell(a, "id"@),
        text_cell(a, "status"@),
        updated_of(a),
        match last {
            Some(d) => d,
            None => "untracked"@,
        },
        text_cell(a, "title"@),
    ]
}

/// The row of a stale artifact.
pub fn stale_row(a: &Artifact, last: &Option<String>) -> (r: Vec<String>)
    requires
        a.wf(),
    ensures
        row_view(r) == stale_row_text(*a, crate::schema::opt_view(*last)),
{
    let mut row: Vec<String> = Vec::new();
    row.push(a.field_cell("id"));
    row.push(a.field_cell("status"));
    row.push(match a.get_str("updated") {
        Some(u) => crate::text::owned(u),
        None => String::new(),
    });
    row.push(match last {
        Some(d) => d.clone(),
        None => crate::text::owned("untracked"),
    });
    row.push(a.field_cell("title"));
    assert(row_view(row) =~= stale_row_text(*a, crate::schema::opt_view(*last)));
    row
}

} // verus!
