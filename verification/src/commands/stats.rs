//! `stats`: counting artifacts by the value of a field, and the per-type
//! overview.
use vstd::prelude::*;

use crate::artifact::{str_field, Artifact};
use crate::output::row_view;
use crate::sort::{sort_distinct_strings, str_views, strictly_ascending};
use crate::text::{nat_text, str_eq};
use crate::validate::contains_string;

verus! {

/// How many of `keys[0..n]` are `k`.
pub open spec fn count_of(keys: Seq<Seq<char>>, k: Seq<char>, n: int) -> nat
    decreases n,
{
    if n <= 0 {
        0
    } else {
        count_of(keys, k, n - 1) + if keys[n - 1] == k { 1nat } else { 0nat }
    }
}

/// The keys of groups.
pub open spec fn group_names(r: Seq<(Seq<char>, nat)>) -> Seq<Seq<char>> {
    Seq::new(r.len(), |q: int| r[q].0)
}

/// The groups of `keys`: each distinct key once, in ascending order, with
/// the number of times it occurs.
pub open spec fn groups_of(keys: Seq<Seq<char>>, r: Seq<(Seq<char>, nat)>) -> bool {
    &&& strictly_ascending(group_names(r))
    &&& forall|q: int| 0 <= q < r.len() ==> #[trigger] r[q].1 == count_of(keys, r[q].0, keys.len() as int)
    &&& forall|q: int| 0 <= q < r.len() ==> keys.contains(#[trigger] r[q].0)
    &&& forall|i: int| 0 <= i < keys.len() ==> group_names(r).contains(#[trigger] keys[i])
}

/// The model of counted groups.
pub open spec fn groups_view(v: Seq<(String, usize)>) -> Seq<(Seq<char>, nat)> {
    Seq::new(v.len(), |q: int| (v[q].0@, v[q].1 as nat))
}

proof fn lemma_count_bound(keys: Seq<Seq<char>>, k: Seq<char>, n: int)
    requires
        0 <= n,
    ensures
        count_of(keys, k, n) <= n,
    decreases n,
{
    if n > 0 {
        lemma_count_bound(keys, k, n - 1);
    }
}

/// How many of `keys` are `k`.
fn count_key(keys: &Vec<String>, k: &str) -> (r: usize)
    ensures
        r == count_of(str_views(keys@), k@, keys@.len() as int),
{
    let ghost kv = str_views(keys@);
    let mut c: usize = 0;
    let mut i: usize = 0;
    while i < keys.len()
        invariant
            kv == str_views(keys@),
            i <= keys@.len(),
            c == count_of(kv, k@, i as int),
        decreases keys@.len() - i,
    {
        proof {
            lemma_count_bound(kv, k@, i as int);
        }
        if str_eq(keys[i].as_str(), k) {
            c = c + 1;
        }
        i += 1;
    }
    c
}

/// The distinct keys of `keys`, each with the number of times it occurs, in
/// ascending order of the key.
pub fn count_groups(keys: &Vec<String>) -> (r: Vec<(String, usize)>)
    ensures
        groups_of(str_views(keys@), groups_view(r@)),
{
    let ghost kv = str_views(keys@);
    let mut distinct: Vec<String> = Vec::new();
    let mut i: usize = 0;
    while i < keys.len()
        invariant
            kv == str_views(keys@),
            i <= keys@.len(),
            forall|a: int, b: int| 0 <= a < b < distinct@.len() ==> distinct@[a]@ != distinct@[b]@,
            forall|q: int| 0 <= q < distinct@.len() ==> kv.contains(#[trigger] distinct@[q]@),
            forall|j: int| 0 <= j < i ==> str_views(distinct@).contains(#[trigger] kv[j]),
        decreases keys@.len() - i,
    {
        if !contains_string(&distinct, keys[i].as_str()) {
            let ghost before = distinct@;
            distinct.push(keys[i].clone());
            assert forall|a: int| 0 <= a < before.len() implies distinct@[a]@ != keys@[i as int]@ by {
                assert(str_views(before)[a] == before[a]@);
            }
            assert forall|j: int| 0 <= j < i implies str_views(distinct@).contains(#[trigger] kv[j]) by {
                let w = choose|w: int| 0 <= w < before.len() && str_views(before)[w] == kv[j];
                assert(str_views(distinct@)[w] == kv[j]);
            }
            assert(str_views(distinct@)[distinct@.len() - 1] == kv[i as int]);
            assert(kv.contains(distinct@[distinct@.len() - 1]@)) by {
                assert(kv[i as int] == keys@[i as int]@);
            }
        }
        i += 1;
    }
    let sorted = sort_distinct_strings(&distinct);
    let mut out: Vec<(String, usize)> = Vec::new();
    let mut q: usize = 0;
    while q < sorted.len()
        invariant
            kv == str_views(keys@),
            q <= sorted@.len(),
            out@.len() == q,
            forall|p: int| 0 <= p < q ==> (#[trigger] out@[p]).0@ == sorted@[p]@,
            forall|p: int| 0 <= p < q ==> (#[trigger] out@[p]).1 == count_of(kv, sorted@[p]@, kv.len() as int),
        decreases sorted@.len() - q,
    {
        let n = count_key(keys, sorted[q].as_str());
        out.push((sorted[q].clone(), n));
        q += 1;
    }
    proof {
        let g = groups_view(out@);
        assert(group_names(g) =~= str_views(sorted@));
        assert forall|q: int| 0 <= q < g.len() implies kv.contains(#[trigger] g[q].0) by {
            assert(str_views(distinct@).contains(sorted@[q]@));
            let w = choose|w: int| 0 <= w < distinct@.len() && str_views(distinct@)[w] == sorted@[q]@;
            assert(kv.contains(distinct@[w]@));
        }
        assert forall|j: int| 0 <= j < kv.len() implies group_names(g).contains(#[trigger] kv[j]) by {
            let w = choose|w: int| 0 <= w < distinct@.len() && str_views(distinct@)[w] == kv[j];
            assert(str_views(sorted@).contains(distinct@[w]@));
        }
    }
    out
}

/// The group of an artifact for `stats --by field`: the field's text, or
/// `(none)`.
pub open spec fn group_key(a: Artifact, field: Seq<char>) -> Seq<char> {
    match str_field(a.frontmatter@, field) {
        Some(v) => v,
        None => "(none)"@,
    }
}

/// The groups of `arts` by `field`, for `stats --by`.
pub fn group_keys(arts: &Vec<Artifact>, field: &str) -> (r: Vec<String>)
    requires
        forall|i: int| 0 <= i < arts@.len() ==> (#[trigger] arts@[i]).wf(),
    ensures
        str_views(r@) == Seq::new(arts@.len(), |i: int| group_key(arts@[i], field@)),
{
    let mut out: Vec<String> = Vec::new();
    let mut i: usize = 0;
    while i < arts.len()
        invariant
            forall|i: int| 0 <= i < arts@.len() ==> (#[trigger] arts@[i]).wf(),
            i <= arts@.len(),
            out@.len() == i,
            forall|j: int| 0 <= j < i ==> (#[trigger] out@[j])@ == group_key(arts@[j], field@),
        decreases arts@.len() - i,
    {
        let k = match arts[i].get_str(field) {
            Some(v) => crate::text::owned(v),
            None => crate::text::owned("(none)"),
        };
        out.push(k);
        i += 1;
    }
    assert(str_views(out@) =~= Seq::new(arts@.len(), |i: int| group_key(arts@[i], field@)));
    out
}

/// The rows of a count table: each group's key and its count.
pub fn count_rows(groups: &Vec<(String, usize)>) -> (r: Vec<Vec<String>>)
    ensures
        r@.len() == groups@.len(),
        forall|q: int| 0 <= q < groups@.len() ==> row_view(#[trigger] r@[q]) == seq![
            groups@[q].0@,
            nat_text(groups@[q].1 as nat),
        ],
{
    let mut rows: Vec<Vec<String>> = Vec::new();
    let mut q: usize = 0;
    while q < groups.len()
        invariant
            q <= groups@.len(),
            rows@.len() == q,
            forall|p: int| 0 <= p < q ==> row_view(#[trigger] rows@[p]) == seq![
                groups@[p].0@,
                nat_text(groups@[p].1 as nat),
            ],
        decreases groups@.len() - q,
    {
        let mut row: Vec<String> = Vec::new();
        row.push(groups[q].0.clone());
        row.push(crate::text::usize_text(groups[q].1));
        assert(row_view(row) =~= seq![groups@[q as int].0@, nat_text(groups@[q as int].1 as nat)]);
        rows.push(row);
        q += 1;
    }
    rows
}

} // verus!
