//! `rebalance`: spreading the priorities of a type evenly.
use vstd::prelude::*;

use crate::artifact::{int_field, is_archived, Artifact};
use crate::commands::list::priority_keys;
use crate::schema::{Schema, SchemaModel};
use crate::sort::{key_model, lemma_positions, lemma_sorted_members, order_by, positions, sorted_by_keys, SortKey};
use crate::value::{Val, Value};

verus! {

/// The positions of the artifacts that are not archived.
pub open spec fn rebalance_candidates(s: SchemaModel, arts: Seq<Artifact>) -> Seq<usize> {
    positions(arts.len() as int, |i: int| !is_archived(s.archive, arts[i]))
}

/// The changes of a rebalance over the artifacts in `order[0..k]`: the
/// artifact at place `j` gets priority `gap * (j + 1)`; those that already
/// have it are left out.
pub open spec fn rebalance_changes(arts: Seq<Artifact>, order: Seq<usize>, gap: int, k: int) -> Seq<(usize, int)>
    decreases k,
{
    if k <= 0 {
        Seq::empty()
    } else {
        let before = rebalance_changes(arts, order, gap, k - 1);
        let p = gap * k;
        if int_field(arts[order[k - 1] as int].frontmatter@, "priority"@) == Some(p) {
            before
        } else {
            before.push((order[k - 1], p))
        }
    }
}

/// The model of a plan of priority changes.
pub open spec fn plan_view(v: Seq<(usize, i64)>) -> Seq<(usize, int)> {
    Seq::new(v.len(), |i: int| (v[i].0, v[i].1 as int))
}

proof fn lemma_step(gap: int, k: int)
    ensures
        gap * k + gap == gap * (k + 1),
{
    assert(gap * k + gap == gap * (k + 1)) by (nonlinear_arith);
}

proof fn lemma_between(gap: int, k: int, m: int)
    requires
        0 <= k <= m,
    ensures
        gap >= 0 ==> 0 <= gap * k <= gap * m,
        gap < 0 ==> gap * m <= gap * k <= 0,
{
    assert(gap >= 0 ==> 0 <= gap * k <= gap * m) by (nonlinear_arith)
        requires
            0 <= k <= m,
    ;
    assert(gap < 0 ==> gap * m <= gap * k <= 0) by (nonlinear_arith)
        requires
            0 <= k <= m,
    ;
}

/// The priority changes of `rebalance`: the artifacts that are not archived,
/// ordered by priority (stable; those without one last), get the priorities
/// `gap`, `2 * gap`, ... in that order; the result lists, in that order,
/// those whose priority changes, with the new one.
pub fn rebalance_plan(schema: &Schema, artifacts: &Vec<Artifact>, gap: i64) -> (r: Vec<(usize, i64)>)
    requires
        forall|i: int| 0 <= i < artifacts@.len() ==> (#[trigger] artifacts@[i]).wf(),
        i64::MIN <= gap * (rebalance_candidates(schema@, artifacts@).len() + 1) <= i64::MAX,
    ensures
        exists|order: Seq<usize>|
            sorted_by_keys(
                priority_keys(artifacts@, rebalance_candidates(schema@, artifacts@)),
                rebalance_candidates(schema@, artifacts@),
                order,
            ) && plan_view(r@) == rebalance_changes(artifacts@, order, gap as int, order.len() as int),
        forall|k: int| 0 <= k < r@.len() ==> #[trigger] r@[k].0 < artifacts@.len(),
        forall|a: int, b: int| 0 <= a < b < r@.len() ==> r@[a].0 != r@[b].0,
{
    let archive_value = schema.archive_value();
    let ghost keep = |i: int| !is_archived(schema@.archive, artifacts@[i]);
    let mut cand: Vec<usize> = Vec::new();
    let mut keys: Vec<SortKey> = Vec::new();
    let mut i: usize = 0;
    while i < artifacts.len()
        invariant
            forall|i: int| 0 <= i < artifacts@.len() ==> (#[trigger] artifacts@[i]).wf(),
            keep == (|i: int| !is_archived(schema@.archive, artifacts@[i])),
            crate::artifact::opt_str(archive_value) == match schema@.archive {
                Some(a) => Some(a.value),
                None => None,
            },
            i <= artifacts@.len(),
            cand@ == positions(i as int, keep),
            Seq::new(keys@.len(), |k: int| key_model(keys@[k])) == priority_keys(artifacts@, cand@),
        decreases artifacts@.len() - i,
    {
        let a = &artifacts[i];
        if !a.archived(archive_value) {
            let ghost before = Seq::new(keys@.len(), |k: int| key_model(keys@[k]));
            let ghost cb = cand@;
            keys.push(a.priority_key());
            cand.push(i);
            assert(Seq::new(keys@.len(), |k: int| key_model(keys@[k])) =~= before.push(
                (crate::artifact::priority_or_last(artifacts@[i as int]), Seq::<Seq<char>>::empty()),
            ));
            assert(priority_keys(artifacts@, cand@) =~= priority_keys(artifacts@, cb).push(
                (crate::artifact::priority_or_last(artifacts@[i as int]), Seq::<Seq<char>>::empty()),
            ));
        }
        i += 1;
    }
    assert(keep =~= (|i: int| !is_archived(schema@.archive, artifacts@[i])));
    let order = order_by(&cand, &keys);
    proof {
        lemma_positions(artifacts@.len() as int, keep);
        lemma_sorted_members(Seq::new(keys@.len(), |i: int| key_model(keys@[i])), cand@, order@);
        assert forall|q: int| 0 <= q < order@.len() implies #[trigger] order@[q] < artifacts@.len() by {
            assert(cand@.contains(order@[q]));
        }
    }
    let ghost n = cand@.len();
    let mut out: Vec<(usize, i64)> = Vec::new();
    let mut newp: i64 = gap;
    let mut k: usize = 0;
    proof {
        lemma_between(gap as int, 1, n as int + 1);
        assert(gap * 1 == gap);
    }
    while k < order.len()
        invariant
            forall|i: int| 0 <= i < artifacts@.len() ==> (#[trigger] artifacts@[i]).wf(),
            forall|q: int| 0 <= q < order@.len() ==> #[trigger] order@[q] < artifacts@.len(),
            order@.len() == n,
            i64::MIN <= gap * (n + 1) <= i64::MAX,
            k <= order@.len(),
            newp == gap * (k + 1),
            plan_view(out@) == rebalance_changes(artifacts@, order@, gap as int, k as int),
            forall|q: int| 0 <= q < out@.len() ==> #[trigger] out@[q].0 < artifacts@.len(),
            forall|a: int, b: int| 0 <= a < b < order@.len() ==> order@[a] != order@[b],
            forall|q: int| 0 <= q < out@.len() ==> exists|j: int| 0 <= j < k && #[trigger] out@[q].0 == order@[j],
            forall|a: int, b: int| 0 <= a < b < out@.len() ==> out@[a].0 != out@[b].0,
        decreases order@.len() - k,
    {
        let t = order[k];
        if artifacts[t].priority() != Some(newp) {
            let ghost before = plan_view(out@);
            let ghost ob = out@;
            out.push((t, newp));
            assert(plan_view(out@) =~= before.push((t, newp as int)));
            assert forall|q: int| 0 <= q < ob.len() implies out@[q].0 != t by {
                let j = choose|j: int| 0 <= j < k && #[trigger] ob[q].0 == order@[j];
            }
        }
        proof {
            lemma_step(gap as int, k as int + 1);
            lemma_between(gap as int, k as int + 2, n as int + 1);
        }
        newp = newp + gap;
        k += 1;
    }
    out
}

/// `after` is `before` with each planned artifact given its new priority
/// and `today` as its `updated` date; nothing else differs.
pub open spec fn rebalanced(before: Seq<Artifact>, after: Seq<Artifact>, plan: Seq<(usize, i64)>, today: Seq<char>) -> bool {
    &&& after.len() == before.len()
    &&& forall|i: int| 0 <= i < after.len() ==> (#[trigger] after[i]).wf()
    &&& forall|i: int| 0 <= i < after.len() ==> {
        let a = #[trigger] after[i];
        let o = before[i];
        a.path == o.path && a.body == o.body && a.raw == o.raw
    }
    &&& forall|k: int| 0 <= k < plan.len() ==> after[(#[trigger] plan[k]).0 as int].frontmatter@ == before[plan[k].0 as int].frontmatter@.insert(
        "priority"@,
        Val::Int(plan[k].1 as int),
    ).insert("updated"@, Val::Str(today))
    &&& forall|i: int| 0 <= i < after.len() && (forall|k: int| 0 <= k < plan.len() ==> plan[k].0 != i) ==> (
    #[trigger] after[i]).frontmatter@ == before[i].frontmatter@
}

/// Gives each planned artifact its new priority and `today` as its
/// `updated` date; nothing else changes.
pub fn apply_rebalance(arts: &mut Vec<Artifact>, plan: &Vec<(usize, i64)>, today: &str)
    requires
        forall|i: int| 0 <= i < old(arts)@.len() ==> (#[trigger] old(arts)@[i]).wf(),
        forall|k: int| 0 <= k < plan@.len() ==> #[trigger] plan@[k].0 < old(arts)@.len(),
        forall|a: int, b: int| 0 <= a < b < plan@.len() ==> plan@[a].0 != plan@[b].0,
    ensures
        rebalanced(old(arts)@, final(arts)@, plan@, today@),
{
    let ghost orig = arts@;
    let mut k: usize = 0;
    while k < plan.len()
        invariant
            k <= plan@.len(),
            arts@.len() == orig.len(),
            forall|k: int| 0 <= k < plan@.len() ==> #[trigger] plan@[k].0 < orig.len(),
            forall|a: int, b: int| 0 <= a < b < plan@.len() ==> plan@[a].0 != plan@[b].0,
            forall|i: int| 0 <= i < arts@.len() ==> (#[trigger] arts@[i]).wf(),
            forall|i: int| 0 <= i < arts@.len() ==> {
                let a = #[trigger] arts@[i];
                let o = orig[i];
                a.path == o.path && a.body == o.body && a.raw == o.raw
            },
            forall|q: int| 0 <= q < k ==> arts@[(#[trigger] plan@[q]).0 as int].frontmatter@ == orig[plan@[q].0 as int].frontmatter@.insert(
                "priority"@,
                Val::Int(plan@[q].1 as int),
            ).insert("updated"@, Val::Str(today@)),
            forall|i: int| 0 <= i < arts@.len() && (forall|q: int| 0 <= q < k ==> plan@[q].0 != i) ==> (
            #[trigger] arts@[i]).frontmatter@ == orig[i].frontmatter@,
        decreases plan@.len() - k,
    {
        let t = plan[k].0;
        let ghost prev = arts@;
        assert(forall|q: int| 0 <= q < k ==> plan@[q].0 != t);
        assert(prev[t as int].frontmatter@ == orig[t as int].frontmatter@);
        let mut a = arts.remove(t);
        a.frontmatter.insert(crate::text::owned("priority"), Value::Int(plan[k].1));
        a.frontmatter.insert(crate::text::owned("updated"), Value::Str(crate::text::owned(today)));
        arts.insert(t, a);
        assert forall|i: int| 0 <= i < arts@.len() && i != t implies arts@[i] == prev[i] by {}
        assert forall|q: int| 0 <= q < k + 1 implies arts@[(#[trigger] plan@[q]).0 as int].frontmatter@ == orig[plan@[q].0 as int].frontmatter@.insert(
            "priority"@,
            Val::Int(plan@[q].1 as int),
        ).insert("updated"@, Val::Str(today@)) by {
            if q < k {
                assert(plan@[q].0 != t);
                assert(arts@[plan@[q].0 as int] == prev[plan@[q].0 as int]);
            }
        }
        assert forall|i: int| 0 <= i < arts@.len() && (forall|q: int| 0 <= q < k + 1 ==> plan@[q].0 != i) implies (
        #[trigger] arts@[i]).frontmatter@ == orig[i].frontmatter@ by {
            assert(plan@[k as int].0 != i);
            assert(arts@[i] == prev[i]);
        }
        k += 1;
    }
}

} // verus!
