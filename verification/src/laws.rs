//! Properties that hold across the library's operations.
use vstd::prelude::*;

use crate::artifact::{
    runs, slug, words,
    all_digits, digits_value, id_number, int_field, is_digit, max_id_number, parse_u32_spec, str_field,
    unsigned_part, zero_pad, Artifact,
};
use crate::commands::context::extend_unique;
use crate::commands::diff::{change_fields, change_of, frontmatter_diff, FieldChange};
use crate::commands::lint::{fix_of, fixes_upto, fixes_view, id_of, last_with_id, supersession_applied, supersession_plan};
use crate::cli::NewArgs;
use crate::commands::new::{extra_failure, id_text, new_failure, new_map, pairs_view, with_extras, with_status, with_text};
use crate::commands::rebalance::{plan_view, rebalance_changes, rebalanced};
use crate::commands::stats::{count_of, group_names, groups_of};
use crate::schema::{base_of, merge_fields, named_in, opt_view, resolved, FieldModel, SchemaModel};
use crate::validate::{coerced, priority_clash, priority_taken};
use crate::sort::lemma_seq_less_irreflexive;
use crate::schema::first_marked;
use crate::text::{alphanumeric, digit_char, has_prefix, join_spec, lowercase, nat_text, seq_less};
use crate::value::Val;

verus! {

// ---------------------------------------------------------------------------
// Frontmatter
// ---------------------------------------------------------------------------

/// Reading a field after setting it gives the value set; every other field
/// reads as before.
pub proof fn law_read_after_write(before: Map<Seq<char>, Val>, k: Seq<char>, v: Val, other: Seq<char>)
    ensures
        before.insert(k, v).contains_key(k),
        before.insert(k, v)[k] == v,
        other != k ==> before.insert(k, v).contains_key(other) == before.contains_key(other),
        other != k && before.contains_key(other) ==> before.insert(k, v)[other] == before[other],
{
}

// ---------------------------------------------------------------------------
// IDs
// ---------------------------------------------------------------------------

proof fn lemma_digit_char(d: nat)
    requires
        d < 10,
    ensures
        is_digit(digit_char(d)),
        (digit_char(d) as u32) - 48 == d,
{
}

proof fn lemma_nat_text(n: nat)
    ensures
        nat_text(n).len() > 0,
        all_digits(nat_text(n)),
        digits_value(nat_text(n)) == n,
    decreases n,
{
    if n < 10 {
        lemma_digit_char(n);
        assert(nat_text(n) == seq![digit_char(n)]);
        assert(nat_text(n).drop_last() =~= Seq::<char>::empty());
        assert(digits_value(nat_text(n)) == digits_value(Seq::<char>::empty()) * 10 + n);
    } else {
        lemma_nat_text(n / 10);
        lemma_digit_char(n % 10);
        let t = nat_text(n);
        assert(t.drop_last() =~= nat_text(n / 10));
        assert(t.last() == digit_char(n % 10));
        assert((n / 10) * 10 + n % 10 == n);
        assert(digits_value(t) == digits_value(nat_text(n / 10)) * 10 + n % 10);
        assert forall|i: int| 0 <= i < t.len() implies is_digit(#[trigger] t[i]) by {
            if i < t.len() - 1 {
                assert(t[i] == nat_text(n / 10)[i]);
            }
        }
    }
}

proof fn lemma_zeros(k: nat)
    ensures
        all_digits(Seq::new(k, |i: int| '0')),
        digits_value(Seq::new(k, |i: int| '0')) == 0,
    decreases k,
{
    if k > 0 {
        lemma_zeros((k - 1) as nat);
        assert(Seq::new(k, |i: int| '0').drop_last() =~= Seq::new((k - 1) as nat, |i: int| '0'));
    }
}

proof fn lemma_leading_zeros(z: Seq<char>, t: Seq<char>)
    requires
        all_digits(z),
        digits_value(z) == 0,
        all_digits(t),
    ensures
        all_digits(z + t),
        digits_value(z + t) == digits_value(t),
    decreases t.len(),
{
    if t.len() == 0 {
        assert(z + t =~= z);
    } else {
        assert forall|i: int| 0 <= i < t.len() - 1 implies is_digit(#[trigger] t.drop_last()[i]) by {
            assert(t.drop_last()[i] == t[i]);
        }
        lemma_leading_zeros(z, t.drop_last());
        assert((z + t).drop_last() =~= z + t.drop_last());
        assert((z + t).last() == t.last());
        assert forall|i: int| 0 <= i < (z + t).len() implies is_digit(#[trigger] (z + t)[i]) by {
            if i < z.len() {
                assert((z + t)[i] == z[i]);
            } else {
                assert((z + t)[i] == t[i - z.len()]);
            }
        }
    }
}

/// The number of the ID `prefix-<n>` written by `new` (zero-padded to
/// three digits) reads back as `n`.
pub proof fn law_id_round_trip(prefix: Seq<char>, n: nat)
    requires
        n <= u32::MAX,
    ensures
        id_number(Some(id_text(prefix, n)), prefix) == Some(n),
{
    lemma_nat_text(n);
    let t = nat_text(n);
    let padded = zero_pad(t, 3);
    if t.len() < 3 {
        lemma_zeros((3 - t.len()) as nat);
        lemma_leading_zeros(Seq::new((3 - t.len()) as nat, |i: int| '0'), t);
        assert(padded[0] == '0');
    } else {
        assert(padded == t);
        lemma_digit_char(0);
        assert(is_digit(padded[0]));
    }
    assert(padded.len() > 0);
    assert(padded[0] != '+');
    assert(unsigned_part(padded) == padded);
    assert(parse_u32_spec(padded) == Some(n));
    let id = id_text(prefix, n);
    let head = prefix + seq!['-'];
    assert(id.subrange(0, head.len() as int) =~= head);
    assert(has_prefix(id, head));
    assert(id.skip(prefix.len() + 1 as int) =~= padded);
}

proof fn lemma_max_bounds(arts: Seq<Artifact>, prefix: Seq<char>, k: int)
    requires
        0 <= k <= arts.len(),
    ensures
        forall|j: int| 0 <= j < k ==> match #[trigger] id_number(str_field(arts[j].frontmatter@, "id"@), prefix) {
            Some(m) => m <= max_id_number(arts, prefix, k),
            None => true,
        },
    decreases k,
{
    if k > 0 {
        lemma_max_bounds(arts, prefix, k - 1);
    }
}

/// The ID that `new` gives the next artifact is not the ID of any existing
/// artifact.
pub proof fn law_new_id_is_fresh(arts: Seq<Artifact>, prefix: Seq<char>)
    requires
        max_id_number(arts, prefix, arts.len() as int) < u32::MAX,
    ensures
        forall|i: int| 0 <= i < arts.len() ==> #[trigger] str_field(arts[i].frontmatter@, "id"@) != Some(
            id_text(prefix, max_id_number(arts, prefix, arts.len() as int) + 1),
        ),
{
    let m = max_id_number(arts, prefix, arts.len() as int);
    lemma_max_bounds(arts, prefix, arts.len() as int);
    law_id_round_trip(prefix, m + 1);
    assert forall|i: int| 0 <= i < arts.len() implies #[trigger] str_field(arts[i].frontmatter@, "id"@) != Some(
        id_text(prefix, m + 1),
    ) by {
        if str_field(arts[i].frontmatter@, "id"@) == Some(id_text(prefix, m + 1)) {
            assert(id_number(str_field(arts[i].frontmatter@, "id"@), prefix) == Some((m + 1) as nat));
        }
    }
}

/// IDs are handed out in sequence: once the artifact that `new` made (with
/// the next ID) is among the artifacts, the next ID is one more.
pub proof fn law_ids_in_sequence(arts: Seq<Artifact>, prefix: Seq<char>, made: Artifact)
    requires
        max_id_number(arts, prefix, arts.len() as int) + 1 < u32::MAX,
        str_field(made.frontmatter@, "id"@) == Some(id_text(prefix, max_id_number(arts, prefix, arts.len() as int) + 1)),
    ensures
        max_id_number(arts.push(made), prefix, arts.len() + 1 as int) == max_id_number(arts, prefix, arts.len() as int) + 1,
{
    let m = max_id_number(arts, prefix, arts.len() as int);
    let all = arts.push(made);
    law_id_round_trip(prefix, m + 1);
    lemma_max_prefix(arts, made, prefix, arts.len() as int);
    assert(all[arts.len() as int] == made);
}

proof fn lemma_max_prefix(arts: Seq<Artifact>, made: Artifact, prefix: Seq<char>, k: int)
    requires
        0 <= k <= arts.len(),
    ensures
        max_id_number(arts.push(made), prefix, k) == max_id_number(arts, prefix, k),
    decreases k,
{
    if k > 0 {
        lemma_max_prefix(arts, made, prefix, k - 1);
        assert(arts.push(made)[k - 1] == arts[k - 1]);
    }
}

// ---------------------------------------------------------------------------
// Inheritance
// ---------------------------------------------------------------------------

/// A schema that extends an existing base keeps its own fields, after the
/// inherited ones; every field of the (resolved) base that it does not
/// redefine is inherited; its name and the base it names are its own.
pub proof fn law_child_keeps_own_fields(ss: Seq<SchemaModel>, i: int, fuel: nat, field: FieldModel)
    requires
        0 <= i < ss.len(),
        base_of(ss, i) is Some,
        fuel > 0,
    ensures
        ({
            let r = resolved(ss, i, fuel);
            let own = ss[i].fields;
            let base = resolved(ss, base_of(ss, i).unwrap(), (fuel - 1) as nat);
            &&& r.name == ss[i].name
            &&& r.extends == ss[i].extends
            &&& r.fields.len() >= own.len()
            &&& r.fields.subrange(r.fields.len() - own.len(), r.fields.len() as int) == own
            &&& (base.fields.contains(field) && !named_in(own, field.name) ==> r.fields.contains(field))
        }),
{
    let r = resolved(ss, i, fuel);
    let own = ss[i].fields;
    let base = resolved(ss, base_of(ss, i).unwrap(), (fuel - 1) as nat);
    let pred = |f: FieldModel| !named_in(own, f.name);
    let kept = base.fields.filter(pred);
    assert(r.fields == kept + own);
    assert(r.fields.subrange(r.fields.len() - own.len(), r.fields.len() as int) =~= own);
    if base.fields.contains(field) && !named_in(own, field.name) {
        broadcast use vstd::seq_lib::group_filter_ensures;
        let v = choose|v: int| 0 <= v < base.fields.len() && base.fields[v] == field;
        assert(pred(base.fields[v]));
        assert(kept.contains(field));
        let w = choose|w: int| 0 <= w < kept.len() && kept[w] == field;
        assert(r.fields[w] == field);
    }
}

// ---------------------------------------------------------------------------
// Relations
// ---------------------------------------------------------------------------

proof fn lemma_extend_keeps(list: Seq<Seq<char>>, ids: Seq<Seq<char>>, x: Seq<char>)
    requires
        list.contains(x),
    ensures
        extend_unique(list, ids).contains(x),
    decreases ids.len(),
{
    if ids.len() > 0 {
        if list.contains(ids[0]) {
            lemma_extend_keeps(list, ids.drop_first(), x);
        } else {
            let w = choose|w: int| 0 <= w < list.len() && list[w] == x;
            assert(list.push(ids[0])[w] == x);
            lemma_extend_keeps(list.push(ids[0]), ids.drop_first(), x);
        }
    }
}

proof fn lemma_extend_covers(list: Seq<Seq<char>>, ids: Seq<Seq<char>>)
    ensures
        forall|j: int| 0 <= j < ids.len() ==> extend_unique(list, ids).contains(#[trigger] ids[j]),
    decreases ids.len(),
{
    if ids.len() > 0 {
        let next = if list.contains(ids[0]) { list } else { list.push(ids[0]) };
        if !list.contains(ids[0]) {
            assert(list.push(ids[0])[list.len() as int] == ids[0]);
        }
        lemma_extend_covers(next, ids.drop_first());
        lemma_extend_keeps(next, ids.drop_first(), ids[0]);
        assert forall|j: int| 0 <= j < ids.len() implies extend_unique(list, ids).contains(#[trigger] ids[j]) by {
            if j > 0 {
                assert(ids.drop_first()[j - 1] == ids[j]);
            }
        }
    }
}

proof fn lemma_extend_nothing_new(list: Seq<Seq<char>>, ids: Seq<Seq<char>>)
    requires
        forall|j: int| 0 <= j < ids.len() ==> list.contains(#[trigger] ids[j]),
    ensures
        extend_unique(list, ids) == list,
    decreases ids.len(),
{
    if ids.len() > 0 {
        assert(list.contains(ids[0]));
        assert forall|j: int| 0 <= j < ids.drop_first().len() implies list.contains(#[trigger] ids.drop_first()[j]) by {
            assert(ids.drop_first()[j] == ids[j + 1]);
        }
        lemma_extend_nothing_new(list, ids.drop_first());
    }
}

/// Relating an artifact to the same IDs a second time adds nothing: the
/// related list after the first time already holds them all, so the second
/// `add_related` leaves the artifact as it is.
pub proof fn law_relate_twice(list: Seq<Seq<char>>, ids: Seq<Seq<char>>)
    ensures
        extend_unique(extend_unique(list, ids), ids) == extend_unique(list, ids),
{
    lemma_extend_covers(list, ids);
    lemma_extend_nothing_new(extend_unique(list, ids), ids);
}

// ---------------------------------------------------------------------------
// Diffs
// ---------------------------------------------------------------------------

/// A frontmatter compared with itself shows no change.
pub proof fn law_no_change_no_diff(m: Map<Seq<char>, Val>, r: Seq<FieldChange>)
    requires
        frontmatter_diff(m, m, r),
    ensures
        r.len() == 0,
{
    if r.len() > 0 {
        assert(change_of(m, m, r[0].field@) is None);
    }
}

/// Changing one field other than `updated` shows exactly that field.
pub proof fn law_one_change_one_diff(m: Map<Seq<char>, Val>, k: Seq<char>, v: Val, r: Seq<FieldChange>)
    requires
        k != "updated"@,
        m.contains_key(k) && m[k] != v,
        frontmatter_diff(m, m.insert(k, v), r),
    ensures
        r.len() == 1,
        r[0].field@ == k,
{
    let n = m.insert(k, v);
    assert(change_of(m, n, k) is Some);
    assert(change_fields(r).contains(k));
    assert forall|q: int| 0 <= q < r.len() implies (#[trigger] r[q]).field@ == k by {
        let f = r[q].field@;
        if f != k {
            assert(change_of(m, n, f) is None);
        }
    }
    if r.len() > 1 {
        assert(r[0].field@ == k && r[1].field@ == k);
        assert(crate::text::seq_less(change_fields(r)[0], change_fields(r)[1]));
        crate::sort::lemma_seq_less_irreflexive(k);
    }
}

// ---------------------------------------------------------------------------
// Rebalancing
// ---------------------------------------------------------------------------

proof fn lemma_changes(arts: Seq<Artifact>, order: Seq<usize>, gap: int, n: int, k: int)
    requires
        0 <= k < n <= order.len(),
        forall|a: int, b: int| 0 <= a < b < order.len() ==> order[a] != order[b],
    ensures
        ({
            let ch = rebalance_changes(arts, order, gap, n);
            &&& (exists|q: int| 0 <= q < ch.len() && ch[q].0 == order[k]) <==> int_field(
                arts[order[k] as int].frontmatter@,
                "priority"@,
            ) != Some(gap * (k + 1))
            &&& forall|q: int| 0 <= q < ch.len() && ch[q].0 == order[k] ==> ch[q].1 == gap * (k + 1)
        }),
    decreases n,
{
    let ch = rebalance_changes(arts, order, gap, n);
    let before = rebalance_changes(arts, order, gap, n - 1);
    lemma_changes_members(arts, order, gap, n - 1);
    if k < n - 1 {
        lemma_changes(arts, order, gap, n - 1, k);
        assert forall|q: int| 0 <= q < ch.len() && ch[q].0 == order[k] implies q < before.len() && ch[q] == before[q] by {
            if q >= before.len() {
                assert(ch[q].0 == order[n - 1]);
            }
        }
        if exists|q: int| 0 <= q < before.len() && before[q].0 == order[k] {
            let q = choose|q: int| 0 <= q < before.len() && before[q].0 == order[k];
            assert(ch[q] == before[q]);
        }
    } else {
        assert forall|q: int| 0 <= q < before.len() implies before[q].0 != order[k] by {
            let j = choose|j: int| 0 <= j < n - 1 && before[q].0 == order[j];
        }
        if int_field(arts[order[k] as int].frontmatter@, "priority"@) != Some(gap * (k + 1)) {
            assert(ch[before.len() as int].0 == order[k]);
        }
    }
}

proof fn lemma_changes_members(arts: Seq<Artifact>, order: Seq<usize>, gap: int, n: int)
    requires
        0 <= n <= order.len(),
    ensures
        forall|q: int| 0 <= q < rebalance_changes(arts, order, gap, n).len() ==> exists|j: int|
            0 <= j < n && #[trigger] rebalance_changes(arts, order, gap, n)[q].0 == order[j],
    decreases n,
{
    if n > 0 {
        lemma_changes_members(arts, order, gap, n - 1);
        let ch = rebalance_changes(arts, order, gap, n);
        let before = rebalance_changes(arts, order, gap, n - 1);
        assert forall|q: int| 0 <= q < ch.len() implies exists|j: int| 0 <= j < n && #[trigger] ch[q].0 == order[j] by {
            if q < before.len() {
                assert(ch[q] == before[q]);
                let j = choose|j: int| 0 <= j < n - 1 && before[q].0 == order[j];
            } else {
                assert(ch[q].0 == order[n - 1]);
            }
        }
    }
}

/// After a rebalance (its plan made by `rebalance_plan` and applied by
/// `apply_rebalance`), the artifacts in the order of the old priorities have
/// the priorities `gap`, `2 * gap`, `3 * gap`, ...
pub proof fn law_rebalance_spaces_evenly(
    before: Seq<Artifact>,
    after: Seq<Artifact>,
    order: Seq<usize>,
    gap: int,
    plan: Seq<(usize, i64)>,
    today: Seq<char>,
)
    requires
        forall|a: int, b: int| 0 <= a < b < order.len() ==> order[a] != order[b],
        forall|k: int| 0 <= k < order.len() ==> #[trigger] order[k] < before.len(),
        plan_view(plan) == rebalance_changes(before, order, gap, order.len() as int),
        rebalanced(before, after, plan, today),
    ensures
        forall|k: int| 0 <= k < order.len() ==> int_field(
            (#[trigger] after[order[k] as int]).frontmatter@,
            "priority"@,
        ) == Some(gap * (k + 1)),
{
    assert forall|k: int| 0 <= k < order.len() implies int_field(
        (#[trigger] after[order[k] as int]).frontmatter@,
        "priority"@,
    ) == Some(gap * (k + 1)) by {
        lemma_rebalance_one(before, after, order, gap, plan, today, k);
    }
}

proof fn lemma_rebalance_one(
    before: Seq<Artifact>,
    after: Seq<Artifact>,
    order: Seq<usize>,
    gap: int,
    plan: Seq<(usize, i64)>,
    today: Seq<char>,
    place: int,
)
    requires
        0 <= place < order.len(),
        forall|a: int, b: int| 0 <= a < b < order.len() ==> order[a] != order[b],
        forall|k: int| 0 <= k < order.len() ==> #[trigger] order[k] < before.len(),
        plan_view(plan) == rebalance_changes(before, order, gap, order.len() as int),
        rebalanced(before, after, plan, today),
    ensures
        int_field(after[order[place] as int].frontmatter@, "priority"@) == Some(gap * (place + 1)),
{
    lemma_changes(before, order, gap, order.len() as int, place);
    reveal_strlit("priority");
    reveal_strlit("updated");
    assert("priority"@[0] != "updated"@[0]);
    let ch = plan_view(plan);
    let i = order[place] as int;
    assert(0 <= i < after.len());
    if exists|k: int| 0 <= k < plan.len() && plan[k].0 == i {
        let k = choose|k: int| 0 <= k < plan.len() && plan[k].0 == i;
        assert(ch[k].0 == order[place]);
        assert(ch[k].1 == gap * (place + 1));
        assert(after[plan[k].0 as int].frontmatter@ == before[plan[k].0 as int].frontmatter@.insert(
            "priority"@,
            Val::Int(plan[k].1 as int),
        ).insert("updated"@, Val::Str(today)));
    } else {
        assert(forall|k: int| 0 <= k < plan.len() ==> plan[k].0 != i);
        assert(after[i].frontmatter@ == before[i].frontmatter@);
        if int_field(before[i].frontmatter@, "priority"@) != Some(gap * (place + 1)) {
            assert(exists|q: int| 0 <= q < ch.len() && ch[q].0 == order[place]);
            let q = choose|q: int| 0 <= q < ch.len() && ch[q].0 == order[place];
            assert(plan[q].0 == i);
        }
    }
}
// ---------------------------------------------------------------------------
// Supersession
// ---------------------------------------------------------------------------

proof fn lemma_last_same(before: Seq<Artifact>, after: Seq<Artifact>, t: Seq<char>, n: int)
    requires
        0 <= n <= before.len(),
        after.len() == before.len(),
        forall|i: int| 0 <= i < before.len() ==> #[trigger] id_of(after[i]) == id_of(before[i]),
    ensures
        last_with_id(after, t, n) == last_with_id(before, t, n),
    decreases n,
{
    if n > 0 {
        assert(id_of(after[n - 1]) == id_of(before[n - 1]));
        lemma_last_same(before, after, t, n - 1);
    }
}

proof fn lemma_last_in_range(arts: Seq<Artifact>, t: Seq<char>, n: int)
    requires
        0 <= n <= arts.len(),
    ensures
        last_with_id(arts, t, n) matches Some(j) ==> 0 <= j < n,
    decreases n,
{
    if n > 0 {
        lemma_last_in_range(arts, t, n - 1);
    }
}

proof fn lemma_fix_in_plan(arts: Seq<Artifact>, i: int, k: int)
    requires
        0 <= i < k <= arts.len(),
        fix_of(arts, i) is Some,
    ensures
        exists|q: int| 0 <= q < fixes_upto(arts, k).len() && fixes_upto(arts, k)[q] == fix_of(arts, i).unwrap(),
    decreases k,
{
    if k - 1 == i {
        let before = fixes_upto(arts, k - 1);
        assert(fixes_upto(arts, k)[before.len() as int] == fix_of(arts, i).unwrap());
    } else {
        lemma_fix_in_plan(arts, i, k - 1);
        let before = fixes_upto(arts, k - 1);
        let q = choose|q: int| 0 <= q < before.len() && before[q] == fix_of(arts, i).unwrap();
        assert(fixes_upto(arts, k)[q] == before[q]);
    }
}

proof fn lemma_no_fixes(arts: Seq<Artifact>, k: int)
    requires
        0 <= k <= arts.len(),
        forall|i: int| 0 <= i < k ==> #[trigger] fix_of(arts, i) is None,
    ensures
        fixes_upto(arts, k).len() == 0,
    decreases k,
{
    if k > 0 {
        assert(fix_of(arts, k - 1) is None);
        lemma_no_fixes(arts, k - 1);
    }
}

/// Lint's supersession fixes settle at once: once the planned fixes are
/// made, the same artifacts call for none.
pub proof fn law_supersession_fixes_settle(
    s: SchemaModel,
    before: Seq<Artifact>,
    after: Seq<Artifact>,
    fixes: Seq<(usize, String)>,
    today: Seq<char>,
)
    requires
        forall|i: int| 0 <= i < before.len() ==> (#[trigger] before[i]).wf(),
        fixes_view(fixes) == supersession_plan(s, before),
        supersession_applied(before, after, fixes, today),
    ensures
        supersession_plan(s, after).len() == 0,
{
    if crate::commands::lint::supersession_applies(s) {
        reveal_strlit("status");
        reveal_strlit("updated");
        reveal_strlit("id");
        reveal_strlit("supersedes");
        reveal_strlit("superseded");
        assert("id"@ != "status"@) by {
            assert("id"@[0] != "status"@[0]);
        }
        assert("id"@ != "updated"@) by {
            assert("id"@[0] != "updated"@[0]);
        }
        assert("supersedes"@ != "status"@) by {
            assert("supersedes"@[1] != "status"@[1]);
        }
        assert("supersedes"@ != "updated"@) by {
            assert("supersedes"@[0] != "updated"@[0]);
        }
        let n = before.len() as int;
        assert forall|i: int| 0 <= i < before.len() implies #[trigger] id_of(after[i]) == id_of(before[i]) by {
            assert(after[i].frontmatter@.contains_key("id"@) == before[i].frontmatter@.contains_key("id"@));
        }
        assert forall|i: int| 0 <= i < n implies #[trigger] fix_of(after, i) is None by {
            let a = after[i];
            let o = before[i];
            assert(str_field(a.frontmatter@, "supersedes"@) == str_field(o.frontmatter@, "supersedes"@));
            match str_field(o.frontmatter@, "supersedes"@) {
                Some(raw) => {
                    let t = crate::commands::lint::lead_token(raw);
                    if t.len() > 0 {
                        lemma_last_same(before, after, t, n);
                        lemma_last_in_range(before, t, n);
                        match last_with_id(before, t, n) {
                            Some(j) => {
                                let st = str_field(before[j].frontmatter@, "status"@);
                                if exists|k: int| 0 <= k < fixes.len() && fixes[k].0 == j {
                                    assert(str_field(after[j].frontmatter@, "status"@) == Some("superseded"@));
                                } else {
                                    assert(after[j].frontmatter@ == before[j].frontmatter@);
                                    if !(st == Some("superseded"@) || st == Some("deprecated"@)) {
                                        assert(fix_of(before, i) is Some);
                                        lemma_fix_in_plan(before, i, n);
                                        let q = choose|q: int| 0 <= q < fixes_upto(before, n).len() && fixes_upto(before, n)[q] == fix_of(before, i).unwrap();
                                        assert(fixes_view(fixes)[q].0 == j);
                                        assert(fixes[q].0 == j);
                                    }
                                }
                            },
                            None => {},
                        }
                    }
                },
                None => {},
            }
        }
        lemma_no_fixes(after, n);
    }
}

// ---------------------------------------------------------------------------
// Stats
// ---------------------------------------------------------------------------

/// The sum of the counts of groups.
pub open spec fn total_count(r: Seq<(Seq<char>, nat)>) -> nat
    decreases r.len(),
{
    if r.len() == 0 {
        0
    } else {
        total_count(r.drop_last()) + r.last().1
    }
}

/// How many of `names` are `k`.
spec fn hits(names: Seq<Seq<char>>, k: Seq<char>) -> nat
    decreases names.len(),
{
    if names.len() == 0 {
        0
    } else {
        hits(names.drop_last(), k) + if names.last() == k { 1nat } else { 0nat }
    }
}

/// The counts in `keys[0..n]` of each of `names`, added up.
spec fn sum_counts(names: Seq<Seq<char>>, keys: Seq<Seq<char>>, n: int) -> nat
    decreases names.len(),
{
    if names.len() == 0 {
        0
    } else {
        sum_counts(names.drop_last(), keys, n) + count_of(keys, names.last(), n)
    }
}

proof fn lemma_hits(names: Seq<Seq<char>>, k: Seq<char>)
    requires
        forall|i: int, j: int| 0 <= i < j < names.len() ==> names[i] != names[j],
    ensures
        hits(names, k) == if names.contains(k) { 1nat } else { 0nat },
    decreases names.len(),
{
    if names.len() > 0 {
        let init = names.drop_last();
        lemma_hits(init, k);
        if names.last() == k {
            assert(!init.contains(k)) by {
                if init.contains(k) {
                    let w = choose|w: int| 0 <= w < init.len() && init[w] == k;
                    assert(names[w] == names[names.len() - 1]);
                }
            }
            assert(names[names.len() - 1] == k);
        } else {
            assert(names.contains(k) == init.contains(k)) by {
                if names.contains(k) {
                    let w = choose|w: int| 0 <= w < names.len() && names[w] == k;
                    assert(init[w] == k);
                }
                if init.contains(k) {
                    let w = choose|w: int| 0 <= w < init.len() && init[w] == k;
                    assert(names[w] == k);
                }
            }
        }
    }
}

proof fn lemma_sum_counts_zero(names: Seq<Seq<char>>, keys: Seq<Seq<char>>)
    ensures
        sum_counts(names, keys, 0) == 0,
    decreases names.len(),
{
    if names.len() > 0 {
        lemma_sum_counts_zero(names.drop_last(), keys);
    }
}

proof fn lemma_sum_counts_step(names: Seq<Seq<char>>, keys: Seq<Seq<char>>, n: int)
    requires
        0 < n,
    ensures
        sum_counts(names, keys, n) == sum_counts(names, keys, n - 1) + hits(names, keys[n - 1]),
    decreases names.len(),
{
    if names.len() > 0 {
        lemma_sum_counts_step(names.drop_last(), keys, n);
    }
}

proof fn lemma_sum_counts_all(names: Seq<Seq<char>>, keys: Seq<Seq<char>>, n: int)
    requires
        0 <= n <= keys.len(),
        forall|i: int, j: int| 0 <= i < j < names.len() ==> names[i] != names[j],
        forall|i: int| 0 <= i < n ==> names.contains(#[trigger] keys[i]),
    ensures
        sum_counts(names, keys, n) == n,
    decreases n,
{
    if n == 0 {
        lemma_sum_counts_zero(names, keys);
    } else {
        lemma_sum_counts_all(names, keys, n - 1);
        lemma_sum_counts_step(names, keys, n);
        assert(names.contains(keys[n - 1]));
        lemma_hits(names, keys[n - 1]);
    }
}

proof fn lemma_total_is_sum(r: Seq<(Seq<char>, nat)>, keys: Seq<Seq<char>>)
    requires
        forall|q: int| 0 <= q < r.len() ==> #[trigger] r[q].1 == count_of(keys, r[q].0, keys.len() as int),
    ensures
        total_count(r) == sum_counts(group_names(r), keys, keys.len() as int),
    decreases r.len(),
{
    if r.len() > 0 {
        let init = r.drop_last();
        assert forall|q: int| 0 <= q < init.len() implies #[trigger] init[q].1 == count_of(keys, init[q].0, keys.len() as int) by {
            assert(init[q] == r[q]);
        }
        lemma_total_is_sum(init, keys);
        assert(group_names(r).drop_last() =~= group_names(init));
        assert(r[r.len() - 1].1 == count_of(keys, r[r.len() - 1].0, keys.len() as int));
    }
}

/// Counting by a field counts every artifact once: the counts of the groups
/// add up to the number of artifacts.
pub proof fn law_counts_cover_every_artifact(keys: Seq<Seq<char>>, r: Seq<(Seq<char>, nat)>)
    requires
        groups_of(keys, r),
    ensures
        total_count(r) == keys.len(),
{
    let names = group_names(r);
    assert forall|i: int, j: int| 0 <= i < j < names.len() implies names[i] != names[j] by {
        assert(seq_less(names[i], names[j]));
        lemma_seq_less_irreflexive(names[i]);
    }
    lemma_total_is_sum(r, keys);
    lemma_sum_counts_all(names, keys, keys.len() as int);
}

// ---------------------------------------------------------------------------
// Unique priorities
// ---------------------------------------------------------------------------

/// No two of `arts` have the same priority.
pub open spec fn priorities_unique(arts: Seq<Artifact>) -> bool {
    forall|i: int, j: int|
        0 <= i < j < arts.len() && (#[trigger] int_field(arts[i].frontmatter@, "priority"@)) is Some
            ==> int_field(arts[i].frontmatter@, "priority"@) != #[trigger] int_field(arts[j].frontmatter@, "priority"@)
}

/// The priority held in `m`, if any, is no artifact's of `existing`.
spec fn priority_free(m: Map<Seq<char>, Val>, existing: Seq<Artifact>) -> bool {
    int_field(m, "priority"@) is Some ==> !priority_taken(existing, int_field(m, "priority"@).unwrap(), None)
}

proof fn lemma_extras_keep_free(
    m: Map<Seq<char>, Val>,
    fs: Seq<FieldModel>,
    args: NewArgs,
    existing: Seq<Artifact>,
    es: Seq<(Seq<char>, Seq<char>)>,
)
    requires
        priority_free(m, existing),
        extra_failure(fs, args, existing, es) is None,
    ensures
        priority_free(with_extras(m, fs, es), existing),
    decreases es.len(),
{
    if es.len() > 0 {
        let k = es[0].0;
        let v = coerced(fs, k, es[0].1);
        let m1 = m.insert(k, v);
        if k == "priority"@ {
            assert(int_field(m1, "priority"@) == match v {
                Val::Int(p) => Some(p),
                _ => None,
            });
        } else {
            assert(int_field(m1, "priority"@) == int_field(m, "priority"@));
        }
        lemma_extras_keep_free(m1, fs, args, existing, es.drop_first());
    }
}

/// `new` keeps priorities unique: when the existing artifacts have distinct
/// priorities and `new` succeeds, the priorities are still distinct with the
/// artifact it makes added, whether the priority came from `--priority` or
/// from `--set priority=`.
pub proof fn law_new_keeps_priorities_unique(
    s: SchemaModel,
    args: NewArgs,
    existing: Seq<Artifact>,
    made: Artifact,
    id: Seq<char>,
    today: Seq<char>,
)
    requires
        priorities_unique(existing),
        new_failure(s, args, existing) is None,
        made.frontmatter@ == new_map(s, args, id, today),
    ensures
        priorities_unique(existing.push(made)),
{
    reveal_strlit("priority");
    reveal_strlit("id");
    reveal_strlit("title");
    reveal_strlit("status");
    reveal_strlit("project");
    reveal_strlit("type");
    reveal_strlit("tags");
    reveal_strlit("created");
    reveal_strlit("updated");
    let k = "priority"@;
    assert(k != "id"@ && k != "title"@ && k != "status"@ && k != "project"@) by {
        assert(k[0] != "id"@[0] && k[0] != "title"@[0] && k[0] != "status"@[0]);
        assert(k[2] != "project"@[2]);
    }
    assert(k != "type"@ && k != "tags"@ && k != "created"@ && k != "updated"@) by {
        assert(k[0] != "type"@[0] && k[0] != "tags"@[0] && k[0] != "created"@[0] && k[0] != "updated"@[0]);
    }
    let m0 = Map::<Seq<char>, Val>::empty().insert("id"@, Val::Str(id)).insert("title"@, Val::Str(args.title@));
    let m1 = with_status(m0, s, args);
    assert(!m1.contains_key(k));
    let m2 = match args.priority {
        Some(p) => m1.insert(k, Val::Int(p as int)),
        None => m1,
    };
    assert(priority_free(m2, existing));
    let m3 = with_text(m2, "project"@, opt_view(args.project));
    let m4 = with_text(m3, "type"@, opt_view(args.kind));
    let m5 = match args.tags {
        Some(t) => m4.insert("tags"@, Val::List(Seq::new(t@.len(), |i: int| Val::Str(t@[i]@)))),
        None => m4,
    };
    assert(int_field(m5, k) == int_field(m2, k));
    let m6 = match args.extra_fields {
        Some(e) => with_extras(m5, s.fields, pairs_view(e@)),
        None => m5,
    };
    match args.extra_fields {
        Some(e) => {
            lemma_extras_keep_free(m5, s.fields, args, existing, pairs_view(e@));
        },
        None => {},
    }
    let m7 = m6.insert("created"@, Val::Str(today)).insert("updated"@, Val::Str(today));
    assert(made.frontmatter@ == m7);
    assert(int_field(m7, k) == int_field(m6, k));
    let all = existing.push(made);
    let n = existing.len() as int;
    assert(all[n] == made);
    assert forall|i: int, j: int|
        0 <= i < j < all.len() && (#[trigger] int_field(all[i].frontmatter@, "priority"@)) is Some implies int_field(
            all[i].frontmatter@,
            "priority"@,
        ) != #[trigger] int_field(all[j].frontmatter@, "priority"@) by {
        assert(all[i] == existing[i]);
        if j < n {
            assert(all[j] == existing[j]);
        } else {
            if int_field(existing[i].frontmatter@, k) == int_field(made.frontmatter@, k) {
                let q = int_field(made.frontmatter@, k).unwrap();
                assert(priority_clash(existing[i], q, None));
            }
        }
    }
}

// ---------------------------------------------------------------------------
// Slugs and the project root
// ---------------------------------------------------------------------------

/// Every character of `w` is alphanumeric.
spec fn all_alnum(w: Seq<char>) -> bool {
    forall|i: int| 0 <= i < w.len() ==> alphanumeric(#[trigger] w[i])
}

proof fn lemma_runs_props(s: Seq<char>)
    ensures
        forall|i: int| 0 <= i < runs(s).0.len() ==> (#[trigger] runs(s).0[i]).len() > 0 && all_alnum(runs(s).0[i]),
        all_alnum(runs(s).1),
    decreases s.len(),
{
    if s.len() > 0 {
        lemma_runs_props(s.drop_last());
        let (done, cur) = runs(s.drop_last());
        if alphanumeric(s.last()) {
            assert forall|i: int| 0 <= i < cur.push(s.last()).len() implies alphanumeric(#[trigger] cur.push(s.last())[i]) by {
                if i < cur.len() {
                    assert(cur.push(s.last())[i] == cur[i]);
                }
            }
        } else if cur.len() > 0 {
            assert forall|i: int| 0 <= i < done.push(cur).len() implies (#[trigger] done.push(cur)[i]).len() > 0
                && all_alnum(done.push(cur)[i]) by {
                if i < done.len() {
                    assert(done.push(cur)[i] == done[i]);
                }
            }
        }
    }
}

proof fn lemma_runs_append_alnum(x: Seq<char>, w: Seq<char>)
    requires
        all_alnum(w),
    ensures
        runs(x + w) == (runs(x).0, runs(x).1 + w),
    decreases w.len(),
{
    if w.len() == 0 {
        assert(x + w =~= x);
        assert(runs(x).1 + w =~= runs(x).1);
    } else {
        let w1 = w.drop_last();
        assert forall|i: int| 0 <= i < w1.len() implies alphanumeric(#[trigger] w1[i]) by {
            assert(w1[i] == w[i]);
        }
        lemma_runs_append_alnum(x, w1);
        assert((x + w).drop_last() =~= x + w1);
        assert((x + w).last() == w.last());
        assert(alphanumeric(w[w.len() - 1]));
        assert((runs(x).1 + w1).push(w.last()) =~= runs(x).1 + w);
    }
}

proof fn lemma_words_of_join(ws: Seq<Seq<char>>)
    requires
        !alphanumeric('-'),
        forall|i: int| 0 <= i < ws.len() ==> (#[trigger] ws[i]).len() > 0 && all_alnum(ws[i]),
    ensures
        words(join_spec(ws, seq!['-'])) == ws,
        ws.len() > 0 ==> runs(join_spec(ws, seq!['-'])) == (ws.drop_last(), ws.last()),
    decreases ws.len(),
{
    if ws.len() == 0 {
        assert(words(Seq::<char>::empty()) =~= Seq::<Seq<char>>::empty());
    } else if ws.len() == 1 {
        assert(ws[0].len() > 0 && all_alnum(ws[0]));
        lemma_runs_append_alnum(Seq::empty(), ws[0]);
        assert(Seq::<char>::empty() + ws[0] =~= ws[0]);
        assert(Seq::<char>::empty() + ws[0] =~= ws[0]);
        assert(ws.drop_last() =~= Seq::<Seq<char>>::empty());
        assert(words(ws[0]) =~= ws);
    } else {
        let init = ws.drop_last();
        assert forall|i: int| 0 <= i < init.len() implies (#[trigger] init[i]).len() > 0 && all_alnum(init[i]) by {
            assert(init[i] == ws[i]);
        }
        lemma_words_of_join(init);
        let j = join_spec(init, seq!['-']);
        let jd = j + seq!['-'];
        assert(jd.drop_last() =~= j);
        assert(jd.last() == '-');
        assert(runs(jd) == (init, Seq::<char>::empty())) by {
            assert(init.drop_last().push(init.last()) =~= init);
        }
        assert(ws.last().len() > 0 && all_alnum(ws.last()));
        lemma_runs_append_alnum(jd, ws.last());
        assert(Seq::<char>::empty() + ws.last() =~= ws.last());
        assert(init.push(ws.last()) =~= ws);
    }
}

/// A slug is its own slug: when the slug of a title is already lower case
/// (lowercasing leaves it as it is) and `-` is not alphanumeric, slugifying
/// the slug gives it back.
pub proof fn law_slug_is_stable(title: Seq<char>)
    requires
        !alphanumeric('-'),
        lowercase(slug(title)) == slug(title),
    ensures
        slug(slug(title)) == slug(title),
{
    let ws = words(lowercase(title));
    lemma_runs_props(lowercase(title));
    let (done, cur) = runs(lowercase(title));
    assert forall|i: int| 0 <= i < ws.len() implies (#[trigger] ws[i]).len() > 0 && all_alnum(ws[i]) by {
        if cur.len() > 0 && i == done.len() {
            assert(ws[i] == cur);
        } else {
            assert(ws[i] == done[i]);
        }
    }
    lemma_words_of_join(ws);
}

proof fn lemma_first_marked(has_ark: Seq<bool>, n: int)
    requires
        0 <= n <= has_ark.len(),
    ensures
        first_marked(has_ark, n) matches Some(k) ==> 0 <= k < n && has_ark[k] && forall|j: int| 0 <= j < k ==> !has_ark[j],
        first_marked(has_ark, n) is None ==> forall|j: int| 0 <= j < n ==> !has_ark[j],
    decreases n,
{
    if n > 0 {
        lemma_first_marked(has_ark, n - 1);
    }
}

proof fn lemma_first_marked_is(has_ark: Seq<bool>, n: int, k: int)
    requires
        0 <= k < n <= has_ark.len(),
        has_ark[k],
        forall|j: int| 0 <= j < k ==> !has_ark[j],
    ensures
        first_marked(has_ark, n) == Some(k),
    decreases n,
{
    if n - 1 > k {
        lemma_first_marked_is(has_ark, n - 1, k);
    } else {
        lemma_first_marked(has_ark, n - 1);
    }
}

/// The root is found again from itself: when the walk up from a directory
/// (its ancestors `has_ark` tells which hold `.ark`) stops at the `k`-th of
/// them, the walk from that one, whose ancestors are the rest of the list,
/// stops at once.
pub proof fn law_root_found_from_itself(has_ark: Seq<bool>, k: int)
    requires
        first_marked(has_ark, has_ark.len() as int) == Some(k),
    ensures
        0 <= k < has_ark.len(),
        first_marked(has_ark.skip(k), has_ark.len() - k) == Some(0int),
{
    lemma_first_marked(has_ark, has_ark.len() as int);
    lemma_first_marked_is(has_ark.skip(k), has_ark.len() - k, 0);
}

} // verus!
