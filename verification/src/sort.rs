//! Stable sorting by keys made of an integer and a list of strings, compared
//! in that order (strings by `str`'s order, lists lexicographically).
use vstd::prelude::*;

use crate::text::{seq_less, str_eq, str_less};

verus! {

proof fn lemma_char_code_injective(x: char, y: char)
    requires
        x != y,
    ensures
        (x as u32) != (y as u32),
{
    assert(x as int != y as int);
}

pub proof fn lemma_seq_less_irreflexive(a: Seq<char>)
    ensures
        !seq_less(a, a),
    decreases a.len(),
{
    if a.len() > 0 {
        lemma_seq_less_irreflexive(a.drop_first());
    }
}

proof fn lemma_seq_less_transitive(a: Seq<char>, b: Seq<char>, c: Seq<char>)
    requires
        seq_less(a, b),
        seq_less(b, c),
    ensures
        seq_less(a, c),
    decreases a.len(),
{
    if a.len() > 0 && b.len() > 0 && c.len() > 0 {
        if a[0] == b[0] && b[0] == c[0] {
            lemma_seq_less_transitive(a.drop_first(), b.drop_first(), c.drop_first());
        }
    }
}

proof fn lemma_seq_less_total(a: Seq<char>, b: Seq<char>)
    ensures
        a == b || seq_less(a, b) || seq_less(b, a),
    decreases a.len(),
{
    if a.len() > 0 && b.len() > 0 {
        if a[0] == b[0] {
            lemma_seq_less_total(a.drop_first(), b.drop_first());
            if a.drop_first() == b.drop_first() {
                assert(a =~= seq![a[0]] + a.drop_first());
                assert(b =~= seq![b[0]] + b.drop_first());
            }
        } else {
            lemma_char_code_injective(a[0], b[0]);
        }
    } else if a.len() == 0 && b.len() == 0 {
        assert(a =~= b);
    }
}

proof fn lemma_seq_less_asymmetric(a: Seq<char>, b: Seq<char>)
    requires
        seq_less(a, b),
    ensures
        !seq_less(b, a),
{
    if seq_less(b, a) {
        lemma_seq_less_transitive(a, b, a);
        lemma_seq_less_irreflexive(a);
    }
}

/// Lexicographic order on lists of strings: element by element, a proper prefix first.
pub open spec fn list_less(a: Seq<Seq<char>>, b: Seq<Seq<char>>) -> bool
    decreases a.len(),
{
    if a.len() == 0 {
        b.len() > 0
    } else if b.len() == 0 {
        false
    } else if a[0] != b[0] {
        seq_less(a[0], b[0])
    } else {
        list_less(a.drop_first(), b.drop_first())
    }
}

proof fn lemma_list_less_irreflexive(a: Seq<Seq<char>>)
    ensures
        !list_less(a, a),
    decreases a.len(),
{
    if a.len() > 0 {
        lemma_list_less_irreflexive(a.drop_first());
    }
}

proof fn lemma_list_less_transitive(a: Seq<Seq<char>>, b: Seq<Seq<char>>, c: Seq<Seq<char>>)
    requires
        list_less(a, b),
        list_less(b, c),
    ensures
        list_less(a, c),
    decreases a.len(),
{
    if a.len() > 0 && b.len() > 0 && c.len() > 0 {
        if a[0] == b[0] && b[0] == c[0] {
            lemma_list_less_transitive(a.drop_first(), b.drop_first(), c.drop_first());
        } else if a[0] == b[0] {
        } else if b[0] == c[0] {
        } else {
            lemma_seq_less_transitive(a[0], b[0], c[0]);
            if a[0] == c[0] {
                lemma_seq_less_asymmetric(a[0], b[0]);
            }
        }
    }
}

proof fn lemma_list_less_total(a: Seq<Seq<char>>, b: Seq<Seq<char>>)
    ensures
        a == b || list_less(a, b) || list_less(b, a),
    decreases a.len(),
{
    if a.len() > 0 && b.len() > 0 {
        if a[0] == b[0] {
            lemma_list_less_total(a.drop_first(), b.drop_first());
            if a.drop_first() == b.drop_first() {
                assert(a =~= seq![a[0]] + a.drop_first());
                assert(b =~= seq![b[0]] + b.drop_first());
            }
        } else {
            lemma_seq_less_total(a[0], b[0]);
        }
    } else if a.len() == 0 && b.len() == 0 {
        assert(a =~= b);
    }
}

/// A sort key: an integer compared first, then a list of strings.
pub struct SortKey {
    pub num: i64,
    pub text: Vec<String>,
}

/// The model of a sort key.
pub open spec fn key_model(k: SortKey) -> (int, Seq<Seq<char>>) {
    (k.num as int, Seq::new(k.text@.len(), |i: int| k.text@[i]@))
}

/// `a` sorts strictly before `b`.
pub open spec fn key_less(a: (int, Seq<Seq<char>>), b: (int, Seq<Seq<char>>)) -> bool {
    a.0 < b.0 || (a.0 == b.0 && list_less(a.1, b.1))
}

proof fn lemma_key_order(a: (int, Seq<Seq<char>>), b: (int, Seq<Seq<char>>), c: (int, Seq<Seq<char>>))
    ensures
        !key_less(a, a),
        key_less(a, b) && key_less(b, c) ==> key_less(a, c),
        a == b || key_less(a, b) || key_less(b, a),
{
    lemma_list_less_irreflexive(a.1);
    if key_less(a, b) && key_less(b, c) && a.0 == b.0 && b.0 == c.0 {
        lemma_list_less_transitive(a.1, b.1, c.1);
    }
    lemma_list_less_total(a.1, b.1);
}

/// In a stable sort by `keys`, position `x` comes before position `y`.
pub open spec fn comes_before(keys: Seq<(int, Seq<Seq<char>>)>, x: int, y: int) -> bool {
    key_less(keys[x], keys[y]) || (keys[x] == keys[y] && x < y)
}

/// `p` lists every position of `keys` once, in the order of a stable sort.
pub open spec fn stable_order(keys: Seq<(int, Seq<Seq<char>>)>, p: Seq<usize>) -> bool {
    &&& p.len() == keys.len()
    &&& forall|i: int| 0 <= i < p.len() ==> #[trigger] p[i] < keys.len()
    &&& forall|i: int, j: int| 0 <= i < j < p.len() ==> comes_before(keys, p[i] as int, p[j] as int)
    &&& forall|k: usize| k < keys.len() ==> #[trigger] p.contains(k)
}

/// Whether `a` sorts strictly before `b`.
fn text_less(a: &Vec<String>, b: &Vec<String>) -> (r: bool)
    ensures
        r == list_less(Seq::new(a@.len(), |i: int| a@[i]@), Seq::new(b@.len(), |i: int| b@[i]@)),
{
    let ghost am = Seq::new(a@.len(), |i: int| a@[i]@);
    let ghost bm = Seq::new(b@.len(), |i: int| b@[i]@);
    let mut i: usize = 0;
    assert(am.skip(0) =~= am);
    assert(bm.skip(0) =~= bm);
    while i < a.len() && i < b.len() && str_eq(a[i].as_str(), b[i].as_str())
        invariant
            am == Seq::new(a@.len(), |i: int| a@[i]@),
            bm == Seq::new(b@.len(), |i: int| b@[i]@),
            i <= a@.len(),
            i <= b@.len(),
            list_less(am, bm) == list_less(am.skip(i as int), bm.skip(i as int)),
        decreases a@.len() - i,
    {
        assert(am.skip(i as int).drop_first() =~= am.skip(i + 1));
        assert(bm.skip(i as int).drop_first() =~= bm.skip(i + 1));
        i += 1;
    }
    if i == a.len() {
        i < b.len()
    } else if i == b.len() {
        false
    } else {
        str_less(a[i].as_str(), b[i].as_str())
    }
}

/// Whether key `a` sorts strictly before key `b`.
fn less(a: &SortKey, b: &SortKey) -> (r: bool)
    ensures
        r == key_less(key_model(*a), key_model(*b)),
{
    a.num < b.num || (a.num == b.num && text_less(&a.text, &b.text))
}

/// The positions of `keys` in the order of a stable sort: by key, and equal
/// keys in their original order.
pub fn stable_sort(keys: &Vec<SortKey>) -> (p: Vec<usize>)
    ensures
        stable_order(Seq::new(keys@.len(), |i: int| key_model(keys@[i])), p@),
{
    let ghost km = Seq::new(keys@.len(), |i: int| key_model(keys@[i]));
    let mut p: Vec<usize> = Vec::new();
    let mut n: usize = 0;
    while n < keys.len()
        invariant
            km == Seq::new(keys@.len(), |i: int| key_model(keys@[i])),
            n <= keys@.len(),
            p@.len() == n,
            forall|i: int| 0 <= i < p@.len() ==> #[trigger] p@[i] < n,
            forall|i: int, j: int| 0 <= i < j < p@.len() ==> comes_before(km, p@[i] as int, p@[j] as int),
            forall|k: usize| k < n ==> #[trigger] p@.contains(k),
        decreases keys@.len() - n,
    {
        // Find the first position whose key is greater than that of `n`.
        let mut pos: usize = 0;
        while pos < p.len() && !less(&keys[n], &keys[p[pos]])
            invariant
                km == Seq::new(keys@.len(), |i: int| key_model(keys@[i])),
                n < keys@.len(),
                pos <= p@.len(),
                forall|i: int| 0 <= i < p@.len() ==> #[trigger] p@[i] < n,
                forall|i: int| 0 <= i < pos ==> !key_less(km[n as int], km[#[trigger] p@[i] as int]),
            decreases p@.len() - pos,
        {
            pos += 1;
        }
        let ghost old_p = p@;
        p.insert(pos, n);
        assert forall|k: usize| k < n + 1 implies #[trigger] p@.contains(k) by {
            if k == n {
                assert(p@[pos as int] == n);
            } else {
                assert(old_p.contains(k));
                let w = choose|w: int| 0 <= w < old_p.len() && old_p[w] == k;
                if w < pos {
                    assert(p@[w] == k);
                } else {
                    assert(p@[w + 1] == k);
                }
            }
        }
        assert forall|i: int, j: int| 0 <= i < j < p@.len() implies comes_before(km, p@[i] as int, p@[j] as int) by {
            if i < pos && j == pos {
                // key(old[i]) <= key(n), and old[i] < n
                lemma_key_order(km[old_p[i] as int], km[n as int], km[n as int]);
            } else if i == pos && j > pos {
                // key(n) < key(old[pos]) <= key(old[j - 1])
                let y = old_p[j - 1] as int;
                let z = old_p[pos as int] as int;
                if j - 1 > pos {
                    assert(comes_before(km, z, y));
                    lemma_key_order(km[n as int], km[z], km[y]);
                }
            } else if i < pos && j > pos {
                assert(comes_before(km, old_p[i] as int, old_p[j - 1] as int));
            } else if j < pos {
                assert(comes_before(km, old_p[i] as int, old_p[j] as int));
            } else {
                assert(comes_before(km, old_p[i - 1] as int, old_p[j - 1] as int));
            }
        }
        n += 1;
    }
    p
}

/// `s` lists the characters sequences in increasing order, each once.
pub open spec fn strictly_ascending(s: Seq<Seq<char>>) -> bool {
    forall|i: int, j: int| 0 <= i < j < s.len() ==> seq_less(s[i], s[j])
}

/// The views of a vector of strings.
pub open spec fn str_views(v: Seq<String>) -> Seq<Seq<char>> {
    Seq::new(v.len(), |i: int| v[i]@)
}

/// Distinct strings in ascending order.
pub fn sort_distinct_strings(v: &Vec<String>) -> (r: Vec<String>)
    requires
        forall|i: int, j: int| 0 <= i < j < v@.len() ==> v@[i]@ != v@[j]@,
    ensures
        r@.len() == v@.len(),
        strictly_ascending(str_views(r@)),
        forall|i: int| 0 <= i < v@.len() ==> str_views(r@).contains(#[trigger] v@[i]@),
        forall|q: int| 0 <= q < r@.len() ==> str_views(v@).contains(#[trigger] r@[q]@),
{
    let mut keys: Vec<SortKey> = Vec::new();
    let mut i: usize = 0;
    while i < v.len()
        invariant
            i <= v@.len(),
            keys@.len() == i,
            forall|k: int| 0 <= k < i ==> #[trigger] key_model(keys@[k]) == (0int, seq![v@[k]@]),
        decreases v@.len() - i,
    {
        let mut text: Vec<String> = Vec::new();
        text.push(v[i].clone());
        assert(Seq::new(text@.len(), |q: int| text@[q]@) =~= seq![v@[i as int]@]);
        keys.push(SortKey { num: 0, text });
        i += 1;
    }
    let order = stable_sort(&keys);
    let ghost km = Seq::new(keys@.len(), |q: int| key_model(keys@[q]));
    let mut out: Vec<String> = Vec::new();
    let mut t: usize = 0;
    while t < order.len()
        invariant
            km == Seq::new(keys@.len(), |q: int| key_model(keys@[q])),
            keys@.len() == v@.len(),
            stable_order(km, order@),
            t <= order@.len(),
            out@.len() == t,
            forall|q: int| 0 <= q < t ==> #[trigger] out@[q]@ == v@[order@[q] as int]@,
        decreases order@.len() - t,
    {
        out.push(v[order[t]].clone());
        t += 1;
    }
    proof {
        let sv = str_views(out@);
        assert forall|a: int, b: int| 0 <= a < b < sv.len() implies seq_less(sv[a], sv[b]) by {
            let x = order@[a] as int;
            let y = order@[b] as int;
            assert(comes_before(km, x, y));
            assert(km[x] == (0int, seq![v@[x]@]));
            assert(km[y] == (0int, seq![v@[y]@]));
            lemma_key_order(km[x], km[y], km[x]);
            if km[x] == km[y] {
                assert(seq![v@[x]@][0] == seq![v@[y]@][0]);
                if x != y {
                    if x < y {
                        assert(v@[x]@ != v@[y]@);
                    } else {
                        assert(v@[y]@ != v@[x]@);
                    }
                }
                assert(x < y);
                assert(false);
            } else {
                assert(list_less(seq![v@[x]@], seq![v@[y]@]));
                if v@[x]@ == v@[y]@ {
                    assert(seq![v@[x]@] =~= seq![v@[y]@]);
                }
            }
        }
        assert forall|i: int| 0 <= i < v@.len() implies sv.contains(#[trigger] v@[i]@) by {
            assert(order@.contains(i as usize));
            let q = choose|q: int| 0 <= q < order@.len() && order@[q] == i as usize;
            assert(sv[q] == v@[i]@);
        }
        assert forall|q: int| 0 <= q < out@.len() implies str_views(v@).contains(#[trigger] out@[q]@) by {
            let x = order@[q] as int;
            assert(str_views(v@)[x] == out@[q]@);
        }
    }
    out
}

/// The positions `0..n` kept by `keep`, in increasing order.
pub open spec fn positions(n: int, keep: spec_fn(int) -> bool) -> Seq<usize>
    decreases n,
{
    if n <= 0 {
        Seq::empty()
    } else if keep(n - 1) {
        positions(n - 1, keep).push((n - 1) as usize)
    } else {
        positions(n - 1, keep)
    }
}

/// `r` lists the positions `cand` in the order of a stable sort by `km`,
/// where `km[k]` is the key of position `cand[k]`.
pub open spec fn sorted_by_keys(km: Seq<(int, Seq<Seq<char>>)>, cand: Seq<usize>, r: Seq<usize>) -> bool {
    exists|p: Seq<usize>| #[trigger] stable_order(km, p) && p.len() == cand.len() && r == Seq::new(p.len(), |q: int| cand[p[q] as int])
}

/// The positions `cand` in the order of a stable sort by `keys`
/// (`keys[k]` being the key of `cand[k]`).
pub fn order_by(cand: &Vec<usize>, keys: &Vec<SortKey>) -> (r: Vec<usize>)
    requires
        cand@.len() == keys@.len(),
    ensures
        sorted_by_keys(Seq::new(keys@.len(), |i: int| key_model(keys@[i])), cand@, r@),
{
    let ghost km = Seq::new(keys@.len(), |i: int| key_model(keys@[i]));
    let p = stable_sort(keys);
    let mut out: Vec<usize> = Vec::new();
    let mut q: usize = 0;
    while q < p.len()
        invariant
            km == Seq::new(keys@.len(), |i: int| key_model(keys@[i])),
            stable_order(km, p@),
            cand@.len() == keys@.len(),
            q <= p@.len(),
            out@.len() == q,
            forall|k: int| 0 <= k < q ==> #[trigger] out@[k] == cand@[p@[k] as int],
        decreases p@.len() - q,
    {
        out.push(cand[p[q]]);
        q += 1;
    }
    assert(out@ =~= Seq::new(p@.len(), |k: int| cand@[p@[k] as int]));
    out
}

/// The positions kept among `0..n` are below `n` and increase.
/// Each position kept by `positions` passes `keep`.
pub proof fn lemma_positions_keep(n: int, keep: spec_fn(int) -> bool)
    requires
        n <= usize::MAX,
    ensures
        forall|a: int| 0 <= a < positions(n, keep).len() ==> keep(#[trigger] positions(n, keep)[a] as int),
    decreases n,
{
    if n > 0 {
        lemma_positions_keep(n - 1, keep);
        if keep(n - 1) {
            assert(((n - 1) as usize) as int == n - 1);
            assert forall|a: int| 0 <= a < positions(n, keep).len() implies keep(
                #[trigger] positions(n, keep)[a] as int,
            ) by {
                if a < positions(n - 1, keep).len() {
                    assert(positions(n, keep)[a] == positions(n - 1, keep)[a]);
                }
            }
        }
    }
}

pub proof fn lemma_positions(n: int, keep: spec_fn(int) -> bool)
    requires
        n <= usize::MAX,
    ensures
        forall|a: int| 0 <= a < positions(n, keep).len() ==> #[trigger] positions(n, keep)[a] < n,
        forall|a: int, b: int| 0 <= a < b < positions(n, keep).len() ==> positions(n, keep)[a] < positions(n, keep)[b],
        positions(n, keep).len() <= if n < 0 { 0 } else { n },
    decreases n,
{
    if n > 0 {
        lemma_positions(n - 1, keep);
    }
}

/// A stable sort of distinct positions lists each of them once.
pub proof fn lemma_sorted_members(km: Seq<(int, Seq<Seq<char>>)>, cand: Seq<usize>, r: Seq<usize>)
    requires
        sorted_by_keys(km, cand, r),
        km.len() == cand.len(),
        forall|a: int, b: int| 0 <= a < b < cand.len() ==> cand[a] != cand[b],
    ensures
        r.len() == cand.len(),
        forall|q: int| 0 <= q < r.len() ==> #[trigger] cand.contains(r[q]),
        forall|a: int, b: int| 0 <= a < b < r.len() ==> r[a] != r[b],
{
    let p = choose|p: Seq<usize>| #[trigger] stable_order(km, p) && p.len() == cand.len() && r == Seq::new(
        p.len(),
        |q: int| cand[p[q] as int],
    );
    assert forall|q: int| 0 <= q < r.len() implies #[trigger] cand.contains(r[q]) by {
        assert(p[q] < km.len());
        assert(cand[p[q] as int] == r[q]);
    }
    assert forall|a: int, b: int| 0 <= a < b < r.len() implies r[a] != r[b] by {
        assert(comes_before(km, p[a] as int, p[b] as int));
        lemma_key_order(km[p[a] as int], km[p[a] as int], km[p[a] as int]);
        assert(p[a] != p[b]);
        if p[a] < p[b] {
            assert(cand[p[a] as int] != cand[p[b] as int]);
        } else {
            assert(cand[p[b] as int] != cand[p[a] as int]);
        }
    }
}

} // verus!
