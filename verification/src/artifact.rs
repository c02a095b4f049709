//! Artifacts: markdown files with frontmatter, their fields, IDs and file names.
use vstd::prelude::*;

use crate::sort::{key_model, list_less, stable_order, stable_sort, SortKey};
use crate::text::{
    alphanumeric, chars_of, has_prefix, is_alphanumeric, join_spec, lowercase, seq_less, str_eq,
    string_of, to_lowercase,
};
use crate::json::{from_json_text, json_parse, pretty_json, to_json_text, to_pretty_json_text};
use crate::schema::{entries_deep, object, opt_view};
use crate::value::{Frontmatter, Val, Value};

verus! {

/// A markdown artifact: where it was read from, its frontmatter, the body
/// after the frontmatter, and the file's full text.
pub struct Artifact {
    pub path: String,
    pub frontmatter: Frontmatter,
    pub body: String,
    pub raw: String,
}

/// The string held under `k`, if `k` holds a string.
pub open spec fn str_field(fm: Map<Seq<char>, Val>, k: Seq<char>) -> Option<Seq<char>> {
    if fm.contains_key(k) {
        match fm[k] {
            Val::Str(s) => Some(s),
            _ => None,
        }
    } else {
        None
    }
}

/// The integer held under `k`, if `k` holds an integer.
pub open spec fn int_field(fm: Map<Seq<char>, Val>, k: Seq<char>) -> Option<int> {
    if fm.contains_key(k) {
        match fm[k] {
            Val::Int(i) => Some(i),
            _ => None,
        }
    } else {
        None
    }
}

/// The strings among `items`, in order.
pub open spec fn strings_in(items: Seq<Val>) -> Seq<Seq<char>>
    decreases items.len(),
{
    if items.len() == 0 {
        Seq::empty()
    } else {
        match items.last() {
            Val::Str(s) => strings_in(items.drop_last()).push(s),
            _ => strings_in(items.drop_last()),
        }
    }
}

/// The strings of the list held under `k` (empty when `k` holds no list).
pub open spec fn list_field(fm: Map<Seq<char>, Val>, k: Seq<char>) -> Seq<Seq<char>> {
    if fm.contains_key(k) {
        match fm[k] {
            Val::List(items) => strings_in(items),
            _ => Seq::empty(),
        }
    } else {
        Seq::empty()
    }
}

/// The model of an optional string slice.
pub open spec fn opt_str(o: Option<&str>) -> Option<Seq<char>> {
    match o {
        Some(s) => Some(s@),
        None => None,
    }
}

impl Artifact {
    /// Well-formedness: the frontmatter has no key twice.
    pub open spec fn wf(&self) -> bool {
        self.frontmatter.wf()
    }

    /// The string field `key`.
    pub fn get_str(&self, key: &str) -> (r: Option<&str>)
        requires
            self.wf(),
        ensures
            opt_str(r) == str_field(self.frontmatter@, key@),
    {
        match self.frontmatter.get(key) {
            Some(Value::Str(s)) => Some(s.as_str()),
            _ => None,
        }
    }

    /// The artifact's ID.
    pub fn id(&self) -> (r: Option<&str>)
        requires
            self.wf(),
        ensures
            opt_str(r) == str_field(self.frontmatter@, "id"@),
    {
        self.get_str("id")
    }

    /// The artifact's title.
    pub fn title(&self) -> (r: Option<&str>)
        requires
            self.wf(),
        ensures
            opt_str(r) == str_field(self.frontmatter@, "title"@),
    {
        self.get_str("title")
    }

    /// The artifact's status.
    pub fn status(&self) -> (r: Option<&str>)
        requires
            self.wf(),
        ensures
            opt_str(r) == str_field(self.frontmatter@, "status"@),
    {
        self.get_str("status")
    }

    /// The artifact's priority, when it is an integer.
    pub fn priority(&self) -> (r: Option<i64>)
        requires
            self.wf(),
        ensures
            match r {
                Some(p) => int_field(self.frontmatter@, "priority"@) == Some(p as int),
                None => int_field(self.frontmatter@, "priority"@) is None,
            },
    {
        match self.frontmatter.get("priority") {
            Some(Value::Int(i)) => Some(*i),
            _ => None,
        }
    }

    /// The strings in the list field `key`.
    pub fn get_list(&self, key: &str) -> (r: Vec<String>)
        requires
            self.wf(),
        ensures
            Seq::new(r@.len(), |i: int| r@[i]@) == list_field(self.frontmatter@, key@),
    {
        let mut out: Vec<String> = Vec::new();
        match self.frontmatter.get(key) {
            Some(Value::List(items)) => {
                let ghost im = Seq::new(items@.len(), |i: int| items@[i].deep());
                let mut i: usize = 0;
                assert(im.take(0) =~= Seq::<Val>::empty());
                while i < items.len()
                    invariant
                        im == Seq::new(items@.len(), |i: int| items@[i].deep()),
                        i <= items@.len(),
                        Seq::new(out@.len(), |k: int| out@[k]@) == strings_in(im.take(i as int)),
                    decreases items@.len() - i,
                {
                    assert(im.take(i + 1).drop_last() =~= im.take(i as int));
                    let ghost before = Seq::new(out@.len(), |k: int| out@[k]@);
                    match &items[i] {
                        Value::Str(s) => {
                            out.push(s.clone());
                            assert(Seq::new(out@.len(), |k: int| out@[k]@) =~= before.push(s@));
                        },
                        _ => {},
                    }
                    i += 1;
                }
                assert(im.take(items@.len() as int) =~= im);
                assert(self.frontmatter@[key@]->List_0 =~= im);
            },
            _ => {
                assert(Seq::new(out@.len(), |k: int| out@[k]@) =~= Seq::<Seq<char>>::empty());
            },
        }
        out
    }
}

// ---------------------------------------------------------------------------
// IDs
// ---------------------------------------------------------------------------

/// `c` is an ASCII digit.
pub open spec fn is_digit(c: char) -> bool {
    48 <= (c as u32) <= 57
}

/// Every character of `s` is an ASCII digit.
pub open spec fn all_digits(s: Seq<char>) -> bool {
    forall|i: int| 0 <= i < s.len() ==> is_digit(#[trigger] s[i])
}

/// The number that the decimal digits `s` spell.
pub open spec fn digits_value(s: Seq<char>) -> nat
    decreases s.len(),
{
    if s.len() == 0 {
        0
    } else {
        digits_value(s.drop_last()) * 10 + ((s.last() as u32) - 48) as nat
    }
}

/// `s` without a leading `+`.
pub open spec fn unsigned_part(s: Seq<char>) -> Seq<char> {
    if s.len() > 0 && s[0] == '+' { s.drop_first() } else { s }
}

/// What `u32::from_str` gives: an optional `+`, then one or more ASCII
/// digits, for a value that fits in 32 bits.
pub open spec fn parse_u32_spec(s: Seq<char>) -> Option<nat> {
    let t = unsigned_part(s);
    if t.len() > 0 && all_digits(t) && digits_value(t) <= u32::MAX {
        Some(digits_value(t))
    } else {
        None
    }
}

proof fn lemma_digits_value_grows(s: Seq<char>, k: int)
    requires
        0 <= k <= s.len(),
        all_digits(s),
    ensures
        digits_value(s.take(k)) <= digits_value(s),
    decreases s.len() - k,
{
    if k < s.len() {
        lemma_digits_value_grows(s, k + 1);
        assert(s.take(k + 1).drop_last() =~= s.take(k));
    } else {
        assert(s.take(k) =~= s);
    }
}

/// The value of the digits `x[from..]`, if they are all digits and the value fits in 32 bits.
fn digits_u32(x: &Vec<char>, from: usize) -> (r: Option<u32>)
    requires
        from <= x@.len(),
    ensures
        match r {
            Some(v) => all_digits(x@.skip(from as int)) && digits_value(x@.skip(from as int)) == v,
            None => !all_digits(x@.skip(from as int)) || digits_value(x@.skip(from as int)) > u32::MAX,
        },
{
    let ghost t = x@.skip(from as int);
    let mut v: u64 = 0;
    let mut i: usize = from;
    assert(t.take(0) =~= Seq::<char>::empty());
    while i < x.len()
        invariant
            from <= i <= x@.len(),
            t == x@.skip(from as int),
            all_digits(t.take(i - from)),
            v == digits_value(t.take(i - from)),
            v <= u32::MAX,
        decreases x@.len() - i,
    {
        let c = x[i];
        assert(t[i - from] == c);
        assert(t.take(i - from + 1).drop_last() =~= t.take(i - from));
        let code = c as u32;
        if code < 48 || code > 57 {
            assert(!is_digit(t[i - from]));
            return None;
        }
        let d = (code - 48) as u64;
        v = v * 10 + d;
        if v > 0xffff_ffff {
            proof {
                assert(all_digits(t.take(i - from + 1)));
                if all_digits(t) {
                    lemma_digits_value_grows(t, i - from + 1);
                }
            }
            return None;
        }
        i += 1;
    }
    assert(t.take(x@.len() - from) =~= t);
    Some(v as u32)
}

/// `u32::from_str` on the characters `x[from..]`.
fn parse_u32_at(x: &Vec<char>, from: usize) -> (r: Option<u32>)
    requires
        from <= x@.len(),
    ensures
        match r {
            Some(v) => parse_u32_spec(x@.skip(from as int)) == Some(v as nat),
            None => parse_u32_spec(x@.skip(from as int)) is None,
        },
{
    let ghost s = x@.skip(from as int);
    let mut start = from;
    if from < x.len() && x[from] == '+' {
        start = from + 1;
        assert(s.drop_first() =~= x@.skip(start as int));
    }
    assert(unsigned_part(s) =~= x@.skip(start as int));
    if start == x.len() {
        return None;
    }
    digits_u32(x, start)
}

/// The number of an ID `<prefix>-<n>`, when it has that shape.
pub open spec fn id_number(id: Option<Seq<char>>, prefix: Seq<char>) -> Option<nat> {
    match id {
        Some(t) => if has_prefix(t, prefix + seq!['-']) {
            parse_u32_spec(t.skip(prefix.len() + 1 as int))
        } else {
            None
        },
        None => None,
    }
}

/// The largest ID number among the first `k` artifacts (0 when there is none).
pub open spec fn max_id_number(arts: Seq<Artifact>, prefix: Seq<char>, k: int) -> nat
    decreases k,
{
    if k <= 0 {
        0
    } else {
        let m = max_id_number(arts, prefix, k - 1);
        match id_number(str_field(arts[k - 1].frontmatter@, "id"@), prefix) {
            Some(n) => if n > m { n } else { m },
            None => m,
        }
    }
}

/// The number in the ID of `a` after `prefix-`, if it has one.
fn artifact_id_number(a: &Artifact, prefix: &str) -> (r: Option<u32>)
    requires
        a.wf(),
    ensures
        match r {
            Some(n) => id_number(str_field(a.frontmatter@, "id"@), prefix@) == Some(n as nat),
            None => id_number(str_field(a.frontmatter@, "id"@), prefix@) is None,
        },
{
    match a.id() {
        Some(id) => {
            let x = chars_of(id);
            let p = chars_of(prefix);
            let ghost want = p@ + seq!['-'];
            if x.len() <= p.len() {
                assert(want.len() > x@.len());
                return None;
            }
            let mut i: usize = 0;
            while i < p.len()
                invariant
                    x@ == id@,
                    str_field(a.frontmatter@, "id"@) == Some(id@),
                    p@ == prefix@,
                    want == p@ + seq!['-'],
                    p@.len() + 1 <= x@.len(),
                    i <= p@.len(),
                    forall|j: int| 0 <= j < i ==> x@[j] == p@[j],
                decreases p@.len() - i,
            {
                if x[i] != p[i] {
                    assert(x@.subrange(0, want.len() as int)[i as int] != want[i as int]);
                    return None;
                }
                i += 1;
            }
            if x[p.len()] != '-' {
                assert(x@.subrange(0, want.len() as int)[p@.len() as int] != want[p@.len() as int]);
                return None;
            }
            assert(x@.subrange(0, want.len() as int) =~= want);
            parse_u32_at(&x, p.len() + 1)
        },
        None => None,
    }
}

/// The next free ID number for `prefix`: one more than the largest number
/// of an ID `<prefix>-<n>` among `artifacts`, or 1 when there is none.
pub fn next_id(artifacts: &Vec<Artifact>, prefix: &str) -> (r: u32)
    requires
        forall|i: int| 0 <= i < artifacts@.len() ==> (#[trigger] artifacts@[i]).wf(),
        max_id_number(artifacts@, prefix@, artifacts@.len() as int) < u32::MAX,
    ensures
        r == max_id_number(artifacts@, prefix@, artifacts@.len() as int) + 1,
{
    let mut max: u32 = 0;
    let mut i: usize = 0;
    while i < artifacts.len()
        invariant
            forall|i: int| 0 <= i < artifacts@.len() ==> (#[trigger] artifacts@[i]).wf(),
            i <= artifacts@.len(),
            max == max_id_number(artifacts@, prefix@, i as int),
        decreases artifacts@.len() - i,
    {
        match artifact_id_number(&artifacts[i], prefix) {
            Some(n) => {
                if n > max {
                    max = n;
                }
            },
            None => {},
        }
        i += 1;
    }
    max + 1
}

/// Whether an ID number is left for `prefix`: no ID `<prefix>-<n>` among
/// `artifacts` already has the largest number `u32::MAX` (what
/// [`next_id`] and `new` need).
pub fn ids_left(artifacts: &Vec<Artifact>, prefix: &str) -> (r: bool)
    requires
        forall|i: int| 0 <= i < artifacts@.len() ==> (#[trigger] artifacts@[i]).wf(),
    ensures
        r == (max_id_number(artifacts@, prefix@, artifacts@.len() as int) < u32::MAX),
{
    let mut max: u32 = 0;
    let mut i: usize = 0;
    while i < artifacts.len()
        invariant
            forall|i: int| 0 <= i < artifacts@.len() ==> (#[trigger] artifacts@[i]).wf(),
            i <= artifacts@.len(),
            max == max_id_number(artifacts@, prefix@, i as int),
        decreases artifacts@.len() - i,
    {
        match artifact_id_number(&artifacts[i], prefix) {
            Some(n) => {
                if n > max {
                    max = n;
                }
            },
            None => {},
        }
        i += 1;
    }
    max < u32::MAX
}

/// `t` padded on the left with `0` to at least `w` characters.
pub open spec fn zero_pad(t: Seq<char>, w: nat) -> Seq<char> {
    if t.len() >= w {
        t
    } else {
        Seq::new((w - t.len()) as nat, |i: int| '0') + t
    }
}

/// The ID of artifact number `n` of a type: the prefix, `-`, and the number
/// padded with zeros to three digits.
pub fn format_id(prefix: &str, n: u32) -> (r: String)
    ensures
        r@ == prefix@ + seq!['-'] + zero_pad(crate::text::nat_text(n as nat), 3),
{
    let digits = chars_of(crate::text::usize_text(n as usize).as_str());
    let mut out = chars_of(prefix);
    out.push('-');
    let ghost head = out@;
    let mut k: usize = digits.len();
    while k < 3
        invariant
            digits.len() <= k <= 3 || (k == digits.len() && k >= 3),
            out@ == head + Seq::new((k - digits@.len()) as nat, |i: int| '0'),
        decreases 3 - k,
    {
        out.push('0');
        assert(out@ =~= head + Seq::new((k + 1 - digits@.len()) as nat, |i: int| '0'));
        k += 1;
    }
    let ghost padded = out@;
    let mut i: usize = 0;
    while i < digits.len()
        invariant
            i <= digits@.len(),
            out@ == padded + digits@.take(i as int),
        decreases digits@.len() - i,
    {
        out.push(digits[i]);
        assert(out@ =~= padded + digits@.take(i + 1));
        i += 1;
    }
    assert(digits@.take(digits@.len() as int) =~= digits@);
    if digits.len() >= 3 {
        assert(Seq::new(0nat, |i: int| '0') + digits@ =~= digits@);
    }
    assert(out@ =~= prefix@ + seq!['-'] + zero_pad(crate::text::nat_text(n as nat), 3));
    string_of(&out)
}

// ---------------------------------------------------------------------------
// File names
// ---------------------------------------------------------------------------

/// The maximal runs of alphanumeric characters in `s`: the runs completed so
/// far, and the run in progress.
pub open spec fn runs(s: Seq<char>) -> (Seq<Seq<char>>, Seq<char>)
    decreases s.len(),
{
    if s.len() == 0 {
        (Seq::empty(), Seq::empty())
    } else {
        let (done, cur) = runs(s.drop_last());
        if alphanumeric(s.last()) {
            (done, cur.push(s.last()))
        } else if cur.len() > 0 {
            (done.push(cur), Seq::empty())
        } else {
            (done, Seq::empty())
        }
    }
}

/// The maximal runs of alphanumeric characters in `s`, in order.
pub open spec fn words(s: Seq<char>) -> Seq<Seq<char>> {
    let (done, cur) = runs(s);
    if cur.len() > 0 { done.push(cur) } else { done }
}

/// The slug of a title: the runs of alphanumeric characters of its
/// lowercase form, joined by `-`.
pub open spec fn slug(title: Seq<char>) -> Seq<char> {
    join_spec(words(lowercase(title)), seq!['-'])
}

/// The slug of `title`, for file names: lowercase, with every run of
/// characters that are not alphanumeric turned into a single `-`, and none
/// at either end.
pub fn slugify(title: &str) -> (r: String)
    ensures
        r@ == slug(title@),
{
    let low = to_lowercase(title);
    let x = chars_of(low.as_str());
    let mut out: Vec<char> = Vec::new();
    let mut cur: Vec<char> = Vec::new();
    let ghost mut done: Seq<Seq<char>> = Seq::empty();
    let mut any = false;
    let mut i: usize = 0;
    assert(x@.take(0) =~= Seq::<char>::empty());
    while i < x.len()
        invariant
            i <= x@.len(),
            runs(x@.take(i as int)) == (done, cur@),
            out@ == join_spec(done, seq!['-']),
            any == (done.len() > 0),
        decreases x@.len() - i,
    {
        assert(x@.take(i + 1).drop_last() =~= x@.take(i as int));
        let c = x[i];
        if is_alphanumeric(c) {
            cur.push(c);
        } else if cur.len() > 0 {
            out = join_word(out, &cur, any, Ghost(done));
            proof {
                done = done.push(cur@);
            }
            any = true;
            cur = Vec::new();
        }
        i += 1;
    }
    assert(x@.take(x@.len() as int) =~= x@);
    if cur.len() > 0 {
        out = join_word(out, &cur, any, Ghost(done));
    }
    string_of(&out)
}

/// `out` (the join of `done`) extended with the word `w`.
fn join_word(out: Vec<char>, w: &Vec<char>, any: bool, Ghost(done): Ghost<Seq<Seq<char>>>) -> (r: Vec<char>)
    requires
        out@ == join_spec(done, seq!['-']),
        any == (done.len() > 0),
    ensures
        r@ == join_spec(done.push(w@), seq!['-']),
{
    let mut out = out;
    let ghost before = out@;
    if any {
        out.push('-');
    }
    let ghost mid = out@;
    let mut k: usize = 0;
    while k < w.len()
        invariant
            k <= w@.len(),
            out@ == mid + w@.take(k as int),
        decreases w@.len() - k,
    {
        out.push(w[k]);
        assert(out@ =~= mid + w@.take(k + 1));
        k += 1;
    }
    assert(w@.take(w@.len() as int) =~= w@);
    assert(done.push(w@).drop_last() =~= done);
    if !any {
        assert(out@ =~= w@);
    }
    out
}

// ---------------------------------------------------------------------------
// Writing an artifact back
// ---------------------------------------------------------------------------

/// The fields written first, in this order, when frontmatter is written out.
pub open spec fn leading_keys() -> Seq<Seq<char>> {
    seq!["id"@, "title"@, "status"@, "priority"@, "project"@, "type"@, "tags"@, "created"@, "updated"@]
}

/// The `i`-th of the leading keys.
fn leading_key(i: usize) -> (r: &'static str)
    requires
        i < 9,
    ensures
        r@ == leading_keys()[i as int],
{
    match i {
        0 => "id",
        1 => "title",
        2 => "status",
        3 => "priority",
        4 => "project",
        5 => "type",
        6 => "tags",
        7 => "created",
        _ => "updated",
    }
}

/// Whether `k` is one of the leading keys.
fn is_leading_key(k: &str) -> (r: bool)
    ensures
        r == leading_keys().contains(k@),
{
    let mut i: usize = 0;
    while i < 9
        invariant
            i <= 9,
            forall|j: int| 0 <= j < i ==> leading_keys()[j] != k@,
        decreases 9 - i,
    {
        if str_eq(leading_key(i), k) {
            return true;
        }
        i += 1;
    }
    assert(leading_keys().len() == 9);
    false
}

/// The order in which the keys of a frontmatter are written out: the leading
/// keys that are present, in their fixed order, then all other keys in
/// ascending order.
pub open spec fn written_order(keys: Set<Seq<char>>, order: Seq<Seq<char>>) -> bool {
    let lead = leading_keys().filter(|k: Seq<char>| keys.contains(k));
    let rest = order.skip(lead.len() as int);
    &&& order.len() >= lead.len()
    &&& order.take(lead.len() as int) == lead
    &&& forall|i: int, j: int| 0 <= i < j < rest.len() ==> seq_less(rest[i], rest[j])
    &&& forall|i: int| 0 <= i < rest.len() ==> keys.contains(#[trigger] rest[i]) && !leading_keys().contains(rest[i])
    &&& forall|k: Seq<char>| keys.contains(k) && !leading_keys().contains(k) ==> rest.contains(k)
}

impl Artifact {
    /// The frontmatter as one JSON object, its entries in stored order.
    pub fn frontmatter_as_json(&self) -> (r: Value)
        ensures
            r.deep() == Val::Object(entries_deep(self.frontmatter.entries@)),
    {
        let es = &self.frontmatter.entries;
        let mut out: Vec<(String, Value)> = Vec::new();
        let mut i: usize = 0;
        while i < es.len()
            invariant
                i <= es@.len(),
                out@.len() == i,
                forall|j: int| 0 <= j < i ==> (#[trigger] out@[j]).0@ == es@[j].0@ && out@[j].1.deep() == es@[j].1.deep(),
            decreases es@.len() - i,
        {
            let e = (es[i].0.clone(), es[i].1.copy());
            out.push(e);
            i += 1;
        }
        assert(entries_deep(out@) =~= entries_deep(es@));
        object(out)
    }
}

impl Artifact {
    /// The frontmatter's entries in the order they are written out (see
    /// [`written_order`]), each with a copy of its value.
    pub fn frontmatter_in_order(&self) -> (r: Vec<(String, Value)>)
        requires
            self.wf(),
        ensures
            written_order(self.frontmatter@.dom(), Seq::new(r@.len(), |i: int| r@[i].0@)),
            forall|i: int| 0 <= i < r@.len() ==> self.frontmatter@.contains_key(#[trigger] r@[i].0@)
                && r@[i].1.deep() == self.frontmatter@[r@[i].0@],
    {
        let ghost fm = self.frontmatter@;
        let ghost lk = leading_keys();
        let ghost pred = |k: Seq<char>| fm.dom().contains(k);
        let mut out: Vec<(String, Value)> = Vec::new();
        let mut i: usize = 0;
        assert(lk.take(0).filter(pred) =~= Seq::<Seq<char>>::empty());
        while i < 9
            invariant
                fm == self.frontmatter@,
                self.wf(),
                lk == leading_keys(),
                pred == (|k: Seq<char>| fm.dom().contains(k)),
                i <= 9,
                Seq::new(out@.len(), |q: int| out@[q].0@) == lk.take(i as int).filter(pred),
                forall|q: int| 0 <= q < out@.len() ==> fm.contains_key(#[trigger] out@[q].0@)
                    && out@[q].1.deep() == fm[out@[q].0@],
            decreases 9 - i,
        {
            reveal_with_fuel(Seq::<_>::filter, 1);
            assert(lk.take(i + 1).drop_last() =~= lk.take(i as int));
            let k = leading_key(i);
            let ghost before = Seq::new(out@.len(), |q: int| out@[q].0@);
            match self.frontmatter.get(k) {
                Some(v) => {
                    out.push((crate::text::owned(k), v.copy()));
                    assert(Seq::new(out@.len(), |q: int| out@[q].0@) =~= before.push(k@));
                },
                None => {},
            }
            i += 1;
        }
        assert(lk.take(9) =~= lk);
        let ghost lead = lk.filter(pred);
        // The other keys, in ascending order.
        let es = &self.frontmatter.entries;
        let mut others: Vec<String> = Vec::new();
        let mut j: usize = 0;
        while j < es.len()
            invariant
                fm == self.frontmatter@,
                self.wf(),
                *es == self.frontmatter.entries,
                j <= es@.len(),
                forall|q: int| 0 <= q < others@.len() ==> fm.contains_key(#[trigger] others@[q]@)
                    && !leading_keys().contains(others@[q]@),
                forall|q: int, r: int| 0 <= q < r < others@.len() ==> others@[q]@ != others@[r]@,
                forall|e: int| 0 <= e < j && !leading_keys().contains(#[trigger] es@[e].0@) ==> crate::sort::str_views(others@).contains(es@[e].0@),
                forall|q: int| #![trigger others@[q]] 0 <= q < others@.len() ==> exists|e: int| 0 <= e < j && #[trigger] es@[e].0@ == others@[q]@,
            decreases es@.len() - j,
        {
            assert(crate::value::has_key(es@, es@[j as int].0@));
            assert(fm.contains_key(es@[j as int].0@));
            assert(crate::value::distinct_keys(es@));
            if !is_leading_key(es[j].0.as_str()) {
                let ghost before = others@;
                others.push(es[j].0.clone());
                assert forall|q: int, r: int| 0 <= q < r < others@.len() implies others@[q]@ != others@[r]@ by {
                    if r == others@.len() - 1 {
                        let e = choose|e: int| 0 <= e < j && #[trigger] es@[e].0@ == others@[q]@;
                        assert(es@[e].0@ != es@[j as int].0@);
                    }
                }
                assert forall|e: int| 0 <= e < j + 1 && !leading_keys().contains(#[trigger] es@[e].0@) implies crate::sort::str_views(others@).contains(es@[e].0@) by {
                    if e == j {
                        assert(crate::sort::str_views(others@)[others@.len() - 1] == es@[e].0@);
                    } else {
                        let w = choose|w: int| 0 <= w < before.len() && crate::sort::str_views(before)[w] == es@[e].0@;
                        assert(crate::sort::str_views(others@)[w] == es@[e].0@);
                    }
                }
                assert(others@[others@.len() - 1]@ == es@[j as int].0@);
            }
            j += 1;
        }
        let sorted = crate::sort::sort_distinct_strings(&others);
        let ghost mid = out@.len();
        let mut t: usize = 0;
        while t < sorted.len()
            invariant
                fm == self.frontmatter@,
                self.wf(),
                t <= sorted@.len(),
                out@.len() == mid + t,
                forall|q: int| 0 <= q < sorted@.len() ==> fm.contains_key(#[trigger] sorted@[q]@),
                Seq::new(mid as nat, |q: int| out@[q].0@) == lead,
                forall|q: int| 0 <= q < t ==> #[trigger] out@[mid + q].0@ == sorted@[q]@,
                forall|q: int| 0 <= q < out@.len() ==> fm.contains_key(#[trigger] out@[q].0@)
                    && out@[q].1.deep() == fm[out@[q].0@],
            decreases sorted@.len() - t,
        {
            let ghost before = out@;
            match self.frontmatter.get(sorted[t].as_str()) {
                Some(v) => {
                    out.push((sorted[t].clone(), v.copy()));
                    assert(Seq::new(mid as nat, |q: int| out@[q].0@) =~= Seq::new(mid as nat, |q: int| before[q].0@));
                },
                None => {},
            }
            t += 1;
        }
        proof {
            let names = Seq::new(out@.len(), |i: int| out@[i].0@);
            assert(names.take(lead.len() as int) =~= lead);
            assert(lead.len() == mid);
            let rest = names.skip(lead.len() as int);
            assert(out@.len() == mid + sorted@.len());
            assert forall|i: int| 0 <= i < sorted@.len() implies rest[i] == crate::sort::str_views(sorted@)[i] by {
                assert(out@[mid + i].0@ == sorted@[i]@);
            }
            assert(rest =~= crate::sort::str_views(sorted@));
            assert forall|i: int| 0 <= i < rest.len() implies fm.dom().contains(#[trigger] rest[i]) && !leading_keys().contains(rest[i]) by {
                let q = choose|q: int| 0 <= q < others@.len() && crate::sort::str_views(others@)[q] == sorted@[i]@;
                assert(others@[q]@ == sorted@[i]@);
            }
            assert forall|k: Seq<char>| fm.dom().contains(k) && !leading_keys().contains(k) implies rest.contains(k) by {
                let e = crate::value::key_index(es@, k);
                assert(es@[e].0@ == k);
                assert(crate::sort::str_views(others@).contains(k));
                let w = choose|w: int| 0 <= w < others@.len() && crate::sort::str_views(others@)[w] == k;
                assert(crate::sort::str_views(sorted@).contains(others@[w]@));
            }
        }
        out
    }
}

/// The text of an artifact file: the frontmatter's YAML text between `---`
/// lines, then the body, with one blank line between them unless the body is
/// empty or already starts with a newline.
pub open spec fn markdown_text(yaml: Seq<char>, body: Seq<char>) -> Seq<char> {
    let y = yaml_lines(yaml);
    if body.len() == 0 {
        "---\n"@ + y + "---\n"@
    } else if body[0] == '\n' {
        "---\n"@ + y + "---\n"@ + body
    } else {
        "---\n"@ + y + "---\n\n"@ + body
    }
}

/// The YAML text as whole lines: with a line break after its last line when
/// it lacks one.
pub open spec fn yaml_lines(yaml: Seq<char>) -> Seq<char> {
    if yaml.len() > 0 && yaml.last() != '\n' {
        yaml.push('\n')
    } else {
        yaml
    }
}

impl Artifact {
    /// The file text of this artifact, given the YAML text of its frontmatter
    /// (the entries of [`Artifact::frontmatter_in_order`], serialized).
    pub fn frame_markdown(&self, yaml: &str) -> (r: String)
        ensures
            r@ == markdown_text(yaml@, self.body@),
    {
        let mut out = String::new();
        out.append("---\n");
        out.append(yaml);
        let y = chars_of(yaml);
        if y.len() > 0 && y[y.len() - 1] != '\n' {
            out.append("\n");
            proof {
                reveal_strlit("\n");
            }
        }
        assert(out@ == "---\n"@ + yaml_lines(yaml@));
        if self.body.as_str().is_empty() {
            out.append("---\n");
        } else {
            let b = chars_of(self.body.as_str());
            if b[0] == '\n' {
                out.append("---\n");
            } else {
                out.append("---\n\n");
            }
            out.append(self.body.as_str());
        }
        out
    }
}

impl Artifact {
    /// What `show` prints in JSON: the frontmatter's entries in stored order,
    /// then `body` with the body's text.
    pub fn show_value(&self) -> (r: Value)
        ensures
            r.deep() == Val::Object(entries_deep(self.frontmatter.entries@).push(("body"@, Val::Str(self.body@)))),
    {
        let es = &self.frontmatter.entries;
        let mut out: Vec<(String, Value)> = Vec::new();
        let mut i: usize = 0;
        while i < es.len()
            invariant
                i <= es@.len(),
                out@.len() == i,
                forall|j: int| 0 <= j < i ==> (#[trigger] out@[j]).0@ == es@[j].0@ && out@[j].1.deep() == es@[j].1.deep(),
            decreases es@.len() - i,
        {
            out.push((es[i].0.clone(), es[i].1.copy()));
            i += 1;
        }
        out.push((crate::text::owned("body"), Value::Str(self.body.clone())));
        assert(entries_deep(out@) =~= entries_deep(es@).push(("body"@, Val::Str(self.body@))));
        object(out)
    }
}

impl Artifact {
    /// What `show` prints in JSON: [`Artifact::show_value`] written by
    /// `serde_json::to_string_pretty`.
    pub fn show_json(&self) -> (r: String)
        ensures
            r@ == pretty_json(Val::Object(entries_deep(self.frontmatter.entries@).push(("body"@, Val::Str(self.body@))))),
    {
        let v = self.show_value();
        to_pretty_json_text(&v)
    }
}

/// The text that `serde_yml::to_string` writes for a mapping with the given
/// entries, in that order, each value converted to YAML by
/// `serde_yml::to_value` of its `serde_json` value.
pub uninterp spec fn yaml_text(entries: Seq<(Seq<char>, Val)>) -> Seq<char>;

/// `serde_yml::to_string` of a mapping of `entries`, in their order, each
/// value turned into a `serde_yml` value by `serde_yml::to_value` of the
/// `serde_json` value read back from its compact JSON text.
#[verifier::external_body]
fn yaml_of_entries(entries: &Vec<(String, Value)>) -> (r: String)
    ensures
        r@ == yaml_text(entries_deep(entries@)),
{
    let mut mapping = serde_yml::Mapping::new();
    for (k, v) in entries {
        let j: serde_json::Value = serde_json::from_str(&to_json_text(v)).unwrap_or_default();
        mapping.insert(k.clone(), serde_yml::to_value(&j).unwrap_or(serde_yml::Value::Null));
    }
    serde_yml::to_string(&mapping).unwrap_or_default()
}

/// `es` are the entries of `fm` in the order in which they are written.
pub open spec fn written_entries(fm: Map<Seq<char>, Val>, es: Seq<(Seq<char>, Val)>) -> bool {
    &&& written_order(fm.dom(), Seq::new(es.len(), |i: int| es[i].0))
    &&& forall|i: int| 0 <= i < es.len() ==> fm.contains_key(#[trigger] es[i].0) && es[i].1 == fm[es[i].0]
}

impl Artifact {
    /// The file text of this artifact: `---`, its frontmatter written as
    /// YAML by serde_yml in the written order (see [`written_order`]), `---`,
    /// then the body (after a blank line when it does not start with one).
    pub fn to_markdown(&self) -> (r: String)
        requires
            self.wf(),
        ensures
            exists|es: Seq<(Seq<char>, Val)>| written_entries(self.frontmatter@, es)
                && r@ == markdown_text(yaml_text(es), self.body@),
    {
        let es = self.frontmatter_in_order();
        let yaml = yaml_of_entries(&es);
        let r = self.frame_markdown(yaml.as_str());
        assert(written_entries(self.frontmatter@, entries_deep(es@))) by {
            assert(Seq::new(entries_deep(es@).len(), |i: int| entries_deep(es@)[i].0) =~= Seq::new(
                es@.len(),
                |i: int| es@[i].0@,
            ));
        }
        r
    }
}

/// What gray_matter's `Matter::<YAML>::parse` finds in `content`, its front
/// matter read into a `serde_json` value: that value's compact JSON text
/// (none when there is no front matter) and the content after the front
/// matter; when the parse fails, nothing and the whole input.
pub uninterp spec fn front_matter(content: Seq<char>) -> (Option<Seq<char>>, Seq<char>);

/// `gray_matter::Matter::<YAML>::parse` of `content` into a `serde_json`
/// value, given as its compact text, with the content after the front
/// matter; on a parse error, no front matter and the whole input.
#[verifier::external_body]
fn parse_front_matter(content: &str) -> (r: (Option<String>, String))
    ensures
        (opt_view(r.0), r.1@) == front_matter(content@),
{
    let matter = gray_matter::Matter::<gray_matter::engine::YAML>::new();
    match matter.parse::<serde_json::Value>(content) {
        Ok(p) => (p.data.map(|d| d.to_string()), p.content),
        Err(_) => (None, content.to_string()),
    }
}

/// The map of the entries `es`, a later entry of a key taking its place.
pub open spec fn entries_map(es: Seq<(Seq<char>, Val)>) -> Map<Seq<char>, Val>
    decreases es.len(),
{
    if es.len() == 0 {
        Map::empty()
    } else {
        entries_map(es.drop_last()).insert(es.last().0, es.last().1)
    }
}

/// The frontmatter found by the parse: the entries of the JSON object read
/// from its text, empty when there is none or it is not an object.
pub open spec fn matter_map(data: Option<Seq<char>>) -> Map<Seq<char>, Val> {
    match data {
        Some(t) => match json_parse(t) {
            Val::Object(es) => entries_map(es),
            _ => Map::empty(),
        },
        None => Map::empty(),
    }
}

impl Artifact {
    /// The artifact in a markdown file with text `content` read from `path`:
    /// its frontmatter is what gray_matter finds (empty when there is none,
    /// when it is not a mapping, or when the parse fails), its body the text
    /// after the frontmatter (all of it when the parse fails), and `raw` the
    /// whole text.
    pub fn from_str(content: &str, path: String) -> (a: Artifact)
        ensures
            a.wf(),
            a.path == path,
            a.raw@ == content@,
            a.body@ == front_matter(content@).1,
            a.frontmatter@ == matter_map(front_matter(content@).0),
    {
        let (data, body) = parse_front_matter(content);
        let mut fm = Frontmatter::new();
        match &data {
            Some(t) => {
                let v = from_json_text(t.as_str());
                match &v {
                    Value::Object(es) => {
                        let ghost ev = entries_deep(es@);
                        assert(v.deep() == Val::Object(ev)) by {
                            assert(v.deep()->Object_0 =~= ev);
                        }
                        let mut i: usize = 0;
                        while i < es.len()
                            invariant
                                fm.wf(),
                                ev == entries_deep(es@),
                                i <= es@.len(),
                                fm@ == entries_map(ev.take(i as int)),
                            decreases es@.len() - i,
                        {
                            assert(ev.take(i + 1).drop_last() =~= ev.take(i as int));
                            fm.insert(es[i].0.clone(), es[i].1.copy());
                            i += 1;
                        }
                        assert(ev.take(es@.len() as int) =~= ev);
                    },
                    _ => {
                        assert(fm@ =~= matter_map(opt_view(data)));
                    },
                }
            },
            None => {},
        }
        Artifact { path, frontmatter: fm, body, raw: crate::text::owned(content) }
    }
}

/// The priority that orders an artifact: its priority, or the largest
/// `i64` when it has none (so that such artifacts come last).
pub open spec fn priority_or_last(a: Artifact) -> int {
    match int_field(a.frontmatter@, "priority"@) {
        Some(p) => p,
        None => i64::MAX as int,
    }
}

/// The artifact's status is the schema's archive value.
pub open spec fn is_archived(archive: Option<crate::schema::ArchiveModel>, a: Artifact) -> bool {
    match archive {
        Some(ar) => str_field(a.frontmatter@, "status"@) == Some(ar.value),
        None => false,
    }
}

/// The text of `o`, or `-`.
pub open spec fn or_dash(o: Option<Seq<char>>) -> Seq<char> {
    match o {
        Some(t) => t,
        None => "-"@,
    }
}

/// The text of `o`, or `-`.
pub fn text_or_dash(o: Option<&str>) -> (r: String)
    ensures
        r@ == or_dash(opt_str(o)),
{
    match o {
        Some(t) => crate::text::owned(t),
        None => crate::text::owned("-"),
    }
}

/// The table cell of a string field: its text, or `-`.
pub open spec fn text_cell(a: Artifact, key: Seq<char>) -> Seq<char> {
    or_dash(str_field(a.frontmatter@, key))
}

/// The table cell of the priority: its decimal text, or `-`.
pub open spec fn priority_cell(a: Artifact) -> Seq<char> {
    match int_field(a.frontmatter@, "priority"@) {
        Some(p) => crate::text::int_text(p),
        None => "-"@,
    }
}

impl Artifact {
    /// The cell of string field `key`: its text, or `-`.
    pub fn field_cell(&self, key: &str) -> (r: String)
        requires
            self.wf(),
        ensures
            r@ == text_cell(*self, key@),
    {
        text_or_dash(self.get_str(key))
    }

    /// The cell of the priority: its decimal text, or `-`.
    pub fn priority_text(&self) -> (r: String)
        requires
            self.wf(),
        ensures
            r@ == priority_cell(*self),
    {
        match self.priority() {
            Some(p) => crate::text::i64_text(p),
            None => crate::text::owned("-"),
        }
    }
}

impl Artifact {
    /// The key that orders artifacts by priority, those without one last.
    pub fn priority_key(&self) -> (r: SortKey)
        requires
            self.wf(),
        ensures
            key_model(r) == (priority_or_last(*self), Seq::<Seq<char>>::empty()),
    {
        let num = match self.priority() {
            Some(p) => p,
            None => i64::MAX,
        };
        let r = SortKey { num, text: Vec::new() };
        assert(key_model(r).1 =~= Seq::<Seq<char>>::empty());
        r
    }

    /// Whether this artifact has the status that archives it.
    pub fn archived(&self, archive_value: Option<&str>) -> (r: bool)
        requires
            self.wf(),
        ensures
            r == (archive_value is Some && str_field(self.frontmatter@, "status"@) == opt_str(archive_value)),
    {
        match archive_value {
            Some(v) => match self.status() {
                Some(st) => str_eq(st, v),
                None => false,
            },
            None => false,
        }
    }
}

/// The position of the last `.` in `s[0..n]`.
pub open spec fn last_dot(s: Seq<char>, n: int) -> Option<int>
    decreases n,
{
    if n <= 0 {
        None
    } else if s[n - 1] == '.' {
        Some(n - 1)
    } else {
        last_dot(s, n - 1)
    }
}

/// The extension of a file name, as `Path::extension` gives it: the text
/// after the last `.`, when that `.` is not the first character (and the
/// name is not `..`).
pub open spec fn extension_of(name: Seq<char>) -> Option<Seq<char>> {
    if name == ".."@ {
        None
    } else {
        match last_dot(name, name.len() as int) {
            Some(i) => if i > 0 { Some(name.skip(i + 1)) } else { None },
            None => None,
        }
    }
}

/// The extension of the file name `name` (see [`extension_of`]).
pub fn extension(name: &str) -> (r: Option<String>)
    ensures
        match r {
            Some(e) => extension_of(name@) == Some(e@),
            None => extension_of(name@) is None,
        },
{
    if str_eq(name, "..") {
        return None;
    }
    let x = chars_of(name);
    let mut n: usize = x.len();
    while n > 0 && x[n - 1] != '.'
        invariant
            x@ == name@,
            n <= x@.len(),
            last_dot(x@, x@.len() as int) == last_dot(x@, n as int),
        decreases n,
    {
        n -= 1;
    }
    if n <= 1 {
        return None;
    }
    let mut out: Vec<char> = Vec::new();
    let mut i: usize = n;
    while i < x.len()
        invariant
            n <= i <= x@.len(),
            out@ == x@.subrange(n as int, i as int),
        decreases x@.len() - i,
    {
        out.push(x[i]);
        assert(out@ =~= x@.subrange(n as int, i + 1));
        i += 1;
    }
    assert(out@ =~= name@.skip(n as int));
    Some(string_of(&out))
}

/// A file is read as an artifact when its extension is `md` or `feature`.
pub open spec fn artifact_file(name: Seq<char>) -> bool {
    extension_of(name) == Some("md"@) || extension_of(name) == Some("feature"@)
}

/// Whether the file `name` is read as an artifact.
pub fn is_artifact_file(name: &str) -> (r: bool)
    ensures
        r == artifact_file(name@),
{
    match extension(name) {
        Some(e) => str_eq(e.as_str(), "md") || str_eq(e.as_str(), "feature"),
        None => false,
    }
}

/// A file is read as a schema when its extension is `yml` or `yaml`.
pub open spec fn schema_file(name: Seq<char>) -> bool {
    extension_of(name) == Some("yml"@) || extension_of(name) == Some("yaml"@)
}

/// Whether the file `name` is read as a schema.
pub fn is_schema_file(name: &str) -> (r: bool)
    ensures
        r == schema_file(name@),
{
    match extension(name) {
        Some(e) => str_eq(e.as_str(), "yml") || str_eq(e.as_str(), "yaml"),
        None => false,
    }
}

} // verus!
