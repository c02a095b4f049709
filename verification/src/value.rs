//! The values that frontmatter fields hold, and the frontmatter map itself.
use vstd::prelude::*;

verus! {

/// A frontmatter value: the data model of YAML frontmatter once parsed.
/// `Float` holds a non-integer number by the decimal text that JSON output gives it.
pub enum Value {
    Null,
    Bool(bool),
    Int(i64),
    Float(String),
    Str(String),
    List(Vec<Value>),
    Object(Vec<(String, Value)>),
}

/// The mathematical model of a [`Value`]: strings become character sequences.
pub enum Val {
    Null,
    Bool(bool),
    Int(int),
    Float(Seq<char>),
    Str(Seq<char>),
    List(Seq<Val>),
    Object(Seq<(Seq<char>, Val)>),
}

impl Value {
    /// The model of this value.
    pub open spec fn deep(self) -> Val
        decreases self,
    {
        match self {
            Value::Null => Val::Null,
            Value::Bool(b) => Val::Bool(b),
            Value::Int(i) => Val::Int(i as int),
            Value::Float(s) => Val::Float(s@),
            Value::Str(s) => Val::Str(s@),
            Value::List(v) => Val::List(Seq::new(v@.len(), |i: int| if 0 <= i < v@.len() { v@[i].deep() } else { Val::Null })),
            Value::Object(v) => Val::Object(Seq::new(v@.len(), |i: int| if 0 <= i < v@.len() { (v@[i].0@, v@[i].1.deep()) } else { (Seq::empty(), Val::Null) })),
        }
    }
}

impl Value {
    /// A copy of this value.
    pub fn copy(&self) -> (r: Value)
        ensures
            r.deep() == self.deep(),
    {
        copy_value(self)
    }
}

/// A copy of `v`.
fn copy_value(v: &Value) -> (r: Value)
    ensures
        r.deep() == v.deep(),
    decreases v,
{
        match v {
            Value::Null => Value::Null,
            Value::Bool(b) => Value::Bool(*b),
            Value::Int(i) => Value::Int(*i),
            Value::Float(t) => Value::Float(t.clone()),
            Value::Str(t) => Value::Str(t.clone()),
            Value::List(items) => {
                let mut out: Vec<Value> = Vec::new();
                let mut i: usize = 0;
                while i < items.len()
                    invariant
                        *v == Value::List(*items),
                        i <= items.len(),
                        out@.len() == i,
                        forall|j: int| 0 <= j < i ==> #[trigger] out@[j].deep() == items@[j].deep(),
                    decreases items.len() - i,
                {
                    assert(decreases_to!(v => v->List_0@[i as int]));
                    out.push(copy_value(&items[i]));
                    i += 1;
                }
                let ghost outv = out@;
                let r = Value::List(out);
                assert forall|k: int| 0 <= k < outv.len() implies #[trigger] r.deep()->List_0[k] == v.deep()->List_0[k] by {
                    assert(outv[k].deep() == items@[k].deep());
                }
                assert(r.deep()->List_0 =~= v.deep()->List_0);
                r
            },
            Value::Object(items) => {
                let mut out: Vec<(String, Value)> = Vec::new();
                let mut i: usize = 0;
                while i < items.len()
                    invariant
                        *v == Value::Object(*items),
                        i <= items.len(),
                        out@.len() == i,
                        forall|j: int| 0 <= j < i ==> #[trigger] out@[j].0@ == items@[j].0@ && out@[j].1.deep() == items@[j].1.deep(),
                    decreases items.len() - i,
                {
                    assert(decreases_to!(v => v->Object_0@[i as int].1));
                    out.push((items[i].0.clone(), copy_value(&items[i].1)));
                    i += 1;
                }
                let r = Value::Object(out);
                assert(r.deep()->Object_0 =~= v.deep()->Object_0);
                r
            },
        }
}

/// Whether two values are equal (the same model).
pub fn value_eq(a: &Value, b: &Value) -> (r: bool)
    ensures r == (a.deep() == b.deep()),
    decreases a,
{
    match (a, b) {
        (Value::Null, Value::Null) => true,
        (Value::Bool(x), Value::Bool(y)) => *x == *y,
        (Value::Int(x), Value::Int(y)) => *x == *y,
        (Value::Float(x), Value::Float(y)) => { let r = *x == *y; assert(r == (a.deep() == b.deep())); r }
        (Value::Str(x), Value::Str(y)) => { let r = *x == *y; assert(r == (a.deep() == b.deep())); r }
        (Value::List(x), Value::List(y)) => {
            if x.len() != y.len() {
                assert(a.deep()->List_0.len() != b.deep()->List_0.len());
                return false;
            }
            let mut i: usize = 0;
            while i < x.len()
                invariant
                    x.len() == y.len(),
                    i <= x.len(),
                    a == Value::List(*x), b == Value::List(*y),
                    forall|j: int| 0 <= j < i ==> x@[j].deep() == y@[j].deep(),
                decreases x.len() - i,
            {
                assert(decreases_to!(a => x@[i as int]));
                if !value_eq(&x[i], &y[i]) {
                    assert(a.deep()->List_0[i as int] != b.deep()->List_0[i as int]);
                    return false;
                }
                i += 1;
            }
            assert(a.deep()->List_0 =~= b.deep()->List_0);
            true
        }
        (Value::Object(x), Value::Object(y)) => {
            if x.len() != y.len() {
                assert(a.deep()->Object_0.len() != b.deep()->Object_0.len());
                return false;
            }
            let mut i: usize = 0;
            while i < x.len()
                invariant
                    x.len() == y.len(),
                    i <= x.len(),
                    a == Value::Object(*x), b == Value::Object(*y),
                    forall|j: int| 0 <= j < i ==> x@[j].0@ == y@[j].0@ && x@[j].1.deep() == y@[j].1.deep(),
                decreases x.len() - i,
            {
                assert(decreases_to!(a => x@[i as int].1));
                if x[i].0 != y[i].0 || !value_eq(&x[i].1, &y[i].1) {
                    assert(a.deep()->Object_0[i as int] != b.deep()->Object_0[i as int]);
                    return false;
                }
                i += 1;
            }
            assert(a.deep()->Object_0 =~= b.deep()->Object_0);
            true
        }
        _ => { assert(a.deep() != b.deep()); false },
    }
}

/// The frontmatter of an artifact: a map from field names to values, held as
/// a list of entries whose keys are pairwise distinct.
pub struct Frontmatter {
    pub entries: Vec<(String, Value)>,
}

/// Whether some entry of `es` has key `k`.
pub open spec fn has_key(es: Seq<(String, Value)>, k: Seq<char>) -> bool {
    exists|i: int| 0 <= i < es.len() && #[trigger] es[i].0@ == k
}

/// The position of the entry with key `k` in `es` (meaningful when there is one).
pub open spec fn key_index(es: Seq<(String, Value)>, k: Seq<char>) -> int {
    choose|i: int| 0 <= i < es.len() && #[trigger] es[i].0@ == k
}

/// The keys of `es` are pairwise distinct.
pub open spec fn distinct_keys(es: Seq<(String, Value)>) -> bool {
    forall|i: int, j: int| 0 <= i < es.len() && 0 <= j < es.len() && i != j ==> es[i].0@ != es[j].0@
}

impl Frontmatter {
    /// Well-formedness: no key occurs twice.
    pub open spec fn wf(&self) -> bool {
        distinct_keys(self.entries@)
    }

    /// The keys, in stored order.
    pub open spec fn key_seq(&self) -> Seq<Seq<char>> {
        self.entries@.map_values(|e: (String, Value)| e.0@)
    }

    /// An empty frontmatter.
    pub fn new() -> (r: Frontmatter)
        ensures
            r.wf(),
            r@ == Map::<Seq<char>, Val>::empty(),
    {
        let r = Frontmatter { entries: Vec::new() };
        assert(r@ =~= Map::<Seq<char>, Val>::empty());
        r
    }

    /// The position of `key`, if present.
    pub fn find(&self, key: &str) -> (r: Option<usize>)
        requires
            self.wf(),
        ensures
            r is None <==> !has_key(self.entries@, key@),
            r matches Some(i) ==> i < self.entries@.len() && self.entries@[i as int].0@ == key@
                && i == key_index(self.entries@, key@),
    {
        let mut i: usize = 0;
        while i < self.entries.len()
            invariant
                self.wf(),
                i <= self.entries@.len(),
                forall|j: int| 0 <= j < i ==> self.entries@[j].0@ != key@,
            decreases self.entries@.len() - i,
        {
            if crate::text::str_eq(self.entries[i].0.as_str(), key) {
                let ghost k = key_index(self.entries@, key@);
                assert(self.entries@[i as int].0@ == key@);
                assert(self.entries@[k].0@ == key@);
                return Some(i);
            }
            i += 1;
        }
        None
    }

    /// Whether `key` has a value.
    pub fn contains_key(&self, key: &str) -> (r: bool)
        requires
            self.wf(),
        ensures
            r == self@.contains_key(key@),
    {
        self.find(key).is_some()
    }

    /// The value of `key`, if any.
    pub fn get(&self, key: &str) -> (r: Option<&Value>)
        requires
            self.wf(),
        ensures
            r is Some <==> self@.contains_key(key@),
            r matches Some(v) ==> v.deep() == self@[key@],
    {
        match self.find(key) {
            Some(i) => Some(&self.entries[i].1),
            None => None,
        }
    }

    /// Sets `key` to `value`: an existing entry keeps its place, a new one goes last.
    pub fn insert(&mut self, key: String, value: Value)
        requires
            old(self).wf(),
        ensures
            final(self).wf(),
            final(self)@ == old(self)@.insert(key@, value.deep()),
            has_key(old(self).entries@, key@) ==> final(self).key_seq() == old(self).key_seq(),
            !has_key(old(self).entries@, key@) ==> final(self).key_seq() == old(self).key_seq().push(key@),
    {
        let ghost v = value.deep();
        let ghost k = key@;
        match self.find(key.as_str()) {
            Some(i) => {
                self.entries.set(i, (key, value));
                assert(self.key_seq() =~= old(self).key_seq());
                assert(self.entries@[i as int].0@ == k);
                assert(has_key(self.entries@, k));
            },
            None => {
                self.entries.push((key, value));
                assert(self.key_seq() =~= old(self).key_seq().push(k));
                let ghost n: int = self.entries@.len() - 1;
                assert(self.entries@[n].0@ == k);
                assert(has_key(self.entries@, k));
            },
        }
        assert forall|q: Seq<char>| #![auto] self@.contains_key(q) == old(self)@.insert(k, v).contains_key(q) by {
            if q != k && has_key(old(self).entries@, q) {
                let j = key_index(old(self).entries@, q);
                assert(self.entries@[j].0@ == q);
            }
            if q != k && has_key(self.entries@, q) {
                let j = key_index(self.entries@, q);
                assert(old(self).entries@[j].0@ == q);
            }
        }
        assert forall|q: Seq<char>| #![auto] self@.contains_key(q) implies self@[q] == old(self)@.insert(k, v)[q] by {
            let j = key_index(self.entries@, q);
            if q != k {
                let j0 = key_index(old(self).entries@, q);
                assert(old(self).entries@[j].0@ == q);
            } else {
                assert(self.entries@[j].0@ == k);
            }
        }
        assert(self@ =~= old(self)@.insert(k, v));
    }
}

impl View for Frontmatter {
    type V = Map<Seq<char>, Val>;

    /// The field names with the models of their values.
    open spec fn view(&self) -> Map<Seq<char>, Val> {
        Map::new(
            |k: Seq<char>| has_key(self.entries@, k),
            |k: Seq<char>| self.entries@[key_index(self.entries@, k)].1.deep(),
        )
    }
}

} // verus!
