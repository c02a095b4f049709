//! Artifact-type schemas: their fields, inheritance between schemas, and the
//! checks a set of schemas must pass before it is used.
use vstd::prelude::*;

use crate::text::{contains_str, has_infix, has_prefix, starts_with, str_eq};
use crate::text::owned;
use crate::value::{Val, Value};

verus! {

/// The type of a schema field.
#[derive(Debug, Clone, Copy, PartialEq, Eq, Structural)]
pub enum FieldType {
    String,
    Integer,
    Date,
    Enum,
    List,
    Boolean,
}

/// Where, and on which field value, artifacts of a type are archived.
pub struct ArchiveDef {
    pub field: String,
    pub value: String,
    pub directory: String,
}

/// One field of a schema.
pub struct FieldDef {
    pub name: String,
    pub field_type: FieldType,
    pub required: bool,
    pub unique: bool,
    pub derived: bool,
    pub default: Option<Value>,
    pub values: Option<Vec<String>>,
    pub pattern: Option<String>,
}

/// An artifact type: its name, directory, ID prefix, fields and options.
pub struct Schema {
    pub name: String,
    pub directory: String,
    pub prefix: String,
    pub fields: Vec<FieldDef>,
    pub archive: Option<ArchiveDef>,
    pub template: Option<String>,
    pub extends: Option<String>,
    pub registry: Option<String>,
}

/// The model of an [`ArchiveDef`].
pub struct ArchiveModel {
    pub field: Seq<char>,
    pub value: Seq<char>,
    pub directory: Seq<char>,
}

/// The model of a [`FieldDef`].
pub struct FieldModel {
    pub name: Seq<char>,
    pub field_type: FieldType,
    pub required: bool,
    pub unique: bool,
    pub derived: bool,
    pub default: Option<Val>,
    pub values: Option<Seq<Seq<char>>>,
    pub pattern: Option<Seq<char>>,
}

/// The model of a [`Schema`].
pub struct SchemaModel {
    pub name: Seq<char>,
    pub directory: Seq<char>,
    pub prefix: Seq<char>,
    pub fields: Seq<FieldModel>,
    pub archive: Option<ArchiveModel>,
    pub template: Option<Seq<char>>,
    pub extends: Option<Seq<char>>,
    pub registry: Option<Seq<char>>,
}

/// The model of an optional string.
pub open spec fn opt_view(o: Option<String>) -> Option<Seq<char>> {
    match o {
        Some(s) => Some(s@),
        None => None,
    }
}

/// The models of a vector of strings.
pub open spec fn strs_view(v: Seq<String>) -> Seq<Seq<char>> {
    Seq::new(v.len(), |i: int| v[i]@)
}

impl View for ArchiveDef {
    type V = ArchiveModel;

    open spec fn view(&self) -> ArchiveModel {
        ArchiveModel { field: self.field@, value: self.value@, directory: self.directory@ }
    }
}

impl View for FieldDef {
    type V = FieldModel;

    open spec fn view(&self) -> FieldModel {
        FieldModel {
            name: self.name@,
            field_type: self.field_type,
            required: self.required,
            unique: self.unique,
            derived: self.derived,
            default: match self.default {
                Some(v) => Some(v.deep()),
                None => None,
            },
            values: match self.values {
                Some(v) => Some(strs_view(v@)),
                None => None,
            },
            pattern: opt_view(self.pattern),
        }
    }
}

impl View for Schema {
    type V = SchemaModel;

    open spec fn view(&self) -> SchemaModel {
        SchemaModel {
            name: self.name@,
            directory: self.directory@,
            prefix: self.prefix@,
            fields: Seq::new(self.fields@.len(), |i: int| self.fields@[i]@),
            archive: match self.archive {
                Some(a) => Some(a@),
                None => None,
            },
            template: opt_view(self.template),
            extends: opt_view(self.extends),
            registry: opt_view(self.registry),
        }
    }
}

/// The models of a vector of schemas.
pub open spec fn schemas_view(v: Seq<Schema>) -> Seq<SchemaModel> {
    Seq::new(v.len(), |i: int| v[i]@)
}

/// A copy of an optional string.
pub fn copy_opt(o: &Option<String>) -> (r: Option<String>)
    ensures
        opt_view(r) == opt_view(*o),
{
    match o {
        Some(s) => Some(s.clone()),
        None => None,
    }
}

/// A copy of a vector of strings.
pub fn copy_strs(v: &Vec<String>) -> (r: Vec<String>)
    ensures
        strs_view(r@) == strs_view(v@),
        r@.len() == v@.len(),
        forall|i: int| 0 <= i < v@.len() ==> #[trigger] r@[i]@ == v@[i]@,
{
    let mut out: Vec<String> = Vec::new();
    let mut i: usize = 0;
    while i < v.len()
        invariant
            i <= v.len(),
            out@.len() == i,
            forall|j: int| 0 <= j < i ==> #[trigger] out@[j]@ == v@[j]@,
        decreases v.len() - i,
    {
        out.push(v[i].clone());
        i += 1;
    }
    assert(strs_view(out@) =~= strs_view(v@));
    out
}

impl ArchiveDef {
    /// A copy of this archive definition.
    pub fn copy(&self) -> (r: ArchiveDef)
        ensures
            r@ == self@,
    {
        ArchiveDef { field: self.field.clone(), value: self.value.clone(), directory: self.directory.clone() }
    }
}

impl FieldDef {
    /// A copy of this field definition.
    pub fn copy(&self) -> (r: FieldDef)
        ensures
            r@ == self@,
    {
        let default = match &self.default {
            Some(v) => Some(v.copy()),
            None => None,
        };
        let values = match &self.values {
            Some(v) => Some(copy_strs(v)),
            None => None,
        };
        FieldDef {
            name: self.name.clone(),
            field_type: self.field_type,
            required: self.required,
            unique: self.unique,
            derived: self.derived,
            default,
            values,
            pattern: copy_opt(&self.pattern),
        }
    }
}

/// A copy of a list of field definitions.
pub fn copy_fields(v: &Vec<FieldDef>) -> (r: Vec<FieldDef>)
    ensures
        r@.len() == v@.len(),
        forall|i: int| 0 <= i < v@.len() ==> #[trigger] r@[i]@ == v@[i]@,
{
    let mut out: Vec<FieldDef> = Vec::new();
    let mut i: usize = 0;
    while i < v.len()
        invariant
            i <= v.len(),
            out@.len() == i,
            forall|j: int| 0 <= j < i ==> #[trigger] out@[j]@ == v@[j]@,
        decreases v.len() - i,
    {
        out.push(v[i].copy());
        i += 1;
    }
    out
}

/// A copy of an optional archive definition.
pub fn copy_archive(a: &Option<ArchiveDef>) -> (r: Option<ArchiveDef>)
    ensures
        match (r, *a) {
            (Some(x), Some(y)) => x@ == y@,
            (None, None) => true,
            _ => false,
        },
{
    match a {
        Some(x) => Some(x.copy()),
        None => None,
    }
}

impl Schema {
    /// A copy of this schema.
    pub fn copy(&self) -> (r: Schema)
        ensures
            r@ == self@,
    {
        let r = Schema {
            name: self.name.clone(),
            directory: self.directory.clone(),
            prefix: self.prefix.clone(),
            fields: copy_fields(&self.fields),
            archive: copy_archive(&self.archive),
            template: copy_opt(&self.template),
            extends: copy_opt(&self.extends),
            registry: copy_opt(&self.registry),
        };
        assert(r@.fields =~= self@.fields);
        r
    }
}

/// `i` is the first position in `fs` of a field named `name`.
pub open spec fn is_first_named(fs: Seq<FieldModel>, name: Seq<char>, i: int) -> bool {
    0 <= i < fs.len() && fs[i].name == name && forall|j: int| 0 <= j < i ==> fs[j].name != name
}

/// The first field of `fs` named `name`, if any.
pub open spec fn field_named(fs: Seq<FieldModel>, name: Seq<char>) -> Option<FieldModel> {
    if exists|i: int| is_first_named(fs, name, i) {
        Some(fs[choose|i: int| is_first_named(fs, name, i)])
    } else {
        None
    }
}

/// Some field of `fs` is named `name`.
pub open spec fn named_in(fs: Seq<FieldModel>, name: Seq<char>) -> bool {
    exists|i: int| 0 <= i < fs.len() && #[trigger] fs[i].name == name
}

proof fn lemma_first_named_unique(fs: Seq<FieldModel>, name: Seq<char>, i: int, j: int)
    requires
        is_first_named(fs, name, i),
        is_first_named(fs, name, j),
    ensures
        i == j,
{
}

impl Schema {
    /// The first field named `name`.
    pub fn get_field(&self, name: &str) -> (r: Option<&FieldDef>)
        ensures
            r is None <==> field_named(self@.fields, name@) is None,
            r matches Some(f) ==> field_named(self@.fields, name@) == Some(f@),
    {
        let ghost fs = self@.fields;
        let mut i: usize = 0;
        while i < self.fields.len()
            invariant
                fs == self@.fields,
                i <= self.fields@.len(),
                forall|j: int| 0 <= j < i ==> fs[j].name != name@,
            decreases self.fields@.len() - i,
        {
            if str_eq(self.fields[i].name.as_str(), name) {
                assert(is_first_named(fs, name@, i as int));
                let ghost c = choose|k: int| is_first_named(fs, name@, k);
                proof {
                    lemma_first_named_unique(fs, name@, i as int, c);
                }
                return Some(&self.fields[i]);
            }
            i += 1;
        }
        None
    }

    /// The field named `id`.
    pub fn id_field(&self) -> (r: Option<&FieldDef>)
        ensures
            r is None <==> field_named(self@.fields, "id"@) is None,
            r matches Some(f) ==> field_named(self@.fields, "id"@) == Some(f@),
    {
        self.get_field("id")
    }

    /// The field named `priority`.
    pub fn priority_field(&self) -> (r: Option<&FieldDef>)
        ensures
            r is None <==> field_named(self@.fields, "priority"@) is None,
            r matches Some(f) ==> field_named(self@.fields, "priority"@) == Some(f@),
    {
        self.get_field("priority")
    }

    /// The status value that marks an artifact for archiving.
    pub fn archive_value(&self) -> (r: Option<&str>)
        ensures
            match (r, self@.archive) {
                (Some(v), Some(a)) => v@ == a.value,
                (None, None) => true,
                _ => false,
            },
    {
        match &self.archive {
            Some(a) => Some(a.value.as_str()),
            None => None,
        }
    }

    /// The directory archived artifacts move to.
    pub fn archive_directory(&self) -> (r: Option<&str>)
        ensures
            match (r, self@.archive) {
                (Some(v), Some(a)) => v@ == a.directory,
                (None, None) => true,
                _ => false,
            },
    {
        match &self.archive {
            Some(a) => Some(a.directory.as_str()),
            None => None,
        }
    }
}

// ---------------------------------------------------------------------------
// Inheritance
// ---------------------------------------------------------------------------

/// No two schemas share a name.
pub open spec fn distinct_names(ss: Seq<SchemaModel>) -> bool {
    forall|i: int, j: int| 0 <= i < ss.len() && 0 <= j < ss.len() && i != j ==> ss[i].name != ss[j].name
}

/// Some schema is named `n`.
pub open spec fn has_schema(ss: Seq<SchemaModel>, n: Seq<char>) -> bool {
    exists|i: int| 0 <= i < ss.len() && #[trigger] ss[i].name == n
}

/// The position of the schema named `n`.
pub open spec fn schema_pos(ss: Seq<SchemaModel>, n: Seq<char>) -> int {
    choose|i: int| 0 <= i < ss.len() && #[trigger] ss[i].name == n
}

/// The position of the schema that schema `i` extends, when it extends one that exists.
pub open spec fn base_of(ss: Seq<SchemaModel>, i: int) -> Option<int> {
    match ss[i].extends {
        Some(b) => if has_schema(ss, b) { Some(schema_pos(ss, b)) } else { None },
        None => None,
    }
}

/// Following `extends` from schema `i` reaches, within `fuel` steps, a schema
/// that extends nothing or whose base does not exist.
pub open spec fn chain_ends(ss: Seq<SchemaModel>, i: int, fuel: nat) -> bool
    decreases fuel,
{
    match base_of(ss, i) {
        None => true,
        Some(j) => fuel > 0 && chain_ends(ss, j, (fuel - 1) as nat),
    }
}

/// Following `extends` from schema `i` reaches, within `fuel` steps, a base
/// name that no schema has.
pub open spec fn chain_missing(ss: Seq<SchemaModel>, i: int, fuel: nat) -> bool
    decreases fuel,
{
    match ss[i].extends {
        None => false,
        Some(b) => if !has_schema(ss, b) {
            true
        } else {
            fuel > 0 && chain_missing(ss, schema_pos(ss, b), (fuel - 1) as nat)
        },
    }
}

/// The fields a child gets: the base's fields that the child does not
/// redefine, then the child's own fields.
pub open spec fn merge_fields(base: Seq<FieldModel>, child: Seq<FieldModel>) -> Seq<FieldModel> {
    base.filter(|f: FieldModel| !named_in(child, f.name)) + child
}

/// A child schema completed from its (already completed) base.
pub open spec fn merge(base: SchemaModel, child: SchemaModel) -> SchemaModel {
    SchemaModel {
        fields: merge_fields(base.fields, child.fields),
        directory: if child.directory.len() == 0 { base.directory } else { child.directory },
        prefix: if child.prefix.len() == 0 { base.prefix } else { child.prefix },
        archive: if child.archive is None { base.archive } else { child.archive },
        template: if child.template is None { base.template } else { child.template },
        ..child
    }
}

/// Schema `i` with everything it inherits along its chain merged in.
pub open spec fn resolved(ss: Seq<SchemaModel>, i: int, fuel: nat) -> SchemaModel
    decreases fuel,
{
    match base_of(ss, i) {
        None => ss[i],
        Some(j) => if fuel == 0 {
            ss[i]
        } else {
            merge(resolved(ss, j, (fuel - 1) as nat), ss[i])
        },
    }
}

/// Why a set of schemas could not be completed.
pub enum InheritanceError {
    /// The named schema's chain of `extends` runs into a cycle.
    Circular(String),
    /// These schemas extend, directly or not, a schema that does not exist.
    Unresolved(Vec<String>),
}

impl InheritanceError {
    /// The message the command line prints for this error.
    pub fn message(&self) -> (r: String)
        ensures
            match self {
                InheritanceError::Circular(n) => r@ == "circular schema inheritance detected: '"@ + n@
                    + "' is part of an inheritance cycle"@,
                InheritanceError::Unresolved(ns) => r@ == "could not resolve schema inheritance for: "@
                    + crate::text::join_spec(crate::text::views(ns@), ", "@),
            },
    {
        match self {
            InheritanceError::Circular(n) => {
                let mut r = String::new();
                r.append("circular schema inheritance detected: '");
                r.append(n.as_str());
                r.append("' is part of an inheritance cycle");
                r
            },
            InheritanceError::Unresolved(ns) => {
                let mut r = String::new();
                r.append("could not resolve schema inheritance for: ");
                let j = crate::text::join(ns, ", ");
                r.append(j.as_str());
                r
            },
        }
    }
}

/// The position of the schema named `name`, if any.
pub fn find_schema(ss: &Vec<Schema>, name: &str) -> (r: Option<usize>)
    requires
        distinct_names(schemas_view(ss@)),
    ensures
        r is None <==> !has_schema(schemas_view(ss@), name@),
        r matches Some(i) ==> i < ss@.len() && i == schema_pos(schemas_view(ss@), name@)
            && ss@[i as int].name@ == name@,
{
    let ghost m = schemas_view(ss@);
    let mut i: usize = 0;
    while i < ss.len()
        invariant
            m == schemas_view(ss@),
            distinct_names(m),
            i <= ss@.len(),
            forall|j: int| 0 <= j < i ==> m[j].name != name@,
        decreases ss@.len() - i,
    {
        if str_eq(ss[i].name.as_str(), name) {
            assert(m[i as int].name == name@);
            let ghost k = schema_pos(m, name@);
            assert(m[k].name == name@);
            return Some(i);
        }
        i += 1;
    }
    None
}

/// For each schema, the position of the schema it extends (when that exists).
fn base_positions(ss: &Vec<Schema>) -> (r: Vec<Option<usize>>)
    requires
        distinct_names(schemas_view(ss@)),
    ensures
        r@.len() == ss@.len(),
        forall|i: int| 0 <= i < ss@.len() ==> match #[trigger] r@[i] {
            Some(j) => base_of(schemas_view(ss@), i) == Some(j as int) && j < ss@.len(),
            None => base_of(schemas_view(ss@), i) is None,
        },
{
    let ghost m = schemas_view(ss@);
    let mut out: Vec<Option<usize>> = Vec::new();
    let mut i: usize = 0;
    while i < ss.len()
        invariant
            m == schemas_view(ss@),
            distinct_names(m),
            i <= ss@.len(),
            out@.len() == i,
            forall|k: int| 0 <= k < i ==> match #[trigger] out@[k] {
                Some(j) => base_of(m, k) == Some(j as int) && j < ss@.len(),
                None => base_of(m, k) is None,
            },
        decreases ss@.len() - i,
    {
        let p = match &ss[i].extends {
            Some(b) => find_schema(ss, b.as_str()),
            None => None,
        };
        out.push(p);
        i += 1;
    }
    out
}

/// Walks the chain of schema `i` for at most `ss.len()` steps: whether it
/// ends, and (when it does) whether it ends at a missing base.
fn walk_chain(ss: &Vec<Schema>, bases: &Vec<Option<usize>>, i: usize) -> (r: (bool, bool))
    requires
        distinct_names(schemas_view(ss@)),
        i < ss@.len(),
        bases@.len() == ss@.len(),
        forall|k: int| 0 <= k < ss@.len() ==> match #[trigger] bases@[k] {
            Some(j) => base_of(schemas_view(ss@), k) == Some(j as int) && j < ss@.len(),
            None => base_of(schemas_view(ss@), k) is None,
        },
    ensures
        r.0 == chain_ends(schemas_view(ss@), i as int, ss@.len() as nat),
        r.0 ==> r.1 == chain_missing(schemas_view(ss@), i as int, ss@.len() as nat),
{
    let ghost m = schemas_view(ss@);
    let mut cur: usize = i;
    let mut fuel: usize = ss.len();
    loop
        invariant
            m == schemas_view(ss@),
            distinct_names(m),
            cur < ss@.len(),
            bases@.len() == ss@.len(),
            forall|k: int| 0 <= k < ss@.len() ==> match #[trigger] bases@[k] {
                Some(j) => base_of(m, k) == Some(j as int) && j < ss@.len(),
                None => base_of(m, k) is None,
            },
            chain_ends(m, i as int, ss@.len() as nat) == chain_ends(m, cur as int, fuel as nat),
            chain_ends(m, cur as int, fuel as nat) ==> chain_missing(m, i as int, ss@.len() as nat)
                == chain_missing(m, cur as int, fuel as nat),
        decreases fuel,
    {
        let b = bases[cur];
        match b {
            None => {
                let missing = ss[cur].extends.is_some();
                return (true, missing);
            },
            Some(j) => {
                if fuel == 0 {
                    return (false, false);
                }
                assert(m[cur as int].extends is Some);
                cur = j;
                fuel -= 1;
            },
        }
    }
}

/// The names, in order, of the first `k` schemas whose chain ends at a missing base.
pub open spec fn unresolved_upto(ss: Seq<SchemaModel>, k: int, fuel: nat) -> Seq<Seq<char>>
    decreases k,
{
    if k <= 0 {
        Seq::empty()
    } else {
        let r = unresolved_upto(ss, k - 1, fuel);
        if chain_missing(ss, k - 1, fuel) {
            r.push(ss[k - 1].name)
        } else {
            r
        }
    }
}

/// The names of the schemas flagged in `missing`.
fn unresolved_names(ss: &Vec<Schema>, missing: &Vec<bool>) -> (r: Vec<String>)
    requires
        missing@.len() == ss@.len(),
        forall|k: int| 0 <= k < ss@.len() ==> #[trigger] missing@[k] == chain_missing(
            schemas_view(ss@),
            k,
            ss@.len() as nat,
        ),
    ensures
        strs_view(r@) == unresolved_upto(schemas_view(ss@), ss@.len() as int, ss@.len() as nat),
{
    let ghost m = schemas_view(ss@);
    let ghost n = ss@.len() as nat;
    let mut out: Vec<String> = Vec::new();
    let mut i: usize = 0;
    assert(strs_view(out@) =~= Seq::<Seq<char>>::empty());
    while i < ss.len()
        invariant
            m == schemas_view(ss@),
            n == ss@.len(),
            missing@.len() == ss@.len(),
            forall|k: int| 0 <= k < ss@.len() ==> #[trigger] missing@[k] == chain_missing(m, k, n),
            i <= ss@.len(),
            strs_view(out@) == unresolved_upto(m, i as int, n),
        decreases ss@.len() - i,
    {
        if missing[i] {
            let ghost before = out@;
            out.push(ss[i].name.clone());
            assert(strs_view(out@) =~= strs_view(before).push(m[i as int].name));
        }
        i += 1;
    }
    out
}

/// The fields of `base` not named among `child`'s fields, then `child`'s fields.
fn merge_field_lists(base: &Vec<FieldDef>, child: &Vec<FieldDef>) -> (r: Vec<FieldDef>)
    ensures
        Seq::new(r@.len(), |i: int| r@[i]@) == merge_fields(
            Seq::new(base@.len(), |i: int| base@[i]@),
            Seq::new(child@.len(), |i: int| child@[i]@),
        ),
{
    let ghost bm = Seq::new(base@.len(), |i: int| base@[i]@);
    let ghost cm = Seq::new(child@.len(), |i: int| child@[i]@);
    let ghost pred = |f: FieldModel| !named_in(cm, f.name);
    let mut out: Vec<FieldDef> = Vec::new();
    let mut i: usize = 0;
    assert(bm.take(0).filter(pred) =~= Seq::<FieldModel>::empty());
    while i < base.len()
        invariant
            bm == Seq::new(base@.len(), |i: int| base@[i]@),
            cm == Seq::new(child@.len(), |i: int| child@[i]@),
            pred == (|f: FieldModel| !named_in(cm, f.name)),
            i <= base@.len(),
            Seq::new(out@.len(), |k: int| out@[k]@) == bm.take(i as int).filter(pred),
        decreases base@.len() - i,
    {
        reveal_with_fuel(Seq::<_>::filter, 1);
        assert(bm.take(i + 1).drop_last() =~= bm.take(i as int));
        let mut named = false;
        let mut k: usize = 0;
        while k < child.len()
            invariant
                cm == Seq::new(child@.len(), |i: int| child@[i]@),
                i < base@.len(),
                k <= child@.len(),
                named ==> (exists|q: int| 0 <= q < k && #[trigger] cm[q].name == base@[i as int].name@),
                !named ==> (forall|q: int| 0 <= q < k ==> #[trigger] cm[q].name != base@[i as int].name@),
            decreases child@.len() - k,
        {
            if str_eq(child[k].name.as_str(), base[i].name.as_str()) {
                assert(cm[k as int].name == base@[i as int].name@);
                named = true;
            }
            k += 1;
        }
        assert(named == named_in(cm, bm[i as int].name));
        let ghost before = Seq::new(out@.len(), |k: int| out@[k]@);
        if !named {
            out.push(base[i].copy());
            assert(Seq::new(out@.len(), |k: int| out@[k]@) =~= before.push(bm[i as int]));
        }
        i += 1;
    }
    assert(bm.take(base@.len() as int) =~= bm);
    let ghost filtered = Seq::new(out@.len(), |k: int| out@[k]@);
    let mut k: usize = 0;
    while k < child.len()
        invariant
            cm == Seq::new(child@.len(), |i: int| child@[i]@),
            k <= child@.len(),
            Seq::new(out@.len(), |q: int| out@[q]@) == filtered + cm.take(k as int),
        decreases child@.len() - k,
    {
        let ghost before = Seq::new(out@.len(), |q: int| out@[q]@);
        out.push(child[k].copy());
        assert(cm.take(k + 1) =~= cm.take(k as int).push(cm[k as int]));
        assert(Seq::new(out@.len(), |q: int| out@[q]@) =~= before.push(cm[k as int]));
        k += 1;
    }
    assert(cm.take(child@.len() as int) =~= cm);
    out
}

/// `child` completed from its completed base `base`.
fn merge_schema(base: &Schema, child: &Schema) -> (r: Schema)
    ensures
        r@ == merge(base@, child@),
{
    let fields = merge_field_lists(&base.fields, &child.fields);
    let directory = if child.directory.as_str().is_empty() { base.directory.clone() } else { child.directory.clone() };
    let prefix = if child.prefix.as_str().is_empty() { base.prefix.clone() } else { child.prefix.clone() };
    let archive = if child.archive.is_none() { copy_archive(&base.archive) } else { copy_archive(&child.archive) };
    let template = if child.template.is_none() { copy_opt(&base.template) } else { copy_opt(&child.template) };
    let r = Schema {
        name: child.name.clone(),
        directory,
        prefix,
        fields,
        archive,
        template,
        extends: copy_opt(&child.extends),
        registry: copy_opt(&child.registry),
    };
    assert(r@.fields =~= merge(base@, child@).fields);
    r
}

/// The positions of existing bases, as `base_positions` computes them.
pub open spec fn bases_match(ss: Seq<Schema>, bases: Seq<Option<usize>>) -> bool {
    &&& bases.len() == ss.len()
    &&& forall|k: int| 0 <= k < ss.len() ==> match #[trigger] bases[k] {
        Some(j) => base_of(schemas_view(ss), k) == Some(j as int) && j < ss.len(),
        None => base_of(schemas_view(ss), k) is None,
    }
}

/// Schema `i` with its chain merged in.
fn resolve_one(ss: &Vec<Schema>, bases: &Vec<Option<usize>>, i: usize, fuel: usize) -> (r: Schema)
    requires
        distinct_names(schemas_view(ss@)),
        i < ss@.len(),
        bases_match(ss@, bases@),
        chain_ends(schemas_view(ss@), i as int, fuel as nat),
    ensures
        r@ == resolved(schemas_view(ss@), i as int, fuel as nat),
    decreases fuel,
{
    match bases[i] {
        None => ss[i].copy(),
        Some(j) => {
            let b = resolve_one(ss, bases, j, fuel - 1);
            merge_schema(&b, &ss[i])
        },
    }
}

/// Schema `i` is the first whose chain does not end within `n` steps.
pub open spec fn first_unending(ss: Seq<SchemaModel>, i: int) -> bool {
    &&& 0 <= i < ss.len()
    &&& !chain_ends(ss, i, ss.len() as nat)
    &&& forall|j: int| 0 <= j < i ==> chain_ends(ss, j, ss.len() as nat)
}

/// The outcome of resolving inheritance over the schemas `m`: a circular
/// chain names a schema where a cycle is first met; otherwise missing bases
/// list the schemas that cannot be resolved; otherwise each schema is
/// resolved.
pub open spec fn resolve_outcome(m: Seq<SchemaModel>, r: Result<Vec<Schema>, InheritanceError>) -> bool {
    let n = m.len() as nat;
    match r {
        Err(InheritanceError::Circular(name)) => exists|i: int| first_unending(m, i) && #[trigger] m[i].name == name@,
        Err(InheritanceError::Unresolved(names)) => {
            &&& forall|i: int| 0 <= i < n ==> chain_ends(m, i, n)
            &&& exists|i: int| 0 <= i < n && chain_missing(m, i, n)
            &&& strs_view(names@) == unresolved_upto(m, n as int, n)
        },
        Ok(out) => {
            &&& forall|i: int| 0 <= i < n ==> chain_ends(m, i, n)
            &&& forall|i: int| 0 <= i < n ==> !chain_missing(m, i, n)
            &&& out@.len() == n
            &&& forall|i: int| 0 <= i < n ==> #[trigger] out@[i]@ == resolved(m, i, n)
        },
    }
}

/// Completes every schema with what it inherits through `extends`.
///
/// A child takes its base's fields except those it redefines (by name),
/// followed by its own; it inherits directory and prefix when its own are
/// empty, and archive and template when it has none. A chain of `extends`
/// that runs into a cycle is refused, and so is one that reaches a schema
/// that does not exist; cycles are looked for first.
pub fn resolve_inheritance(ss: &Vec<Schema>) -> (r: Result<Vec<Schema>, InheritanceError>)
    requires
        distinct_names(schemas_view(ss@)),
    ensures
        resolve_outcome(schemas_view(ss@), r),
{
    let ghost m = schemas_view(ss@);
    let ghost n = ss@.len() as nat;
    let bases = base_positions(ss);
    let mut missing: Vec<bool> = Vec::new();
    let mut any_missing = false;
    let mut i: usize = 0;
    while i < ss.len()
        invariant
            m == schemas_view(ss@),
            n == ss@.len(),
            distinct_names(m),
            bases_match(ss@, bases@),
            i <= ss@.len(),
            missing@.len() == i,
            forall|k: int| 0 <= k < i ==> chain_ends(m, k, n),
            forall|k: int| 0 <= k < i ==> #[trigger] missing@[k] == chain_missing(m, k, n),
            any_missing == (exists|k: int| 0 <= k < i && chain_missing(m, k, n)),
        decreases ss@.len() - i,
    {
        let (ends, miss) = walk_chain(ss, &bases, i);
        if !ends {
            assert(first_unending(m, i as int));
            return Err(InheritanceError::Circular(ss[i].name.clone()));
        }
        missing.push(miss);
        if miss {
            any_missing = true;
        }
        i += 1;
    }
    if any_missing {
        let names = unresolved_names(ss, &missing);
        return Err(InheritanceError::Unresolved(names));
    }
    let mut out: Vec<Schema> = Vec::new();
    let mut k: usize = 0;
    while k < ss.len()
        invariant
            m == schemas_view(ss@),
            n == ss@.len(),
            distinct_names(m),
            bases_match(ss@, bases@),
            forall|q: int| 0 <= q < n ==> chain_ends(m, q, n),
            k <= ss@.len(),
            out@.len() == k,
            forall|q: int| 0 <= q < k ==> #[trigger] out@[q]@ == resolved(m, q, n),
        decreases ss@.len() - k,
    {
        let s = resolve_one(ss, &bases, k, ss.len());
        out.push(s);
        k += 1;
    }
    Ok(out)
}

// ---------------------------------------------------------------------------
// Loading a set of schemas
// ---------------------------------------------------------------------------

/// `out` with schema `s` added under its name: it replaces the schema of the
/// same name, if there is one, and otherwise goes last.
pub open spec fn insert_by_name(out: Seq<SchemaModel>, s: SchemaModel) -> Seq<SchemaModel> {
    if has_schema(out, s.name) {
        out.update(schema_pos(out, s.name), s)
    } else {
        out.push(s)
    }
}

/// The schemas of `raw` inserted one after another by name.
pub open spec fn collected(raw: Seq<SchemaModel>) -> Seq<SchemaModel>
    decreases raw.len(),
{
    if raw.len() == 0 {
        Seq::empty()
    } else {
        insert_by_name(collected(raw.drop_last()), raw.last())
    }
}

/// Schemas read from files, keyed by name: a later schema with the same name
/// replaces an earlier one.
pub fn collect_schemas(raw: &Vec<Schema>) -> (out: Vec<Schema>)
    ensures
        schemas_view(out@) == collected(schemas_view(raw@)),
        distinct_names(schemas_view(out@)),
{
    let ghost rm = schemas_view(raw@);
    let mut out: Vec<Schema> = Vec::new();
    let mut i: usize = 0;
    assert(schemas_view(out@) =~= collected(rm.take(0)));
    while i < raw.len()
        invariant
            rm == schemas_view(raw@),
            i <= raw@.len(),
            schemas_view(out@) == collected(rm.take(i as int)),
            distinct_names(schemas_view(out@)),
        decreases raw@.len() - i,
    {
        assert(rm.take(i + 1).drop_last() =~= rm.take(i as int));
        let ghost before = schemas_view(out@);
        let s = raw[i].copy();
        match find_schema(&out, s.name.as_str()) {
            Some(p) => {
                out.set(p, s);
                assert(schemas_view(out@) =~= before.update(p as int, rm[i as int]));
            },
            None => {
                out.push(s);
                assert(schemas_view(out@) =~= before.push(rm[i as int]));
            },
        }
        i += 1;
    }
    assert(rm.take(raw@.len() as int) =~= rm);
    out
}

/// A directory given as text escapes the project: it is absolute or has `..` in it.
pub open spec fn escapes_by_text(d: Seq<char>) -> bool {
    has_prefix(d, "/"@) || has_infix(d, ".."@)
}

/// The schema's own directory escapes the project root (by its text, or by
/// where it resolves on disk, which `escapes` gives).
pub open spec fn directory_bad(s: SchemaModel, escapes: bool) -> bool {
    escapes_by_text(s.directory) || escapes
}

/// The schema's archive directory escapes the project root.
pub open spec fn archive_bad(s: SchemaModel) -> bool {
    match s.archive {
        Some(a) => escapes_by_text(a.directory),
        None => false,
    }
}

/// Some schema extends the schema named `n`.
pub open spec fn is_base(ss: Seq<SchemaModel>, n: Seq<char>) -> bool {
    exists|k: int| 0 <= k < ss.len() && #[trigger] ss[k].extends == Some(n)
}

/// Schemas `i < j`, neither of them a base of another, use the same directory.
pub open spec fn conflict(ss: Seq<SchemaModel>, i: int, j: int) -> bool {
    &&& 0 <= i < j < ss.len()
    &&& !is_base(ss, ss[i].name)
    &&& !is_base(ss, ss[j].name)
    &&& ss[i].directory == ss[j].directory
}

/// Why a set of completed schemas is refused.
pub enum SchemaSetError {
    DirectoryEscapes { schema: String, directory: String },
    ArchiveEscapes { schema: String, directory: String },
    DirectoryConflict { first: String, second: String, directory: String },
}

impl SchemaSetError {
    /// The message printed for this error.
    pub fn message(&self) -> (r: String)
        ensures
            r@ == match self {
                SchemaSetError::DirectoryEscapes { schema, directory } => "schema '"@ + schema@
                    + "' has directory '"@ + directory@
                    + "' that escapes the project root. Directories must be relative paths within the project."@,
                SchemaSetError::ArchiveEscapes { schema, directory } => "schema '"@ + schema@
                    + "' has archive directory '"@ + directory@ + "' that escapes the project root."@,
                SchemaSetError::DirectoryConflict { first, second, directory } => "schema conflict: '"@
                    + first@ + "' and '"@ + second@ + "' both use directory '"@ + directory@
                    + "'. Each artifact type must have its own directory."@,
            },
    {
        let mut r = String::new();
        match self {
            SchemaSetError::DirectoryEscapes { schema, directory } => {
                r.append("schema '");
                r.append(schema.as_str());
                r.append("' has directory '");
                r.append(directory.as_str());
                r.append("' that escapes the project root. Directories must be relative paths within the project.");
            },
            SchemaSetError::ArchiveEscapes { schema, directory } => {
                r.append("schema '");
                r.append(schema.as_str());
                r.append("' has archive directory '");
                r.append(directory.as_str());
                r.append("' that escapes the project root.");
            },
            SchemaSetError::DirectoryConflict { first, second, directory } => {
                r.append("schema conflict: '");
                r.append(first.as_str());
                r.append("' and '");
                r.append(second.as_str());
                r.append("' both use directory '");
                r.append(directory.as_str());
                r.append("'. Each artifact type must have its own directory.");
            },
        }
        r
    }
}

/// Whether `d` escapes the project by its text.
fn text_escapes(d: &str) -> (r: bool)
    ensures
        r == escapes_by_text(d@),
{
    starts_with(d, "/") || contains_str(d, "..")
}

/// Whether some schema of `ss` extends the schema named `n`.
fn extended_by_some(ss: &Vec<Schema>, n: &str) -> (r: bool)
    ensures
        r == is_base(schemas_view(ss@), n@),
{
    let ghost m = schemas_view(ss@);
    let mut k: usize = 0;
    while k < ss.len()
        invariant
            m == schemas_view(ss@),
            k <= ss@.len(),
            forall|q: int| 0 <= q < k ==> #[trigger] m[q].extends != Some(n@),
        decreases ss@.len() - k,
    {
        match &ss[k].extends {
            Some(b) => {
                if str_eq(b.as_str(), n) {
                    assert(m[k as int].extends == Some(n@));
                    return true;
                }
            },
            None => {},
        }
        k += 1;
    }
    false
}

/// Checks a set of completed schemas: no directory may escape the project
/// root, and no two types (other than those serving as bases) may share a
/// directory. `escapes[i]` tells whether schema `i`'s directory, resolved on
/// disk, lies outside the project root.
pub fn check_schema_set(ss: &Vec<Schema>, escapes: &Vec<bool>) -> (r: Result<(), SchemaSetError>)
    requires
        escapes@.len() == ss@.len(),
    ensures
        ({
            let m = schemas_view(ss@);
            match r {
                Ok(()) => {
                    &&& forall|i: int| 0 <= i < m.len() ==> !directory_bad(m[i], escapes@[i])
                    &&& forall|i: int| 0 <= i < m.len() ==> !archive_bad(#[trigger] m[i])
                    &&& forall|i: int, j: int| !conflict(m, i, j)
                },
                Err(SchemaSetError::DirectoryEscapes { schema, directory }) => exists|i: int|
                    0 <= i < m.len() && (forall|j: int| 0 <= j < i ==> !directory_bad(m[j], escapes@[j])
                        && !archive_bad(m[j])) && directory_bad(m[i], escapes@[i]) && #[trigger] m[i].name
                        == schema@ && m[i].directory == directory@,
                Err(SchemaSetError::ArchiveEscapes { schema, directory }) => exists|i: int|
                    0 <= i < m.len() && (forall|j: int| 0 <= j < i ==> !directory_bad(m[j], escapes@[j])
                        && !archive_bad(m[j])) && !directory_bad(m[i], escapes@[i]) && archive_bad(m[i])
                        && #[trigger] m[i].name == schema@ && m[i].archive.unwrap().directory == directory@,
                Err(SchemaSetError::DirectoryConflict { first, second, directory }) => {
                    &&& forall|i: int| 0 <= i < m.len() ==> !directory_bad(m[i], escapes@[i])
                    &&& forall|i: int| 0 <= i < m.len() ==> !archive_bad(#[trigger] m[i])
                    &&& exists|i: int, j: int| #[trigger] conflict(m, i, j) && m[i].name == first@ && m[j].name == second@
                        && m[i].directory == directory@
                },
            }
        }),
{
    let ghost m = schemas_view(ss@);
    let mut i: usize = 0;
    while i < ss.len()
        invariant
            m == schemas_view(ss@),
            escapes@.len() == ss@.len(),
            i <= ss@.len(),
            forall|j: int| 0 <= j < i ==> !directory_bad(m[j], escapes@[j]) && !archive_bad(m[j]),
        decreases ss@.len() - i,
    {
        let s = &ss[i];
        if text_escapes(s.directory.as_str()) || escapes[i] {
            assert(m[i as int].name == s.name@);
            return Err(SchemaSetError::DirectoryEscapes { schema: s.name.clone(), directory: s.directory.clone() });
        }
        match &s.archive {
            Some(a) => {
                if text_escapes(a.directory.as_str()) {
                    assert(m[i as int].name == s.name@);
                    return Err(SchemaSetError::ArchiveEscapes {
                        schema: s.name.clone(),
                        directory: a.directory.clone(),
                    });
                }
            },
            None => {},
        }
        i += 1;
    }
    let mut a: usize = 0;
    while a < ss.len()
        invariant
            m == schemas_view(ss@),
            a <= ss@.len(),
            escapes@.len() == ss@.len(),
            forall|j: int| 0 <= j < ss@.len() ==> !directory_bad(m[j], escapes@[j]) && !archive_bad(m[j]),
            forall|p: int, q: int| 0 <= p < a ==> !conflict(m, p, q),
        decreases ss@.len() - a,
    {
        if !extended_by_some(ss, ss[a].name.as_str()) {
            let mut b: usize = a + 1;
            while b < ss.len()
                invariant
                    m == schemas_view(ss@),
                    a < b <= ss@.len(),
                    escapes@.len() == ss@.len(),
                    forall|j: int| 0 <= j < ss@.len() ==> !directory_bad(m[j], escapes@[j]) && !archive_bad(m[j]),
                    !is_base(m, m[a as int].name),
                    forall|q: int| a < q < b ==> !conflict(m, a as int, q),
                decreases ss@.len() - b,
            {
                if !extended_by_some(ss, ss[b].name.as_str()) && str_eq(
                    ss[a].directory.as_str(),
                    ss[b].directory.as_str(),
                ) {
                    assert(conflict(m, a as int, b as int));
                    return Err(SchemaSetError::DirectoryConflict {
                        first: ss[a].name.clone(),
                        second: ss[b].name.clone(),
                        directory: ss[a].directory.clone(),
                    });
                }
                b += 1;
            }
        }
        a += 1;
    }
    Ok(())
}

// ---------------------------------------------------------------------------
// JSON Schema for frontmatter validation
// ---------------------------------------------------------------------------

/// The JSON Schema that a field's values must meet.
pub open spec fn field_json(f: FieldModel) -> Val {
    match f.field_type {
        FieldType::String => match f.pattern {
            Some(p) => Val::Object(seq![("type"@, Val::Str("string"@)), ("pattern"@, Val::Str(p))]),
            None => Val::Object(seq![("type"@, Val::Str("string"@))]),
        },
        FieldType::Integer => Val::Object(seq![("type"@, Val::Str("integer"@))]),
        FieldType::Date => Val::Object(
            seq![("type"@, Val::Str("string"@)), ("pattern"@, Val::Str("^\\d{4}-\\d{2}-\\d{2}$"@))],
        ),
        FieldType::Enum => match f.values {
            Some(vs) => Val::Object(
                seq![
                    ("type"@, Val::Str("string"@)),
                    ("enum"@, Val::List(Seq::new(vs.len(), |i: int| Val::Str(vs[i])))),
                ],
            ),
            None => Val::Object(seq![("type"@, Val::Str("string"@))]),
        },
        FieldType::List => Val::Object(
            seq![("type"@, Val::Str("array"@)), ("items"@, Val::Object(seq![("type"@, Val::Str("string"@))]))],
        ),
        FieldType::Boolean => Val::Object(seq![("type"@, Val::Str("boolean"@))]),
    }
}

/// Some entry of `es` has key `k`.
pub open spec fn entry_has(es: Seq<(Seq<char>, Val)>, k: Seq<char>) -> bool {
    exists|i: int| 0 <= i < es.len() && #[trigger] es[i].0 == k
}

/// The position of an entry of `es` with key `k` (meaningful when there is one).
pub open spec fn entry_pos(es: Seq<(Seq<char>, Val)>, k: Seq<char>) -> int {
    choose|i: int| 0 <= i < es.len() && #[trigger] es[i].0 == k
}

/// `es` with `(k, v)` put in: replacing the entry with key `k`, or going last.
pub open spec fn entry_insert(es: Seq<(Seq<char>, Val)>, k: Seq<char>, v: Val) -> Seq<(Seq<char>, Val)> {
    if entry_has(es, k) {
        es.update(entry_pos(es, k), (k, v))
    } else {
        es.push((k, v))
    }
}

/// `entry_insert` puts the entry in and keeps the entries of other keys.
pub proof fn lemma_entry_insert(es: Seq<(Seq<char>, Val)>, k: Seq<char>, v: Val)
    ensures
        entry_insert(es, k, v).contains((k, v)),
        forall|e: (Seq<char>, Val)| es.contains(e) && e.0 != k ==> #[trigger] entry_insert(es, k, v).contains(e),
{
    if entry_has(es, k) {
        let c = entry_pos(es, k);
        assert(0 <= c < es.len());
        let r = es.update(c, (k, v));
        assert(entry_insert(es, k, v) == r);
        assert(r[c] == (k, v));
        assert(r.contains((k, v)));
        assert forall|e: (Seq<char>, Val)| es.contains(e) && e.0 != k implies #[trigger] r.contains(e) by {
            let j = choose|j: int| 0 <= j < es.len() && es[j] == e;
            assert(j != c);
            assert(r[j] == e);
        }
    } else {
        let r = es.push((k, v));
        assert(entry_insert(es, k, v) == r);
        assert(r[es.len() as int] == (k, v));
        assert(r.contains((k, v)));
        assert forall|e: (Seq<char>, Val)| es.contains(e) && e.0 != k implies #[trigger] r.contains(e) by {
            let j = choose|j: int| 0 <= j < es.len() && es[j] == e;
            assert(r[j] == e);
        }
    }
}

/// The `properties` object: one entry per field name, the last definition of a name winning.
pub open spec fn properties_json(fs: Seq<FieldModel>) -> Seq<(Seq<char>, Val)>
    decreases fs.len(),
{
    if fs.len() == 0 {
        Seq::empty()
    } else {
        entry_insert(properties_json(fs.drop_last()), fs.last().name, field_json(fs.last()))
    }
}

/// The `required` list: the names of required fields that are not derived.
pub open spec fn required_json(fs: Seq<FieldModel>) -> Seq<Val>
    decreases fs.len(),
{
    if fs.len() == 0 {
        Seq::empty()
    } else if fs.last().required && !fs.last().derived {
        required_json(fs.drop_last()).push(Val::Str(fs.last().name))
    } else {
        required_json(fs.drop_last())
    }
}

/// The JSON Schema for a schema's frontmatter.
pub open spec fn schema_json(s: SchemaModel) -> Val {
    Val::Object(
        seq![
            ("type"@, Val::Str("object"@)),
            ("properties"@, Val::Object(properties_json(s.fields))),
            ("required"@, Val::List(required_json(s.fields))),
        ],
    )
}

/// The models of object entries.
pub open spec fn entries_deep(es: Seq<(String, Value)>) -> Seq<(Seq<char>, Val)> {
    Seq::new(es.len(), |i: int| (es[i].0@, es[i].1.deep()))
}

/// A string value.
fn str_value(s: &str) -> (r: Value)
    ensures
        r.deep() == Val::Str(s@),
{
    Value::Str(owned(s))
}

/// The object value with the given entries.
pub(crate) fn object(es: Vec<(String, Value)>) -> (r: Value)
    ensures
        r.deep() == Val::Object(entries_deep(es@)),
{
    let ghost m = entries_deep(es@);
    let r = Value::Object(es);
    assert(r.deep()->Object_0 =~= m);
    r
}

/// The object `{k: v}`.
fn obj1(k: &str, v: Value) -> (r: Value)
    ensures
        r.deep() == Val::Object(seq![(k@, v.deep())]),
{
    let ghost e = seq![(k@, v.deep())];
    let mut es: Vec<(String, Value)> = Vec::new();
    es.push((owned(k), v));
    let r = object(es);
    assert(entries_deep(es@) =~= e);
    r
}

/// The object `{k1: v1, k2: v2}`.
fn obj2(k1: &str, v1: Value, k2: &str, v2: Value) -> (r: Value)
    ensures
        r.deep() == Val::Object(seq![(k1@, v1.deep()), (k2@, v2.deep())]),
{
    let ghost e = seq![(k1@, v1.deep()), (k2@, v2.deep())];
    let mut es: Vec<(String, Value)> = Vec::new();
    es.push((owned(k1), v1));
    es.push((owned(k2), v2));
    let r = object(es);
    assert(entries_deep(es@) =~= e);
    r
}

/// The list of the given strings.
pub(crate) fn str_list(vs: &Vec<String>) -> (r: Value)
    ensures
        r.deep() == Val::List(Seq::new(vs@.len(), |i: int| Val::Str(strs_view(vs@)[i]))),
{
    let mut items: Vec<Value> = Vec::new();
    let mut i: usize = 0;
    while i < vs.len()
        invariant
            i <= vs@.len(),
            items@.len() == i,
            forall|k: int| 0 <= k < i ==> #[trigger] items@[k].deep() == Val::Str(vs@[k]@),
        decreases vs@.len() - i,
    {
        items.push(Value::Str(vs[i].clone()));
        i += 1;
    }
    let ghost im = items@;
    let list = Value::List(items);
    assert forall|k: int| 0 <= k < vs@.len() implies #[trigger] list.deep()->List_0[k] == Val::Str(
        strs_view(vs@)[k],
    ) by {
        assert(im[k].deep() == Val::Str(vs@[k]@));
    }
    assert(list.deep()->List_0 =~= Seq::new(vs@.len(), |i: int| Val::Str(strs_view(vs@)[i])));
    list
}

impl FieldDef {
    /// The JSON Schema this field's values must meet.
    pub fn to_json(&self) -> (r: Value)
        ensures
            r.deep() == field_json(self@),
            crate::command_laws::field_checks(self@, r.deep()),
    {
        proof {
            crate::command_laws::law_field_json_checks(self@);
        }
        match self.field_type {
            FieldType::String => match &self.pattern {
                Some(p) => obj2("type", str_value("string"), "pattern", Value::Str(p.clone())),
                None => obj1("type", str_value("string")),
            },
            FieldType::Integer => obj1("type", str_value("integer")),
            FieldType::Date => obj2("type", str_value("string"), "pattern", str_value("^\\d{4}-\\d{2}-\\d{2}$")),
            FieldType::Enum => match &self.values {
                Some(vs) => obj2("type", str_value("string"), "enum", str_list(vs)),
                None => obj1("type", str_value("string")),
            },
            FieldType::List => obj2("type", str_value("array"), "items", obj1("type", str_value("string"))),
            FieldType::Boolean => obj1("type", str_value("boolean")),
        }
    }
}

/// The position of the entry with key `k` in `es`, whose keys are distinct.
fn find_entry(es: &Vec<(String, Value)>, k: &str) -> (r: Option<usize>)
    requires
        forall|a: int, b: int| 0 <= a < es@.len() && 0 <= b < es@.len() && a != b ==> es@[a].0@ != es@[b].0@,
    ensures
        r is None <==> !entry_has(entries_deep(es@), k@),
        r matches Some(p) ==> p < es@.len() && p == entry_pos(entries_deep(es@), k@),
{
    let ghost m = entries_deep(es@);
    let mut p: usize = 0;
    while p < es.len()
        invariant
            m == entries_deep(es@),
            forall|a: int, b: int| 0 <= a < es@.len() && 0 <= b < es@.len() && a != b ==> es@[a].0@ != es@[b].0@,
            p <= es@.len(),
            forall|q: int| 0 <= q < p ==> #[trigger] es@[q].0@ != k@,
        decreases es@.len() - p,
    {
        if str_eq(es[p].0.as_str(), k) {
            assert(m[p as int].0 == k@);
            let ghost c = entry_pos(m, k@);
            assert(es@[c].0@ == k@);
            return Some(p);
        }
        p += 1;
    }
    assert forall|i: int| 0 <= i < m.len() implies #[trigger] m[i].0 != k@ by {
        assert(es@[i].0@ != k@);
    }
    None
}

impl Schema {
    /// The JSON Schema that this schema's artifact frontmatter must meet:
    /// each field's constraint under `properties`, and under `required` the
    /// fields that are required and not derived.
    pub fn to_json_schema(&self) -> (r: Value)
        ensures
            r.deep() == schema_json(self@),
    {
        let ghost fm = self@.fields;
        let mut props: Vec<(String, Value)> = Vec::new();
        let mut required: Vec<Value> = Vec::new();
        let mut i: usize = 0;
        assert(fm.take(0) =~= Seq::<FieldModel>::empty());
        assert(entries_deep(props@) =~= Seq::<(Seq<char>, Val)>::empty());
        assert(Seq::new(required@.len(), |k: int| required@[k].deep()) =~= Seq::<Val>::empty());
        while i < self.fields.len()
            invariant
                fm == self@.fields,
                i <= self.fields@.len(),
                entries_deep(props@) == properties_json(fm.take(i as int)),
                forall|a: int, b: int| 0 <= a < props@.len() && 0 <= b < props@.len() && a != b ==> props@[a].0@ != props@[b].0@,
                Seq::new(required@.len(), |k: int| required@[k].deep()) == required_json(fm.take(i as int)),
            decreases self.fields@.len() - i,
        {
            assert(fm.take(i + 1).drop_last() =~= fm.take(i as int));
            let f = &self.fields[i];
            assert(fm[i as int] == f@);
            let ghost before = entries_deep(props@);
            let ghost praw = props@;
            let fj = f.to_json();
            match find_entry(&props, f.name.as_str()) {
                Some(p) => {
                    props.set(p, (f.name.clone(), fj));
                    assert(entries_deep(props@) =~= before.update(p as int, (f@.name, field_json(f@))));
                    assert forall|a: int, b: int| 0 <= a < props@.len() && 0 <= b < props@.len() && a != b
                        implies props@[a].0@ != props@[b].0@ by {
                        assert(praw[a].0@ != praw[b].0@);
                    }
                },
                None => {
                    props.push((f.name.clone(), fj));
                    assert(entries_deep(props@) =~= before.push((f@.name, field_json(f@))));
                    assert forall|a: int, b: int| 0 <= a < props@.len() && 0 <= b < props@.len() && a != b
                        implies props@[a].0@ != props@[b].0@ by {
                        if a < praw.len() && b < praw.len() {
                            assert(praw[a].0@ != praw[b].0@);
                        } else if a < praw.len() {
                            assert(before[a].0 != f.name@);
                        } else {
                            assert(before[b].0 != f.name@);
                        }
                    }
                },
            }
            let ghost rb = Seq::new(required@.len(), |k: int| required@[k].deep());
            if f.required && !f.derived {
                required.push(Value::Str(f.name.clone()));
                assert(Seq::new(required@.len(), |k: int| required@[k].deep()) =~= rb.push(Val::Str(f@.name)));
            } else {
                assert(Seq::new(required@.len(), |k: int| required@[k].deep()) =~= rb);
            }
            i += 1;
        }
        assert(fm.take(self.fields@.len() as int) =~= fm);
        let ghost rm = Seq::new(required@.len(), |k: int| required@[k].deep());
        let req = Value::List(required);
        assert(req.deep()->List_0 =~= rm);
        let ghost pm = entries_deep(props@);
        let props_v = object(props);
        let mut top: Vec<(String, Value)> = Vec::new();
        top.push((owned("type"), str_value("object")));
        top.push((owned("properties"), props_v));
        top.push((owned("required"), req));
        let ghost e = seq![
            ("type"@, Val::Str("object"@)),
            ("properties"@, Val::Object(pm)),
            ("required"@, Val::List(rm)),
        ];
        assert(entries_deep(top@) =~= e);
        object(top)
    }
}

/// Why the schemas of a project cannot be used.
pub enum LoadError {
    /// There are no schema files.
    NoSchemas,
    /// No schema has the requested name.
    UnknownType(String),
    /// Inheritance cannot be resolved.
    Inheritance(InheritanceError),
}

/// The schemas of a project, from the schemas read from its files (a later
/// one replacing an earlier one of the same name): none is an error;
/// otherwise inheritance is resolved (see [`resolve_outcome`]).
pub fn prepare_schemas(raw: &Vec<Schema>) -> (r: Result<Vec<Schema>, LoadError>)
    ensures
        collected(schemas_view(raw@)).len() == 0 <==> r matches Err(LoadError::NoSchemas),
        collected(schemas_view(raw@)).len() > 0 ==> match r {
            Ok(out) => resolve_outcome(collected(schemas_view(raw@)), Ok(out)),
            Err(LoadError::Inheritance(e)) => resolve_outcome(collected(schemas_view(raw@)), Err(e)),
            _ => false,
        },
{
    let all = collect_schemas(raw);
    if all.len() == 0 {
        return Err(LoadError::NoSchemas);
    }
    match resolve_inheritance(&all) {
        Ok(out) => Ok(out),
        Err(e) => Err(LoadError::Inheritance(e)),
    }
}

/// The schema named `name` among those read from a project's files, with
/// inheritance resolved: an error when no schema has that name, or when
/// inheritance cannot be resolved.
pub fn select_schema(raw: &Vec<Schema>, name: &str) -> (r: Result<Schema, LoadError>)
    ensures
        !has_schema(collected(schemas_view(raw@)), name@) <==> r matches Err(LoadError::UnknownType(t)),
        r matches Err(LoadError::UnknownType(t)) ==> t@ == name@,
        r is Err <==> !has_schema(collected(schemas_view(raw@)), name@) || !(forall|i: int|
            0 <= i < collected(schemas_view(raw@)).len() ==> chain_ends(
                collected(schemas_view(raw@)),
                i,
                collected(schemas_view(raw@)).len() as nat,
            ) && !chain_missing(collected(schemas_view(raw@)), i, collected(schemas_view(raw@)).len() as nat)),
        r matches Err(LoadError::Inheritance(e)) ==> resolve_outcome(collected(schemas_view(raw@)), Err(e)),
        r matches Ok(s) ==> s@ == resolved(
            collected(schemas_view(raw@)),
            schema_pos(collected(schemas_view(raw@)), name@),
            collected(schemas_view(raw@)).len() as nat,
        ),
        !(r matches Err(LoadError::NoSchemas)),
{
    let all = collect_schemas(raw);
    let ghost m = schemas_view(all@);
    let ghost n = m.len() as nat;
    let p = match find_schema(&all, name) {
        Some(p) => p,
        None => {
            return Err(LoadError::UnknownType(crate::text::owned(name)));
        },
    };
    match resolve_inheritance(&all) {
        Ok(out) => {
            assert(out@[p as int]@ == resolved(m, p as int, n));
            Ok(out[p].copy())
        },
        Err(e) => {
            proof {
                if e is Circular {
                    let nm = e->Circular_0;
                    let i = choose|i: int| first_unending(m, i) && #[trigger] m[i].name == nm@;
                    assert(!chain_ends(m, i, n));
                } else {
                    let i = choose|i: int| 0 <= i < n && chain_missing(m, i, n);
                }
            }
            Err(LoadError::Inheritance(e))
        },
    }
}

/// The first of `has_ark[0..n]` that holds.
pub open spec fn first_marked(has_ark: Seq<bool>, n: int) -> Option<int>
    decreases n,
{
    if n <= 0 {
        None
    } else {
        match first_marked(has_ark, n - 1) {
            Some(i) => Some(i),
            None => if has_ark[n - 1] { Some(n - 1) } else { None },
        }
    }
}

/// The project root for a command run in `dirs[0]`: the first of `dirs`
/// (the starting directory, then each parent in turn) that has a `.ark`
/// directory (`has_ark`); none is an error.
pub fn find_ark_root(dirs: &Vec<String>, has_ark: &Vec<bool>) -> (r: Result<String, crate::error::ArkError>)
    requires
        dirs@.len() == has_ark@.len(),
    ensures
        r is Err <==> first_marked(has_ark@, has_ark@.len() as int) is None,
        r matches Err(e) ==> e is NotInitialized,
        r matches Ok(d) ==> d@ == dirs@[first_marked(has_ark@, has_ark@.len() as int).unwrap()]@,
{
    let mut i: usize = 0;
    while i < dirs.len()
        invariant
            dirs@.len() == has_ark@.len(),
            i <= dirs@.len(),
            first_marked(has_ark@, i as int) is None,
        decreases dirs@.len() - i,
    {
        if has_ark[i] {
            proof {
                lemma_first_marked_stays(has_ark@, i as int + 1, has_ark@.len() as int);
            }
            return Ok(dirs[i].clone());
        }
        i += 1;
    }
    Err(crate::error::ArkError::NotInitialized)
}

proof fn lemma_first_marked_stays(has_ark: Seq<bool>, a: int, b: int)
    requires
        0 <= a <= b,
        first_marked(has_ark, a) is Some,
    ensures
        first_marked(has_ark, b) == first_marked(has_ark, a),
    decreases b - a,
{
    if b > a {
        lemma_first_marked_stays(has_ark, a, b - 1);
    }
}

} // verus!
