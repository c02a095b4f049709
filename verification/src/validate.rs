//! Checks made when artifacts are created or edited.
use vstd::prelude::*;

use crate::artifact::{all_digits, digits_value, int_field, opt_str, str_field, Artifact};
use crate::schema::{field_named, strs_view, FieldModel, FieldType, Schema};
use crate::pattern::{regex_accepts, regex_check, regex_finds, regex_is_match};
use crate::text::{chars_of, join, join_spec, str_eq, views};
use crate::value::{Frontmatter, Val, Value};

verus! {

/// What `NaiveDate::parse_from_str(s, "%Y-%m-%d")` of chrono accepts.
pub uninterp spec fn ymd_date(s: Seq<char>) -> bool;

/// Whether chrono reads `s` as a date in the format `%Y-%m-%d`.
#[verifier::external_body]
fn parses_as_date(s: &str) -> (r: bool)
    ensures
        r == ymd_date(s@),
{
    chrono::NaiveDate::parse_from_str(s, "%Y-%m-%d").is_ok()
}

/// What `i64::from_str` gives: an optional sign, then one or more ASCII
/// digits, for a value in the range of `i64`.
pub open spec fn parse_i64_spec(s: Seq<char>) -> Option<int> {
    if s.len() > 0 && s[0] == '-' {
        let t = s.drop_first();
        if t.len() > 0 && all_digits(t) && digits_value(t) <= 0x8000_0000_0000_0000 {
            Some(-(digits_value(t) as int))
        } else {
            None
        }
    } else {
        let t = if s.len() > 0 && s[0] == '+' { s.drop_first() } else { s };
        if t.len() > 0 && all_digits(t) && digits_value(t) <= 0x7fff_ffff_ffff_ffff {
            Some(digits_value(t) as int)
        } else {
            None
        }
    }
}

proof fn lemma_digits_value_grows(s: Seq<char>, k: int)
    requires
        0 <= k <= s.len(),
        all_digits(s),
    ensures
        digits_value(s.take(k)) <= digits_value(s),
    decreases s.len() - k,
{
    if k < s.len() {
        lemma_digits_value_grows(s, k + 1);
        assert(s.take(k + 1).drop_last() =~= s.take(k));
    } else {
        assert(s.take(k) =~= s);
    }
}

/// The value of the digits `x[from..]`, when they are digits and the value is at most `bound`.
fn digits_up_to(x: &Vec<char>, from: usize, bound: u64) -> (r: Option<u64>)
    requires
        from <= x@.len(),
        9 <= bound <= 0x8000_0000_0000_0000,
    ensures
        match r {
            Some(v) => all_digits(x@.skip(from as int)) && digits_value(x@.skip(from as int)) == v && v <= bound,
            None => !all_digits(x@.skip(from as int)) || digits_value(x@.skip(from as int)) > bound,
        },
{
    let ghost t = x@.skip(from as int);
    let mut v: u64 = 0;
    let mut i: usize = from;
    assert(t.take(0) =~= Seq::<char>::empty());
    while i < x.len()
        invariant
            from <= i <= x@.len(),
            9 <= bound <= 0x8000_0000_0000_0000,
            t == x@.skip(from as int),
            all_digits(t.take(i - from)),
            v == digits_value(t.take(i - from)),
            v <= bound,
        decreases x@.len() - i,
    {
        let c = x[i];
        assert(t[i - from] == c);
        assert(t.take(i - from + 1).drop_last() =~= t.take(i - from));
        let code = c as u32;
        if code < 48 || code > 57 {
            assert(!crate::artifact::is_digit(t[i - from]));
            return None;
        }
        let d = (code - 48) as u64;
        if v > (bound - d) / 10 {
            proof {
                assert(v * 10 + d > bound) by (nonlinear_arith)
                    requires
                        v > (bound - d) / 10,
                        d <= 9,
                        9 <= bound,
                ;
                assert(all_digits(t.take(i - from + 1)));
                if all_digits(t) {
                    lemma_digits_value_grows(t, i - from + 1);
                }
            }
            return None;
        }
        v = v * 10 + d;
        i += 1;
    }
    assert(t.take(x@.len() - from) =~= t);
    Some(v)
}

/// `i64::from_str`.
pub fn parse_i64(s: &str) -> (r: Option<i64>)
    ensures
        match r {
            Some(v) => parse_i64_spec(s@) == Some(v as int),
            None => parse_i64_spec(s@) is None,
        },
{
    let x = chars_of(s);
    if x.len() == 0 {
        return None;
    }
    if x[0] == '-' {
        assert(x@.drop_first() =~= x@.skip(1));
        if x.len() == 1 {
            return None;
        }
        match digits_up_to(&x, 1, 0x8000_0000_0000_0000) {
            Some(v) => {
                if v == 0x8000_0000_0000_0000 {
                    Some(i64::MIN)
                } else {
                    Some(-(v as i64))
                }
            },
            None => None,
        }
    } else {
        let start: usize = if x[0] == '+' { 1 } else { 0 };
        if x[0] == '+' {
            assert(x@.drop_first() =~= x@.skip(1));
        } else {
            assert(x@ =~= x@.skip(0));
        }
        if start == x.len() {
            return None;
        }
        match digits_up_to(&x, start, 0x7fff_ffff_ffff_ffff) {
            Some(v) => Some(v as i64),
            None => None,
        }
    }
}

/// A value refused by a schema.
pub enum ValidationError {
    /// The field is derived: ark sets it itself.
    Derived { field: String },
    /// The value is not among the field's values.
    InvalidEnum { value: String, field: String, values: Vec<String> },
    /// The field holds integers.
    NotInteger { field: String, value: String },
    /// The field holds dates `YYYY-MM-DD`.
    NotDate { field: String, value: String },
    /// The field holds `true` or `false`.
    NotBoolean { field: String, value: String },
    /// These required fields have no value.
    MissingRequired { fields: Vec<String> },
    /// Another artifact already has this priority.
    DuplicatePriority { priority: i64, used_by: String },
    /// The value does not match the field's pattern.
    PatternMismatch { field: String, value: String, pattern: String },
}

impl ValidationError {
    /// The text of the message for this error.
    pub open spec fn message_text(&self) -> Seq<char> {
        match self {
            ValidationError::Derived { field } => "field '"@ + field@
                + "' is derived (auto-managed). It cannot be set manually."@,
            ValidationError::InvalidEnum { value, field, values } => "invalid value '"@ + value@
                + "' for field '"@ + field@ + "'. Valid values: "@ + join_spec(views(values@), ", "@),
            ValidationError::NotInteger { field, value } => "field '"@ + field@
                + "' requires an integer value, got '"@ + value@ + "'"@,
            ValidationError::NotDate { field, value } => "field '"@ + field@
                + "' requires a date in YYYY-MM-DD format, got '"@ + value@ + "'"@,
            ValidationError::NotBoolean { field, value } => "field '"@ + field@
                + "' requires true or false, got '"@ + value@ + "'"@,
            ValidationError::MissingRequired { fields } => "missing required fields: "@
                + join_spec(views(fields@), ", "@) + ". Use --set or named flags to provide them."@,
            ValidationError::DuplicatePriority { priority, used_by } => "priority "@
                + crate::text::int_text(*priority as int) + " is already used by "@ + used_by@
                + ". Use `ark list` to see current priorities."@,
            ValidationError::PatternMismatch { field, value, pattern } => "field '"@ + field@ + "' value '"@
                + value@ + "' does not match pattern '"@ + pattern@ + "'"@,
        }
    }

    /// The message printed for this error.
    pub fn message(&self) -> (r: String)
        ensures
            r@ == self.message_text(),
    {
        let mut r = String::new();
        match self {
            ValidationError::Derived { field } => {
                r.append("field '");
                r.append(field.as_str());
                r.append("' is derived (auto-managed). It cannot be set manually.");
            },
            ValidationError::InvalidEnum { value, field, values } => {
                r.append("invalid value '");
                r.append(value.as_str());
                r.append("' for field '");
                r.append(field.as_str());
                r.append("'. Valid values: ");
                let j = join(values, ", ");
                r.append(j.as_str());
            },
            ValidationError::NotInteger { field, value } => {
                r.append("field '");
                r.append(field.as_str());
                r.append("' requires an integer value, got '");
                r.append(value.as_str());
                r.append("'");
            },
            ValidationError::NotDate { field, value } => {
                r.append("field '");
                r.append(field.as_str());
                r.append("' requires a date in YYYY-MM-DD format, got '");
                r.append(value.as_str());
                r.append("'");
            },
            ValidationError::NotBoolean { field, value } => {
                r.append("field '");
                r.append(field.as_str());
                r.append("' requires true or false, got '");
                r.append(value.as_str());
                r.append("'");
            },
            ValidationError::MissingRequired { fields } => {
                r.append("missing required fields: ");
                let j = join(fields, ", ");
                r.append(j.as_str());
                r.append(". Use --set or named flags to provide them.");
            },
            ValidationError::DuplicatePriority { priority, used_by } => {
                r.append("priority ");
                let t = crate::text::i64_text(*priority);
                r.append(t.as_str());
                r.append(" is already used by ");
                r.append(used_by.as_str());
                r.append(". Use `ark list` to see current priorities.");
            },
            ValidationError::PatternMismatch { field, value, pattern } => {
                r.append("field '");
                r.append(field.as_str());
                r.append("' value '");
                r.append(value.as_str());
                r.append("' does not match pattern '");
                r.append(pattern.as_str());
                r.append("'");
            },
        }
        r
    }
}

/// Whether `v` is one of `values`.
pub fn contains_string(values: &Vec<String>, v: &str) -> (r: bool)
    ensures
        r == strs_view(values@).contains(v@),
{
    let mut i: usize = 0;
    while i < values.len()
        invariant
            i <= values@.len(),
            forall|j: int| 0 <= j < i ==> values@[j]@ != v@,
        decreases values@.len() - i,
    {
        if str_eq(values[i].as_str(), v) {
            assert(strs_view(values@)[i as int] == v@);
            return true;
        }
        i += 1;
    }
    false
}

/// How a schema field judges a value given on the command line.
pub open spec fn field_verdict(f: FieldModel, value: Seq<char>) -> Option<int> {
    if f.derived {
        Some(0)
    } else {
        match f.field_type {
            FieldType::Enum => match f.values {
                Some(vs) => if vs.contains(value) { None } else { Some(1) },
                None => None,
            },
            FieldType::Integer => if parse_i64_spec(value) is Some { None } else { Some(2) },
            FieldType::Date => if ymd_date(value) { None } else { Some(3) },
            FieldType::Boolean => if value == "true"@ || value == "false"@ { None } else { Some(4) },
            FieldType::String => match f.pattern {
                Some(p) => if regex_accepts(p) && !regex_finds(p, value) { Some(7) } else { None },
                None => None,
            },
            _ => None,
        }
    }
}

/// The kind of a validation error, numbered as in [`field_verdict`].
pub open spec fn verdict_of(e: ValidationError) -> int {
    match e {
        ValidationError::Derived { .. } => 0,
        ValidationError::InvalidEnum { .. } => 1,
        ValidationError::NotInteger { .. } => 2,
        ValidationError::NotDate { .. } => 3,
        ValidationError::NotBoolean { .. } => 4,
        ValidationError::MissingRequired { .. } => 5,
        ValidationError::DuplicatePriority { .. } => 6,
        ValidationError::PatternMismatch { .. } => 7,
    }
}

/// The outcome of checking `value` for field `name` of `fs`: a field the
/// schema does not define takes any value; a derived field takes none;
/// otherwise enum, integer, date and boolean fields check the value's form,
/// a string field with a pattern (one that compiles) checks that the pattern
/// matches the value, and the error names the field and the value.
pub open spec fn field_report(fs: Seq<FieldModel>, name: Seq<char>, value: Seq<char>, r: Result<(), ValidationError>) -> bool {
    match field_named(fs, name) {
        None => r is Ok,
        Some(f) => match field_verdict(f, value) {
            None => r is Ok,
            Some(k) => r matches Err(e) && verdict_of(e) == k && match e {
                ValidationError::Derived { field } => field@ == name,
                ValidationError::InvalidEnum { value: v, field, values } => v@ == value && field@ == name
                    && Some(strs_view(values@)) == f.values,
                ValidationError::NotInteger { field, value: v } => field@ == name && v@ == value,
                ValidationError::NotDate { field, value: v } => field@ == name && v@ == value,
                ValidationError::NotBoolean { field, value: v } => field@ == name && v@ == value,
                ValidationError::PatternMismatch { field, value: v, pattern } => field@ == name && v@ == value
                    && Some(pattern@) == f.pattern,
                _ => false,
            },
        },
    }
}

/// The field `name` of `fs` refuses `value`.
pub open spec fn refuses(fs: Seq<FieldModel>, name: Seq<char>, value: Seq<char>) -> bool {
    match field_named(fs, name) {
        Some(f) => field_verdict(f, value) is Some,
        None => false,
    }
}

/// Checks a value given for field `field_name` against the schema, as
/// [`field_report`] states.
pub fn validate_field_value(schema: &Schema, field_name: &str, value: &str) -> (r: Result<(), ValidationError>)
    ensures
        field_report(schema@.fields, field_name@, value@, r),
        r is Err <==> refuses(schema@.fields, field_name@, value@),
{
    match schema.get_field(field_name) {
        None => Ok(()),
        Some(field) => {
            if field.derived {
                return Err(ValidationError::Derived { field: crate::text::owned(field_name) });
            }
            match field.field_type {
                FieldType::Enum => {
                    match &field.values {
                        Some(values) => {
                            if !contains_string(values, value) {
                                return Err(ValidationError::InvalidEnum {
                                    value: crate::text::owned(value),
                                    field: crate::text::owned(field_name),
                                    values: crate::schema::copy_strs(values),
                                });
                            }
                            Ok(())
                        },
                        None => Ok(()),
                    }
                },
                FieldType::Integer => {
                    if parse_i64(value).is_none() {
                        return Err(ValidationError::NotInteger {
                            field: crate::text::owned(field_name),
                            value: crate::text::owned(value),
                        });
                    }
                    Ok(())
                },
                FieldType::Date => {
                    if !parses_as_date(value) {
                        return Err(ValidationError::NotDate {
                            field: crate::text::owned(field_name),
                            value: crate::text::owned(value),
                        });
                    }
                    Ok(())
                },
                FieldType::Boolean => {
                    if !(str_eq(value, "true") || str_eq(value, "false")) {
                        return Err(ValidationError::NotBoolean {
                            field: crate::text::owned(field_name),
                            value: crate::text::owned(value),
                        });
                    }
                    Ok(())
                },
                FieldType::String => {
                    match &field.pattern {
                        Some(p) => {
                            if regex_check(p.as_str()).is_ok() && !regex_is_match(p.as_str(), value) {
                                return Err(ValidationError::PatternMismatch {
                                    field: crate::text::owned(field_name),
                                    value: crate::text::owned(value),
                                    pattern: p.clone(),
                                });
                            }
                            Ok(())
                        },
                        None => Ok(()),
                    }
                },
                _ => Ok(()),
            }
        },
    }
}

/// The names of the required, non-derived fields of `fs` that `present` lacks, in order.
pub open spec fn missing_required(fs: Seq<FieldModel>, present: Set<Seq<char>>) -> Seq<Seq<char>>
    decreases fs.len(),
{
    if fs.len() == 0 {
        Seq::empty()
    } else {
        let r = missing_required(fs.drop_last(), present);
        let f = fs.last();
        if f.required && !f.derived && !present.contains(f.name) {
            r.push(f.name)
        } else {
            r
        }
    }
}

/// Checks that every required field that is not derived has a value.
pub fn validate_required_fields(schema: &Schema, frontmatter: &Frontmatter) -> (r: Result<(), ValidationError>)
    requires
        frontmatter.wf(),
    ensures
        missing_required(schema@.fields, frontmatter@.dom()).len() == 0 ==> r is Ok,
        missing_required(schema@.fields, frontmatter@.dom()).len() > 0 ==> (r matches Err(
            ValidationError::MissingRequired { fields },
        ) && views(fields@) == missing_required(schema@.fields, frontmatter@.dom())),
{
    let ghost fm = schema@.fields;
    let ghost dom = frontmatter@.dom();
    let mut missing: Vec<String> = Vec::new();
    let mut i: usize = 0;
    assert(fm.take(0) =~= Seq::<FieldModel>::empty());
    assert(views(missing@) =~= Seq::<Seq<char>>::empty());
    while i < schema.fields.len()
        invariant
            fm == schema@.fields,
            dom == frontmatter@.dom(),
            frontmatter.wf(),
            i <= schema.fields@.len(),
            views(missing@) == missing_required(fm.take(i as int), dom),
        decreases schema.fields@.len() - i,
    {
        assert(fm.take(i + 1).drop_last() =~= fm.take(i as int));
        let f = &schema.fields[i];
        assert(fm[i as int] == f@);
        if f.required && !f.derived && !frontmatter.contains_key(f.name.as_str()) {
            let ghost before = views(missing@);
            missing.push(f.name.clone());
            assert(views(missing@) =~= before.push(f.name@));
        }
        i += 1;
    }
    assert(fm.take(schema.fields@.len() as int) =~= fm);
    if missing.len() > 0 {
        return Err(ValidationError::MissingRequired { fields: missing });
    }
    Ok(())
}

/// Artifact `a` already has priority `p`, and is not the artifact `exclude`.
pub open spec fn priority_clash(a: Artifact, p: int, exclude: Option<Seq<char>>) -> bool {
    &&& int_field(a.frontmatter@, "priority"@) == Some(p)
    &&& !(exclude is Some && str_field(a.frontmatter@, "id"@) == exclude)
}

/// Some artifact of `existing` other than `exclude` already has priority `p`.
pub open spec fn priority_taken(existing: Seq<Artifact>, p: int, exclude: Option<Seq<char>>) -> bool {
    exists|i: int| 0 <= i < existing.len() && priority_clash(#[trigger] existing[i], p, exclude)
}

/// The outcome of checking priority `p` against `existing`: refused exactly
/// when it is taken, and then the error names the first artifact that has it
/// (`unknown` when that one has no ID).
pub open spec fn priority_report(existing: Seq<Artifact>, p: int, exclude: Option<Seq<char>>, r: Result<(), ValidationError>) -> bool {
    &&& r is Ok <==> !priority_taken(existing, p, exclude)
    &&& r matches Err(e) ==> (e matches ValidationError::DuplicatePriority { priority: q, used_by } && q == p
        && exists|i: int| 0 <= i < existing.len() && priority_clash(#[trigger] existing[i], p, exclude)
            && (forall|j: int| 0 <= j < i ==> !priority_clash(#[trigger] existing[j], p, exclude))
            && used_by@ == match str_field(existing[i].frontmatter@, "id"@) {
                Some(id) => id,
                None => "unknown"@,
            })
}

/// Checks that no artifact but `exclude_id` already has `priority`, as
/// [`priority_report`] states.
pub fn validate_unique_priority(existing: &Vec<Artifact>, priority: i64, exclude_id: Option<&str>) -> (r: Result<
    (),
    ValidationError,
>)
    requires
        forall|i: int| 0 <= i < existing@.len() ==> (#[trigger] existing@[i]).wf(),
    ensures
        priority_report(existing@, priority as int, opt_str(exclude_id), r),
{
    let mut i: usize = 0;
    while i < existing.len()
        invariant
            forall|i: int| 0 <= i < existing@.len() ==> (#[trigger] existing@[i]).wf(),
            i <= existing@.len(),
            forall|j: int| 0 <= j < i ==> !priority_clash(#[trigger] existing@[j], priority as int, opt_str(exclude_id)),
        decreases existing@.len() - i,
    {
        let a = &existing[i];
        if a.priority() == Some(priority) {
            let excluded = match exclude_id {
                Some(ex) => match a.id() {
                    Some(id) => str_eq(id, ex),
                    None => false,
                },
                None => false,
            };
            if !excluded {
                let used_by = match a.id() {
                    Some(id) => crate::text::owned(id),
                    None => crate::text::owned("unknown"),
                };
                assert(priority_clash(existing@[i as int], priority as int, opt_str(exclude_id)));
                return Err(ValidationError::DuplicatePriority { priority, used_by });
            }
        }
        i += 1;
    }
    Ok(())
}

/// The field named `name` is an enum whose values do not include `value`.
pub open spec fn enum_refuses(fs: Seq<FieldModel>, name: Seq<char>, value: Seq<char>) -> bool {
    match field_named(fs, name) {
        Some(f) => f.field_type == FieldType::Enum && match f.values {
            Some(vs) => !vs.contains(value),
            None => false,
        },
        None => false,
    }
}

/// Checks a value for an enum field (edits check only this).
pub fn validate_enum(schema: &Schema, field_name: &str, value: &str) -> (r: Result<(), ValidationError>)
    ensures
        r is Ok <==> !enum_refuses(schema@.fields, field_name@, value@),
        r matches Err(e) ==> (e matches ValidationError::InvalidEnum { value: v, field, values } && v@ == value@
            && field@ == field_name@ && Some(strs_view(values@)) == field_named(schema@.fields, field_name@).unwrap().values),
{
    match schema.get_field(field_name) {
        Some(field) => {
            if field.field_type == FieldType::Enum {
                match &field.values {
                    Some(values) => {
                        if !contains_string(values, value) {
                            return Err(ValidationError::InvalidEnum {
                                value: crate::text::owned(value),
                                field: crate::text::owned(field_name),
                                values: crate::schema::copy_strs(values),
                            });
                        }
                    },
                    None => {},
                }
            }
            Ok(())
        },
        None => Ok(()),
    }
}

/// The value a `--set key=value` gives a field: an integer for an integer
/// field, `true`/`false` for a boolean field, the text otherwise.
pub open spec fn coerced(fs: Seq<FieldModel>, key: Seq<char>, value: Seq<char>) -> Val {
    match field_named(fs, key) {
        Some(f) => if f.field_type == FieldType::Integer && parse_i64_spec(value) is Some {
            Val::Int(parse_i64_spec(value).unwrap())
        } else if f.field_type == FieldType::Boolean && value == "true"@ {
            Val::Bool(true)
        } else if f.field_type == FieldType::Boolean && value == "false"@ {
            Val::Bool(false)
        } else {
            Val::Str(value)
        },
        None => Val::Str(value),
    }
}

/// The typed value of `value` for field `key`.
pub fn coerce_value(schema: &Schema, key: &str, value: &str) -> (r: Value)
    ensures
        r.deep() == coerced(schema@.fields, key@, value@),
{
    match schema.get_field(key) {
        Some(field) => {
            if field.field_type == FieldType::Integer {
                match parse_i64(value) {
                    Some(i) => {
                        return Value::Int(i);
                    },
                    None => {},
                }
            }
            if field.field_type == FieldType::Boolean {
                if str_eq(value, "true") {
                    return Value::Bool(true);
                }
                if str_eq(value, "false") {
                    return Value::Bool(false);
                }
            }
            Value::Str(crate::text::owned(value))
        },
        None => Value::Str(crate::text::owned(value)),
    }
}

} // verus!
