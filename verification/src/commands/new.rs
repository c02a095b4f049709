//! `new`: the checks, frontmatter, body and file name of a new artifact.
use vstd::prelude::*;

use crate::artifact::{format_id, max_id_number, next_id, slug, slugify, zero_pad, Artifact};
use crate::cli::NewArgs;
use crate::schema::{field_named, opt_view, FieldModel, Schema, SchemaModel};
use crate::text::{contains_char, nat_text, trim, trim_spec, views};
use crate::validate::{
    coerce_value, coerced, field_report, missing_required, priority_report, priority_taken, refuses,
    validate_field_value, validate_required_fields, validate_unique_priority, ValidationError,
};
use crate::value::{Frontmatter, Val, Value};

verus! {

/// Why `new` refuses to create an artifact.
pub enum NewError {
    /// The title is empty or only whitespace.
    EmptyTitle,
    /// The title holds a line break.
    MultilineTitle,
    /// `--set` names a field that the named flag `flag` also sets.
    Conflict { flag: String, field: String },
    /// A value, the priority or the required fields were refused.
    Invalid(ValidationError),
}

impl NewError {
    /// The message printed for this error.
    pub fn message(&self) -> (r: String)
        ensures
            r@ == match self {
                NewError::EmptyTitle => "title cannot be empty"@,
                NewError::MultilineTitle => "title cannot contain newlines"@,
                NewError::Conflict { flag, field } => "conflict: --"@ + flag@ + " and --set "@ + field@
                    + "= both set the same field. Use one or the other."@,
                NewError::Invalid(e) => e.message_text(),
            },
    {
        match self {
            NewError::EmptyTitle => crate::text::owned("title cannot be empty"),
            NewError::MultilineTitle => crate::text::owned("title cannot contain newlines"),
            NewError::Conflict { flag, field } => {
                let mut r = String::new();
                r.append("conflict: --");
                r.append(flag.as_str());
                r.append(" and --set ");
                r.append(field.as_str());
                r.append("= both set the same field. Use one or the other.");
                r
            },
            NewError::Invalid(e) => e.message(),
        }
    }
}

/// Which check of `new` fails first.
pub enum NewFailure {
    EmptyTitle,
    MultilineTitle,
    /// The value given for a field is refused.
    Field(Seq<char>, Seq<char>),
    /// The priority is already taken.
    Priority(int),
    /// `--set` of a field that a named flag sets.
    Conflict(Seq<char>),
    /// Some required fields have no value.
    Missing,
}

/// The key/value pairs of `--set`, as character sequences.
pub open spec fn pairs_view(e: Seq<(String, String)>) -> Seq<(Seq<char>, Seq<char>)> {
    Seq::new(e.len(), |i: int| (e[i].0@, e[i].1@))
}

/// A named flag of `args` sets field `key`.
pub open spec fn named_flag_set(args: NewArgs, key: Seq<char>) -> bool {
    ||| key == "status"@ && args.status is Some
    ||| key == "priority"@ && args.priority is Some
    ||| key == "project"@ && args.project is Some
    ||| key == "type"@ && args.kind is Some
}

/// The flag that sets field `key` (`--kind` sets `type`).
pub open spec fn flag_for(key: Seq<char>) -> Seq<char> {
    if key == "type"@ {
        "kind"@
    } else {
        key
    }
}

/// The first `--set` pair of `es` that a named flag also sets, whose value
/// the schema refuses, or that gives the priority a value an artifact of
/// `existing` already has.
pub open spec fn extra_failure(
    fs: Seq<FieldModel>,
    args: NewArgs,
    existing: Seq<Artifact>,
    es: Seq<(Seq<char>, Seq<char>)>,
) -> Option<NewFailure>
    decreases es.len(),
{
    if es.len() == 0 {
        None
    } else if named_flag_set(args, es[0].0) {
        Some(NewFailure::Conflict(es[0].0))
    } else if refuses(fs, es[0].0, es[0].1) {
        Some(NewFailure::Field(es[0].0, es[0].1))
    } else if es[0].0 == "priority"@ && coerced(fs, es[0].0, es[0].1) is Int && priority_taken(
        existing,
        coerced(fs, es[0].0, es[0].1)->Int_0,
        None,
    ) {
        Some(NewFailure::Priority(coerced(fs, es[0].0, es[0].1)->Int_0))
    } else {
        extra_failure(fs, args, existing, es.drop_first())
    }
}

/// `m` with each `--set` pair of `es` set in turn, its value typed by the schema.
pub open spec fn with_extras(m: Map<Seq<char>, Val>, fs: Seq<FieldModel>, es: Seq<(Seq<char>, Seq<char>)>) -> Map<
    Seq<char>,
    Val,
>
    decreases es.len(),
{
    if es.len() == 0 {
        m
    } else {
        with_extras(m.insert(es[0].0, coerced(fs, es[0].0, es[0].1)), fs, es.drop_first())
    }
}

/// `m` with the status: the one given, else the schema's default, if any.
pub open spec fn with_status(m: Map<Seq<char>, Val>, s: SchemaModel, args: NewArgs) -> Map<Seq<char>, Val> {
    match opt_view(args.status) {
        Some(st) => m.insert("status"@, Val::Str(st)),
        None => match field_named(s.fields, "status"@) {
            Some(f) => match f.default {
                Some(d) => m.insert("status"@, d),
                None => m,
            },
            None => m,
        },
    }
}

/// `m` with `key` set to the text `o`, when there is one.
pub open spec fn with_text(m: Map<Seq<char>, Val>, key: Seq<char>, o: Option<Seq<char>>) -> Map<Seq<char>, Val> {
    match o {
        Some(t) => m.insert(key, Val::Str(t)),
        None => m,
    }
}

/// The frontmatter of a new artifact with ID `id`, created on `today`.
pub open spec fn new_map(s: SchemaModel, args: NewArgs, id: Seq<char>, today: Seq<char>) -> Map<Seq<char>, Val> {
    let m0 = Map::<Seq<char>, Val>::empty().insert("id"@, Val::Str(id)).insert("title"@, Val::Str(args.title@));
    let m1 = with_status(m0, s, args);
    let m2 = match args.priority {
        Some(p) => m1.insert("priority"@, Val::Int(p as int)),
        None => m1,
    };
    let m3 = with_text(m2, "project"@, opt_view(args.project));
    let m4 = with_text(m3, "type"@, opt_view(args.kind));
    let m5 = match args.tags {
        Some(t) => m4.insert("tags"@, Val::List(Seq::new(t@.len(), |i: int| Val::Str(t@[i]@)))),
        None => m4,
    };
    let m6 = match args.extra_fields {
        Some(e) => with_extras(m5, s.fields, pairs_view(e@)),
        None => m5,
    };
    m6.insert("created"@, Val::Str(today)).insert("updated"@, Val::Str(today))
}

/// The first check of `new` that fails, in the order the command makes them.
pub open spec fn new_failure(s: SchemaModel, args: NewArgs, existing: Seq<Artifact>) -> Option<NewFailure> {
    let fs = s.fields;
    if trim_spec(args.title@).len() == 0 {
        Some(NewFailure::EmptyTitle)
    } else if args.title@.contains('\n') || args.title@.contains('\r') {
        Some(NewFailure::MultilineTitle)
    } else if args.status is Some && refuses(fs, "status"@, args.status.unwrap()@) {
        Some(NewFailure::Field("status"@, args.status.unwrap()@))
    } else if args.priority is Some && priority_taken(existing, args.priority.unwrap() as int, None) {
        Some(NewFailure::Priority(args.priority.unwrap() as int))
    } else if args.project is Some && refuses(fs, "project"@, args.project.unwrap()@) {
        Some(NewFailure::Field("project"@, args.project.unwrap()@))
    } else if args.kind is Some && refuses(fs, "type"@, args.kind.unwrap()@) {
        Some(NewFailure::Field("type"@, args.kind.unwrap()@))
    } else if args.extra_fields is Some && extra_failure(fs, args, existing, pairs_view(args.extra_fields.unwrap()@)) is Some {
        extra_failure(fs, args, existing, pairs_view(args.extra_fields.unwrap()@))
    } else if missing_required(fs, new_map(s, args, Seq::empty(), Seq::empty()).dom()).len() > 0 {
        Some(NewFailure::Missing)
    } else {
        None
    }
}

/// Error `e` is the one `new` reports for failure `f`.
pub open spec fn reports(f: NewFailure, e: NewError, s: SchemaModel, args: NewArgs, existing: Seq<Artifact>) -> bool {
    match f {
        NewFailure::EmptyTitle => e is EmptyTitle,
        NewFailure::MultilineTitle => e is MultilineTitle,
        NewFailure::Field(n, v) => e matches NewError::Invalid(ve) && field_report(s.fields, n, v, Err(ve)),
        NewFailure::Priority(p) => e matches NewError::Invalid(ve) && priority_report(existing, p, None, Err(ve)),
        NewFailure::Conflict(k) => e matches NewError::Conflict { flag, field } && field@ == k && flag@ == flag_for(k),
        NewFailure::Missing => e matches NewError::Invalid(ve) && ve matches ValidationError::MissingRequired { fields }
            && views(fields@) == missing_required(s.fields, new_map(s, args, Seq::empty(), Seq::empty()).dom()),
    }
}

/// The ID of artifact number `n` with prefix `prefix`.
pub open spec fn id_text(prefix: Seq<char>, n: nat) -> Seq<char> {
    prefix + seq!['-'] + zero_pad(nat_text(n), 3)
}

/// The body of a new artifact: a newline, then the schema's template.
pub open spec fn new_body(template: Option<Seq<char>>) -> Seq<char> {
    match template {
        Some(t) => "\n"@ + t,
        None => "\n"@,
    }
}

/// The file name of a new artifact: `<id>-<slug of title>.md`.
pub open spec fn new_file_name(id: Seq<char>, title: Seq<char>) -> Seq<char> {
    id + seq!['-'] + slug(title) + ".md"@
}

proof fn lemma_with_extras_dom(m1: Map<Seq<char>, Val>, m2: Map<Seq<char>, Val>, fs: Seq<FieldModel>, es: Seq<(Seq<char>, Seq<char>)>)
    requires
        m1.dom() == m2.dom(),
    ensures
        with_extras(m1, fs, es).dom() == with_extras(m2, fs, es).dom(),
    decreases es.len(),
{
    if es.len() > 0 {
        let k = es[0].0;
        let v = coerced(fs, k, es[0].1);
        assert(m1.insert(k, v).dom() =~= m2.insert(k, v).dom());
        lemma_with_extras_dom(m1.insert(k, v), m2.insert(k, v), fs, es.drop_first());
    }
}

/// The keys of the new frontmatter do not depend on the ID or the date.
proof fn lemma_new_map_dom(s: SchemaModel, args: NewArgs, id: Seq<char>, today: Seq<char>)
    ensures
        new_map(s, args, id, today).dom() == new_map(s, args, Seq::empty(), Seq::empty()).dom(),
{
    let a0 = Map::<Seq<char>, Val>::empty().insert("id"@, Val::Str(id)).insert("title"@, Val::Str(args.title@));
    let b0 = Map::<Seq<char>, Val>::empty().insert("id"@, Val::Str(Seq::empty())).insert("title"@, Val::Str(args.title@));
    let a1 = with_status(a0, s, args);
    let b1 = with_status(b0, s, args);
    assert(a1.dom() =~= b1.dom());
    let a2 = match args.priority {
        Some(p) => a1.insert("priority"@, Val::Int(p as int)),
        None => a1,
    };
    let b2 = match args.priority {
        Some(p) => b1.insert("priority"@, Val::Int(p as int)),
        None => b1,
    };
    assert(a2.dom() =~= b2.dom());
    let a3 = with_text(a2, "project"@, opt_view(args.project));
    let b3 = with_text(b2, "project"@, opt_view(args.project));
    assert(a3.dom() =~= b3.dom());
    let a4 = with_text(a3, "type"@, opt_view(args.kind));
    let b4 = with_text(b3, "type"@, opt_view(args.kind));
    assert(a4.dom() =~= b4.dom());
    let a5 = match args.tags {
        Some(t) => a4.insert("tags"@, Val::List(Seq::new(t@.len(), |i: int| Val::Str(t@[i]@)))),
        None => a4,
    };
    let b5 = match args.tags {
        Some(t) => b4.insert("tags"@, Val::List(Seq::new(t@.len(), |i: int| Val::Str(t@[i]@)))),
        None => b4,
    };
    assert(a5.dom() =~= b5.dom());
    match args.extra_fields {
        Some(e) => lemma_with_extras_dom(a5, b5, s.fields, pairs_view(e@)),
        None => {},
    }
    assert(new_map(s, args, id, today).dom() =~= new_map(s, args, Seq::empty(), Seq::empty()).dom());
}

/// Checks the title of a new artifact: not blank, on one line.
pub fn check_title(title: &str) -> (r: Result<(), NewError>)
    ensures
        trim_spec(title@).len() == 0 ==> r matches Err(NewError::EmptyTitle),
        trim_spec(title@).len() > 0 && (title@.contains('\n') || title@.contains('\r')) ==> r matches Err(
            NewError::MultilineTitle,
        ),
        trim_spec(title@).len() > 0 && !title@.contains('\n') && !title@.contains('\r') ==> r is Ok,
{
    let t = trim(title);
    if t.as_str().is_empty() {
        return Err(NewError::EmptyTitle);
    }
    if contains_char(title, '\n') || contains_char(title, '\r') {
        return Err(NewError::MultilineTitle);
    }
    Ok(())
}

/// Checks the `--set` pairs: none may name a field that a named flag sets,
/// and the schema must take each value.
fn check_extras(schema: &Schema, args: &NewArgs, existing: &Vec<Artifact>, extras: &Vec<(String, String)>) -> (r: Result<(), NewError>)
    requires
        forall|i: int| 0 <= i < existing@.len() ==> (#[trigger] existing@[i]).wf(),
    ensures
        extra_failure(schema@.fields, *args, existing@, pairs_view(extras@)) is None <==> r is Ok,
        r matches Err(e) ==> reports(extra_failure(schema@.fields, *args, existing@, pairs_view(extras@)).unwrap(), e, schema@, *args, existing@),
{
    let ghost all = pairs_view(extras@);
    let mut i: usize = 0;
    assert(all.skip(0) =~= all);
    while i < extras.len()
        invariant
            all == pairs_view(extras@),
            i <= extras@.len(),
            forall|i: int| 0 <= i < existing@.len() ==> (#[trigger] existing@[i]).wf(),
            extra_failure(schema@.fields, *args, existing@, all) == extra_failure(schema@.fields, *args, existing@, all.skip(i as int)),
        decreases extras@.len() - i,
    {
        let key = extras[i].0.as_str();
        let value = extras[i].1.as_str();
        assert(all.skip(i as int)[0] == (key@, value@));
        assert(all.skip(i as int).drop_first() =~= all.skip(i + 1));
        let is_status = crate::text::str_eq(key, "status") && args.status.is_some();
        let is_priority = crate::text::str_eq(key, "priority") && args.priority.is_some();
        let is_project = crate::text::str_eq(key, "project") && args.project.is_some();
        let is_type = crate::text::str_eq(key, "type") && args.kind.is_some();
        if is_status || is_priority || is_project || is_type {
            let flag = if crate::text::str_eq(key, "type") {
                crate::text::owned("kind")
            } else {
                crate::text::owned(key)
            };
            return Err(NewError::Conflict { flag, field: crate::text::owned(key) });
        }
        match validate_field_value(schema, key, value) {
            Err(e) => {
                return Err(NewError::Invalid(e));
            },
            Ok(()) => {},
        }
        if crate::text::str_eq(key, "priority") {
            match coerce_value(schema, key, value) {
                Value::Int(p) => {
                    match validate_unique_priority(existing, p, None) {
                        Err(e) => {
                            return Err(NewError::Invalid(e));
                        },
                        Ok(()) => {},
                    }
                },
                _ => {},
            }
        }
        i += 1;
    }
    Ok(())
}

/// Adds the `--set` pairs to `fm`, each value typed by the schema.
fn add_extras(fm: &mut Frontmatter, schema: &Schema, extras: &Vec<(String, String)>)
    requires
        old(fm).wf(),
    ensures
        final(fm).wf(),
        final(fm)@ == with_extras(old(fm)@, schema@.fields, pairs_view(extras@)),
{
    let ghost all = pairs_view(extras@);
    let ghost start = fm@;
    let mut i: usize = 0;
    assert(all.skip(0) =~= all);
    while i < extras.len()
        invariant
            all == pairs_view(extras@),
            i <= extras@.len(),
            fm.wf(),
            with_extras(start, schema@.fields, all) == with_extras(fm@, schema@.fields, all.skip(i as int)),
        decreases extras@.len() - i,
    {
        let key = extras[i].0.as_str();
        let value = extras[i].1.as_str();
        assert(all.skip(i as int)[0] == (key@, value@));
        assert(all.skip(i as int).drop_first() =~= all.skip(i + 1));
        let v = coerce_value(schema, key, value);
        fm.insert(crate::text::owned(key), v);
        i += 1;
    }
    assert(all.skip(extras@.len() as int) =~= Seq::<(Seq<char>, Seq<char>)>::empty());
}

/// A string value.
fn text_value(s: &str) -> (r: Value)
    ensures
        r.deep() == Val::Str(s@),
{
    Value::Str(crate::text::owned(s))
}

/// The new artifact that `new` writes: its ID is the next free number of the
/// schema's prefix among `existing`; its frontmatter holds the ID, the title,
/// the status (given, or the schema's default), the priority, project, kind,
/// tags and `--set` pairs given, and `today` as the dates of creation and of
/// update; its body is the schema's template after a newline. Refused, with
/// the error of the first check that fails (see [`new_failure`]), when the
/// title is blank or holds a line break, a value is refused by the schema,
/// the priority (given by `--priority` or `--set priority=`) is taken, `--set`
/// repeats a named flag, or a required field
/// has no value.
pub fn new_artifact(schema: &Schema, args: &NewArgs, existing: &Vec<Artifact>, today: &str) -> (r: Result<
    Artifact,
    NewError,
>)
    requires
        forall|i: int| 0 <= i < existing@.len() ==> (#[trigger] existing@[i]).wf(),
        max_id_number(existing@, schema@.prefix, existing@.len() as int) < u32::MAX,
    ensures
        new_failure(schema@, *args, existing@) is None <==> r is Ok,
        r matches Ok(a) ==> a.wf() && a.frontmatter@ == new_map(
            schema@,
            *args,
            id_text(schema@.prefix, max_id_number(existing@, schema@.prefix, existing@.len() as int) + 1),
            today@,
        ) && a.body@ == new_body(opt_view(schema.template)) && a.path@ == Seq::<char>::empty() && a.raw@ == Seq::<
            char,
        >::empty(),
        r matches Err(e) ==> reports(new_failure(schema@, *args, existing@).unwrap(), e, schema@, *args, existing@),
        r matches Ok(a) ==> crate::command_laws::new_reads_back(
            schema@,
            *args,
            id_text(schema@.prefix, max_id_number(existing@, schema@.prefix, existing@.len() as int) + 1),
            today@,
            a.frontmatter@,
        ),
{
    match check_title(args.title.as_str()) {
        Err(e) => {
            return Err(e);
        },
        Ok(()) => {},
    }
    let n = next_id(existing, schema.prefix.as_str());
    let id = format_id(schema.prefix.as_str(), n);
    let ghost idv = id@;
    let mut fm = Frontmatter::new();
    fm.insert(crate::text::owned("id"), text_value(id.as_str()));
    fm.insert(crate::text::owned("title"), text_value(args.title.as_str()));
    let ghost m0 = fm@;
    match &args.status {
        Some(st) => {
            match validate_field_value(schema, "status", st.as_str()) {
                Err(e) => {
                    return Err(NewError::Invalid(e));
                },
                Ok(()) => {},
            }
            fm.insert(crate::text::owned("status"), text_value(st.as_str()));
        },
        None => {
            match schema.get_field("status") {
                Some(f) => match &f.default {
                    Some(d) => {
                        fm.insert(crate::text::owned("status"), d.copy());
                    },
                    None => {},
                },
                None => {},
            }
        },
    }
    assert(fm@ == with_status(m0, schema@, *args));
    let ghost m1 = fm@;
    match args.priority {
        Some(p) => {
            match validate_unique_priority(existing, p, None) {
                Err(e) => {
                    return Err(NewError::Invalid(e));
                },
                Ok(()) => {},
            }
            fm.insert(crate::text::owned("priority"), Value::Int(p));
        },
        None => {},
    }
    let ghost m2 = fm@;
    match &args.project {
        Some(p) => {
            match validate_field_value(schema, "project", p.as_str()) {
                Err(e) => {
                    return Err(NewError::Invalid(e));
                },
                Ok(()) => {},
            }
            fm.insert(crate::text::owned("project"), text_value(p.as_str()));
        },
        None => {},
    }
    assert(fm@ == with_text(m2, "project"@, opt_view(args.project)));
    let ghost m3 = fm@;
    match &args.kind {
        Some(k) => {
            match validate_field_value(schema, "type", k.as_str()) {
                Err(e) => {
                    return Err(NewError::Invalid(e));
                },
                Ok(()) => {},
            }
            fm.insert(crate::text::owned("type"), text_value(k.as_str()));
        },
        None => {},
    }
    assert(fm@ == with_text(m3, "type"@, opt_view(args.kind)));
    let ghost m4 = fm@;
    match &args.tags {
        Some(tags) => {
            let list = crate::schema::str_list(tags);
            assert(Seq::new(tags@.len(), |i: int| Val::Str(crate::schema::strs_view(tags@)[i]))
                =~= Seq::new(tags@.len(), |i: int| Val::Str(tags@[i]@)));
            fm.insert(crate::text::owned("tags"), list);
        },
        None => {},
    }
    let ghost m5 = fm@;
    match &args.extra_fields {
        Some(extras) => {
            match check_extras(schema, args, existing, extras) {
                Err(e) => {
                    return Err(e);
                },
                Ok(()) => {},
            }
            add_extras(&mut fm, schema, extras);
        },
        None => {},
    }
    fm.insert(crate::text::owned("created"), text_value(today));
    fm.insert(crate::text::owned("updated"), text_value(today));
    proof {
        lemma_new_map_dom(schema@, *args, idv, today@);
    }
    assert(fm@ == new_map(schema@, *args, idv, today@));
    match validate_required_fields(schema, &fm) {
        Err(e) => {
            return Err(NewError::Invalid(e));
        },
        Ok(()) => {},
    }
    let body = match &schema.template {
        Some(t) => {
            let mut b = crate::text::owned("\n");
            b.append(t.as_str());
            b
        },
        None => crate::text::owned("\n"),
    };
    proof {
        crate::command_laws::law_new_reads_back(
            schema@,
            *args,
            id_text(schema@.prefix, max_id_number(existing@, schema@.prefix, existing@.len() as int) + 1),
            today@,
        );
    }
    Ok(Artifact { path: String::new(), frontmatter: fm, body, raw: String::new() })
}

/// The file name of the new artifact `id` titled `title`.
pub fn file_name(id: &str, title: &str) -> (r: String)
    ensures
        r@ == new_file_name(id@, title@),
{
    let mut r = crate::text::owned(id);
    r.append("-");
    let s = slugify(title);
    r.append(s.as_str());
    r.append(".md");
    proof {
        reveal_strlit("-");
        reveal_strlit(".md");
    }
    assert(r@ =~= new_file_name(id@, title@));
    r
}

} // verus!
