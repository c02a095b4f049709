//! `edit`: the changes an edit makes to an artifact's frontmatter.
use vstd::prelude::*;

use crate::artifact::{opt_str, str_field, Artifact};
use crate::cli::EditArgs;
use crate::commands::new::{pairs_view, with_text, NewFailure};
use crate::schema::{opt_view, FieldModel, Schema};
use crate::text::str_eq;
use crate::validate::{
    coerce_value, coerced, field_report, priority_report, priority_taken, refuses, validate_field_value,
    validate_unique_priority, ValidationError,
};
use crate::value::{Frontmatter, Val, Value};

verus! {

/// The edit asks to change something.
pub open spec fn edit_requested(args: EditArgs) -> bool {
    ||| args.status is Some
    ||| args.priority is Some
    ||| args.title is Some
    ||| args.project is Some
    ||| args.kind is Some
    ||| args.fields@.len() > 0
}

/// The first `--set` pair of `es` that the schema refuses, or that gives the
/// priority a value another artifact than `exclude` already has.
pub open spec fn pair_failure(
    fs: Seq<FieldModel>,
    existing: Seq<Artifact>,
    exclude: Option<Seq<char>>,
    es: Seq<(Seq<char>, Seq<char>)>,
) -> Option<NewFailure>
    decreases es.len(),
{
    if es.len() == 0 {
        None
    } else if refuses(fs, es[0].0, es[0].1) {
        Some(NewFailure::Field(es[0].0, es[0].1))
    } else if es[0].0 == "priority"@ && coerced(fs, es[0].0, es[0].1) is Int && priority_taken(
        existing,
        coerced(fs, es[0].0, es[0].1)->Int_0,
        exclude,
    ) {
        Some(NewFailure::Priority(coerced(fs, es[0].0, es[0].1)->Int_0))
    } else {
        pair_failure(fs, existing, exclude, es.drop_first())
    }
}

/// The first check of an edit that fails, in the order the command makes
/// them: the status, project and kind (field `type`) given must be taken by
/// the schema; the priority given must be free among `existing` (the edited
/// artifact, `exclude`, aside); then each `--set` pair (see [`pair_failure`]).
pub open spec fn edit_failure(
    fs: Seq<FieldModel>,
    args: EditArgs,
    existing: Seq<Artifact>,
    exclude: Option<Seq<char>>,
) -> Option<NewFailure> {
    if args.status is Some && refuses(fs, "status"@, args.status.unwrap()@) {
        Some(NewFailure::Field("status"@, args.status.unwrap()@))
    } else if args.project is Some && refuses(fs, "project"@, args.project.unwrap()@) {
        Some(NewFailure::Field("project"@, args.project.unwrap()@))
    } else if args.kind is Some && refuses(fs, "type"@, args.kind.unwrap()@) {
        Some(NewFailure::Field("type"@, args.kind.unwrap()@))
    } else if args.priority is Some && priority_taken(existing, args.priority.unwrap() as int, exclude) {
        Some(NewFailure::Priority(args.priority.unwrap() as int))
    } else {
        pair_failure(fs, existing, exclude, pairs_view(args.fields@))
    }
}

/// Error `e` is the one an edit reports for failure `f`.
pub open spec fn edit_reports(
    f: NewFailure,
    e: ValidationError,
    fs: Seq<FieldModel>,
    existing: Seq<Artifact>,
    exclude: Option<Seq<char>>,
) -> bool {
    match f {
        NewFailure::Field(n, v) => field_report(fs, n, v, Err(e)),
        NewFailure::Priority(p) => priority_report(existing, p, exclude, Err(e)),
        _ => false,
    }
}

/// `m` with each pair of `es` set in turn, its value as the text given.
pub open spec fn with_pairs(m: Map<Seq<char>, Val>, es: Seq<(Seq<char>, Seq<char>)>) -> Map<Seq<char>, Val>
    decreases es.len(),
{
    if es.len() == 0 {
        m
    } else {
        with_pairs(m.insert(es[0].0, Val::Str(es[0].1)), es.drop_first())
    }
}

/// The frontmatter `m` after the edit `args` made on `today`: the given
/// status, priority, title, project and kind, then the `--set` pairs (each
/// value stored as the text given), then `updated`.
pub open spec fn edit_map(m: Map<Seq<char>, Val>, args: EditArgs, today: Seq<char>) -> Map<Seq<char>, Val> {
    let m1 = with_text(m, "status"@, opt_view(args.status));
    let m2 = match args.priority {
        Some(p) => m1.insert("priority"@, Val::Int(p as int)),
        None => m1,
    };
    let m3 = with_text(m2, "title"@, opt_view(args.title));
    let m4 = with_text(m3, "project"@, opt_view(args.project));
    let m5 = with_text(m4, "type"@, opt_view(args.kind));
    with_pairs(m5, pairs_view(args.fields@)).insert("updated"@, Val::Str(today))
}

/// What an edit comes to.
pub enum EditOutcome {
    /// Nothing was asked: the file stays as it is ("No changes").
    Unchanged,
    /// The artifact with the changes made.
    Updated(Artifact),
}

/// Sets `key` to the text `value`.
fn set_text(fm: &mut Frontmatter, key: &str, value: &str)
    requires
        old(fm).wf(),
    ensures
        final(fm).wf(),
        final(fm)@ == old(fm)@.insert(key@, Val::Str(value@)),
{
    fm.insert(crate::text::owned(key), Value::Str(crate::text::owned(value)));
}

/// Sets `key` to `o`'s text, when there is one.
fn set_opt(fm: &mut Frontmatter, key: &str, o: &Option<String>)
    requires
        old(fm).wf(),
    ensures
        final(fm).wf(),
        final(fm)@ == with_text(old(fm)@, key@, opt_view(*o)),
{
    match o {
        Some(v) => set_text(fm, key, v.as_str()),
        None => {},
    }
}

/// Checks a value the edit gives the field `key`.
fn check_value(schema: &Schema, key: &str, value: &str) -> (r: Result<(), ValidationError>)
    ensures
        r is Ok <==> !refuses(schema@.fields, key@, value@),
        r matches Err(e) ==> field_report(schema@.fields, key@, value@, Err(e)),
{
    validate_field_value(schema, key, value)
}

/// Checks an optional value the edit gives the field `key`.
fn check_opt(schema: &Schema, key: &str, o: &Option<String>) -> (r: Result<(), ValidationError>)
    ensures
        r is Ok <==> !(o is Some && refuses(schema@.fields, key@, o.unwrap()@)),
        r matches Err(e) ==> field_report(schema@.fields, key@, o.unwrap()@, Err(e)),
{
    match o {
        Some(v) => check_value(schema, key, v.as_str()),
        None => Ok(()),
    }
}

/// Checks the `--set` pairs of an edit, as [`pair_failure`] states.
fn check_pairs(schema: &Schema, existing: &Vec<Artifact>, exclude: Option<&str>, pairs: &Vec<(String, String)>) -> (r:
    Result<(), ValidationError>)
    requires
        forall|i: int| 0 <= i < existing@.len() ==> (#[trigger] existing@[i]).wf(),
    ensures
        r is Ok <==> pair_failure(schema@.fields, existing@, opt_str(exclude), pairs_view(pairs@)) is None,
        r matches Err(e) ==> edit_reports(
            pair_failure(schema@.fields, existing@, opt_str(exclude), pairs_view(pairs@)).unwrap(),
            e,
            schema@.fields,
            existing@,
            opt_str(exclude),
        ),
{
    let ghost all = pairs_view(pairs@);
    let ghost fs = schema@.fields;
    let ghost ex = opt_str(exclude);
    let mut i: usize = 0;
    assert(all.skip(0) =~= all);
    while i < pairs.len()
        invariant
            forall|i: int| 0 <= i < existing@.len() ==> (#[trigger] existing@[i]).wf(),
            all == pairs_view(pairs@),
            fs == schema@.fields,
            ex == opt_str(exclude),
            i <= pairs@.len(),
            pair_failure(fs, existing@, ex, all) == pair_failure(fs, existing@, ex, all.skip(i as int)),
        decreases pairs@.len() - i,
    {
        let key = pairs[i].0.as_str();
        let value = pairs[i].1.as_str();
        assert(all.skip(i as int)[0] == (key@, value@));
        assert(all.skip(i as int).drop_first() =~= all.skip(i + 1));
        match check_value(schema, key, value) {
            Err(e) => {
                return Err(e);
            },
            Ok(()) => {},
        }
        if str_eq(key, "priority") {
            match coerce_value(schema, key, value) {
                Value::Int(p) => {
                    match validate_unique_priority(existing, p, exclude) {
                        Err(e) => {
                            return Err(e);
                        },
                        Ok(()) => {},
                    }
                },
                _ => {},
            }
        }
        i += 1;
    }
    Ok(())
}

/// Checks an edit, as [`edit_failure`] states.
fn check_edit(schema: &Schema, args: &EditArgs, existing: &Vec<Artifact>, exclude: Option<&str>) -> (r: Result<
    (),
    ValidationError,
>)
    requires
        forall|i: int| 0 <= i < existing@.len() ==> (#[trigger] existing@[i]).wf(),
    ensures
        r is Ok <==> edit_failure(schema@.fields, *args, existing@, opt_str(exclude)) is None,
        r matches Err(e) ==> edit_reports(
            edit_failure(schema@.fields, *args, existing@, opt_str(exclude)).unwrap(),
            e,
            schema@.fields,
            existing@,
            opt_str(exclude),
        ),
{
    match check_opt(schema, "status", &args.status) {
        Err(e) => {
            return Err(e);
        },
        Ok(()) => {},
    }
    match check_opt(schema, "project", &args.project) {
        Err(e) => {
            return Err(e);
        },
        Ok(()) => {},
    }
    match check_opt(schema, "type", &args.kind) {
        Err(e) => {
            return Err(e);
        },
        Ok(()) => {},
    }
    match args.priority {
        Some(p) => {
            match validate_unique_priority(existing, p, exclude) {
                Err(e) => {
                    return Err(e);
                },
                Ok(()) => {},
            }
        },
        None => {},
    }
    check_pairs(schema, existing, exclude, &args.fields)
}

/// The edit `args` of `artifact`, made on `today`; `existing` are the
/// artifacts of its type. When nothing is asked the artifact stays as it is.
/// Otherwise the edit is refused, with the error of the first check that
/// fails (see [`edit_failure`]), when the schema refuses a value given for
/// the status, project or kind, or for a `--set` field, or when the priority
/// given (by `--priority` or `--set priority=`) is another artifact's. Else
/// the given status, priority, title, project, kind (field `type`) and
/// `--set` pairs (each as the text given) are set in that order, and
/// `updated` becomes `today`. The body, path and file text are kept.
pub fn apply_edit(schema: &Schema, artifact: Artifact, args: &EditArgs, existing: &Vec<Artifact>, today: &str) -> (r:
    Result<EditOutcome, ValidationError>)
    requires
        artifact.wf(),
        forall|i: int| 0 <= i < existing@.len() ==> (#[trigger] existing@[i]).wf(),
    ensures
        r is Err <==> edit_requested(*args) && edit_failure(
            schema@.fields,
            *args,
            existing@,
            str_field(artifact.frontmatter@, "id"@),
        ) is Some,
        r matches Err(e) ==> edit_reports(
            edit_failure(schema@.fields, *args, existing@, str_field(artifact.frontmatter@, "id"@)).unwrap(),
            e,
            schema@.fields,
            existing@,
            str_field(artifact.frontmatter@, "id"@),
        ),
        r matches Ok(EditOutcome::Unchanged) <==> !edit_requested(*args),
        r matches Ok(EditOutcome::Updated(a)) ==> a.wf() && a.frontmatter@ == edit_map(
            artifact.frontmatter@,
            *args,
            today@,
        ) && a.body == artifact.body && a.path == artifact.path && a.raw == artifact.raw,
        r matches Ok(EditOutcome::Updated(a)) ==> crate::command_laws::edit_reads_back(
            artifact.frontmatter@,
            *args,
            today@,
            a.frontmatter@,
        ),
{
    let requested = args.status.is_some() || args.priority.is_some() || args.title.is_some()
        || args.project.is_some() || args.kind.is_some() || args.fields.len() > 0;
    if !requested {
        return Ok(EditOutcome::Unchanged);
    }
    match check_edit(schema, args, existing, artifact.id()) {
        Err(e) => {
            return Err(e);
        },
        Ok(()) => {},
    }
    let mut a = artifact;
    let ghost m0 = a.frontmatter@;
    set_opt(&mut a.frontmatter, "status", &args.status);
    match args.priority {
        Some(p) => {
            a.frontmatter.insert(crate::text::owned("priority"), Value::Int(p));
        },
        None => {},
    }
    let ghost m2 = a.frontmatter@;
    assert(m2 == match args.priority {
        Some(p) => with_text(m0, "status"@, opt_view(args.status)).insert("priority"@, Val::Int(p as int)),
        None => with_text(m0, "status"@, opt_view(args.status)),
    });
    set_opt(&mut a.frontmatter, "title", &args.title);
    set_opt(&mut a.frontmatter, "project", &args.project);
    set_opt(&mut a.frontmatter, "type", &args.kind);
    let ghost all = pairs_view(args.fields@);
    let ghost fs = schema@.fields;
    let ghost start = a.frontmatter@;
    let ghost kept = (a.path, a.body, a.raw);
    let mut i: usize = 0;
    assert(all.skip(0) =~= all);
    while i < args.fields.len()
        invariant
            all == pairs_view(args.fields@),
            fs == schema@.fields,
            i <= args.fields@.len(),
            a.frontmatter.wf(),
            (a.path, a.body, a.raw) == kept,
            with_pairs(start, all) == with_pairs(a.frontmatter@, all.skip(i as int)),
        decreases args.fields@.len() - i,
    {
        assert(all.skip(i as int)[0] == (args.fields@[i as int].0@, args.fields@[i as int].1@));
        assert(all.skip(i as int).drop_first() =~= all.skip(i + 1));
        set_text(&mut a.frontmatter, args.fields[i].0.as_str(), args.fields[i].1.as_str());
        i += 1;
    }
    assert(all.skip(args.fields@.len() as int) =~= Seq::<(Seq<char>, Seq<char>)>::empty());
    set_text(&mut a.frontmatter, "updated", today);
    assert(a.frontmatter@ == edit_map(m0, *args, today@));
    proof {
        crate::command_laws::law_edit_reads_back(m0, *args, today@);
    }
    Ok(EditOutcome::Updated(a))
}

} // verus!
