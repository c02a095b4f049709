//! `lint`: duplicate IDs and priorities, ID patterns, supersession fixes and
//! the summary line.
use vstd::prelude::*;

use crate::artifact::{int_field, opt_str, str_field, Artifact};
use crate::schema::{field_named, FieldModel, Schema, SchemaModel};
use crate::text::{int_text, nat_text, str_eq, whitespace};
use crate::pattern::{regex_accepts, regex_check, regex_finds, regex_is_match};
use crate::commands::new::pairs_view;
use crate::json::to_json_text;
use crate::schema::{entries_deep, schema_json};
use crate::text::views;
use crate::value::{Val, Value};
use vstd::multiset::Multiset;

verus! {

// ---------------------------------------------------------------------------
// Issues
// ---------------------------------------------------------------------------

/// One problem found by lint: the file it is in, the message, and whether it
/// is an error (else a warning).
pub struct LintIssue {
    pub path: String,
    pub message: String,
    pub error: bool,
}

/// The model of an issue.
pub open spec fn issue_view(i: LintIssue) -> (Seq<char>, Seq<char>, bool) {
    (i.path@, i.message@, i.error)
}

/// The models of issues.
pub open spec fn issues_view(v: Seq<LintIssue>) -> Seq<(Seq<char>, Seq<char>, bool)> {
    Seq::new(v.len(), |i: int| issue_view(v[i]))
}

/// The ID of `a`.
pub open spec fn id_of(a: Artifact) -> Option<Seq<char>> {
    str_field(a.frontmatter@, "id"@)
}

/// The first of `arts[0..k]` whose ID is `id`.
pub open spec fn first_with_id(arts: Seq<Artifact>, id: Seq<char>, k: int) -> Option<int>
    decreases k,
{
    if k <= 0 {
        None
    } else {
        match first_with_id(arts, id, k - 1) {
            Some(j) => Some(j),
            None => if id_of(arts[k - 1]) == Some(id) { Some(k - 1) } else { None },
        }
    }
}

/// The first of `arts[0..k]` whose priority is `p`.
pub open spec fn first_with_priority(arts: Seq<Artifact>, p: int, k: int) -> Option<int>
    decreases k,
{
    if k <= 0 {
        None
    } else {
        match first_with_priority(arts, p, k - 1) {
            Some(j) => Some(j),
            None => if int_field(arts[k - 1].frontmatter@, "priority"@) == Some(p) { Some(k - 1) } else { None },
        }
    }
}

/// The duplicate-ID errors among `arts[0..k]`: each artifact whose ID an
/// earlier one has, naming the file of the first.
pub open spec fn duplicate_id_issues(arts: Seq<Artifact>, k: int) -> Seq<(Seq<char>, Seq<char>, bool)>
    decreases k,
{
    if k <= 0 {
        Seq::empty()
    } else {
        let before = duplicate_id_issues(arts, k - 1);
        match id_of(arts[k - 1]) {
            Some(id) => match first_with_id(arts, id, k - 1) {
                Some(j) => before.push(
                    (arts[k - 1].path@, "duplicate ID '"@ + id + "' (also in "@ + arts[j].path@ + ")"@, true),
                ),
                None => before,
            },
            None => before,
        }
    }
}

/// The duplicate-priority warnings among `arts[0..k]`: each artifact whose
/// priority an earlier one has, naming the file of the first.
pub open spec fn duplicate_priority_issues(arts: Seq<Artifact>, k: int) -> Seq<(Seq<char>, Seq<char>, bool)>
    decreases k,
{
    if k <= 0 {
        Seq::empty()
    } else {
        let before = duplicate_priority_issues(arts, k - 1);
        match int_field(arts[k - 1].frontmatter@, "priority"@) {
            Some(p) => match first_with_priority(arts, p, k - 1) {
                Some(j) => before.push(
                    (
                        arts[k - 1].path@,
                        "duplicate priority "@ + int_text(p) + " (also in "@ + arts[j].path@ + ")"@,
                        false,
                    ),
                ),
                None => before,
            },
            None => before,
        }
    }
}

/// The first of `arts` whose ID is `id`.
fn find_first_id(arts: &Vec<Artifact>, id: &str, k: usize) -> (r: Option<usize>)
    requires
        k <= arts@.len(),
        forall|i: int| 0 <= i < arts@.len() ==> (#[trigger] arts@[i]).wf(),
    ensures
        r matches Some(j) ==> first_with_id(arts@, id@, k as int) == Some(j as int),
        r is None ==> first_with_id(arts@, id@, k as int) is None,
        r matches Some(j) ==> j < k,
{
    let mut j: usize = 0;
    while j < k
        invariant
            k <= arts@.len(),
            forall|i: int| 0 <= i < arts@.len() ==> (#[trigger] arts@[i]).wf(),
            j <= k,
            first_with_id(arts@, id@, j as int) is None,
        decreases k - j,
    {
        let hit = match arts[j].id() {
            Some(x) => str_eq(x, id),
            None => false,
        };
        if hit {
            proof {
                lemma_first_id_stays(arts@, id@, j as int + 1, k as int);
            }
            return Some(j);
        }
        j += 1;
    }
    None
}

proof fn lemma_first_id_stays(arts: Seq<Artifact>, id: Seq<char>, a: int, b: int)
    requires
        0 <= a <= b,
        first_with_id(arts, id, a) is Some,
    ensures
        first_with_id(arts, id, b) == first_with_id(arts, id, a),
    decreases b - a,
{
    if b > a {
        lemma_first_id_stays(arts, id, a, b - 1);
    }
}

proof fn lemma_first_priority_stays(arts: Seq<Artifact>, p: int, a: int, b: int)
    requires
        0 <= a <= b,
        first_with_priority(arts, p, a) is Some,
    ensures
        first_with_priority(arts, p, b) == first_with_priority(arts, p, a),
    decreases b - a,
{
    if b > a {
        lemma_first_priority_stays(arts, p, a, b - 1);
    }
}

/// The first of `arts[0..k]` whose priority is `p`.
fn find_first_priority(arts: &Vec<Artifact>, p: i64, k: usize) -> (r: Option<usize>)
    requires
        k <= arts@.len(),
        forall|i: int| 0 <= i < arts@.len() ==> (#[trigger] arts@[i]).wf(),
    ensures
        r matches Some(j) ==> first_with_priority(arts@, p as int, k as int) == Some(j as int),
        r is None ==> first_with_priority(arts@, p as int, k as int) is None,
        r matches Some(j) ==> j < k,
{
    let mut j: usize = 0;
    while j < k
        invariant
            k <= arts@.len(),
            forall|i: int| 0 <= i < arts@.len() ==> (#[trigger] arts@[i]).wf(),
            j <= k,
            first_with_priority(arts@, p as int, j as int) is None,
        decreases k - j,
    {
        if arts[j].priority() == Some(p) {
            proof {
                lemma_first_priority_stays(arts@, p as int, j as int + 1, k as int);
            }
            return Some(j);
        }
        j += 1;
    }
    None
}

/// The duplicate checks of lint: an error for each artifact whose ID an
/// earlier artifact has, then a warning for each artifact whose priority an
/// earlier one has, each naming the file of the first.
pub fn duplicate_issues(arts: &Vec<Artifact>) -> (r: Vec<LintIssue>)
    requires
        forall|i: int| 0 <= i < arts@.len() ==> (#[trigger] arts@[i]).wf(),
    ensures
        issues_view(r@) == duplicate_id_issues(arts@, arts@.len() as int) + duplicate_priority_issues(
            arts@,
            arts@.len() as int,
        ),
{
    let mut out: Vec<LintIssue> = Vec::new();
    let mut i: usize = 0;
    while i < arts.len()
        invariant
            forall|i: int| 0 <= i < arts@.len() ==> (#[trigger] arts@[i]).wf(),
            i <= arts@.len(),
            issues_view(out@) == duplicate_id_issues(arts@, i as int),
        decreases arts@.len() - i,
    {
        match arts[i].id() {
            Some(id) => match find_first_id(arts, id, i) {
                Some(j) => {
                    let mut m = crate::text::owned("duplicate ID '");
                    m.append(id);
                    m.append("' (also in ");
                    m.append(arts[j].path.as_str());
                    m.append(")");
                    let ghost before = issues_view(out@);
                    assert(m@ == "duplicate ID '"@ + id@ + "' (also in "@ + arts@[j as int].path@ + ")"@);
                    out.push(LintIssue { path: arts[i].path.clone(), message: m, error: true });
                    assert(issues_view(out@) =~= before.push(issue_view(out@.last())));
                    assert(issues_view(out@) == duplicate_id_issues(arts@, i + 1));
                },
                None => {},
            },
            None => {},
        }
        i += 1;
    }
    let ghost ids = issues_view(out@);
    let mut k: usize = 0;
    while k < arts.len()
        invariant
            forall|i: int| 0 <= i < arts@.len() ==> (#[trigger] arts@[i]).wf(),
            k <= arts@.len(),
            ids == duplicate_id_issues(arts@, arts@.len() as int),
            issues_view(out@) == ids + duplicate_priority_issues(arts@, k as int),
        decreases arts@.len() - k,
    {
        match arts[k].priority() {
            Some(p) => match find_first_priority(arts, p, k) {
                Some(j) => {
                    let mut m = crate::text::owned("duplicate priority ");
                    let t = crate::text::i64_text(p);
                    m.append(t.as_str());
                    m.append(" (also in ");
                    m.append(arts[j].path.as_str());
                    m.append(")");
                    let ghost before = issues_view(out@);
                    assert(m@ == "duplicate priority "@ + int_text(p as int) + " (also in "@ + arts@[j as int].path@ + ")"@);
                    out.push(LintIssue { path: arts[k].path.clone(), message: m, error: false });
                    assert(issues_view(out@) =~= before.push(issue_view(out@.last())));
                    assert(issues_view(out@) =~= ids + duplicate_priority_issues(arts@, k + 1));
                },
                None => {},
            },
            None => {},
        }
        k += 1;
    }
    out
}

/// The ID check of lint for one artifact: its ID must match the pattern of
/// the schema's `id` field (when the pattern compiles); an artifact without
/// an ID is an error when that field is required.
pub open spec fn id_issue(fs: Seq<FieldModel>, a: Artifact) -> Option<Seq<char>> {
    match id_of(a) {
        Some(id) => match field_named(fs, "id"@) {
            Some(f) => match f.pattern {
                Some(p) => if regex_accepts(p) && !regex_finds(p, id) {
                    Some("ID '"@ + id + "' does not match pattern '"@ + p + "'"@)
                } else {
                    None
                },
                None => None,
            },
            None => None,
        },
        None => match field_named(fs, "id"@) {
            Some(f) => if f.required { Some("missing required field 'id'"@) } else { None },
            None => None,
        },
    }
}

/// The ID error of lint for `a`, if any (see [`id_issue`]).
pub fn check_id(schema: &Schema, a: &Artifact) -> (r: Option<String>)
    requires
        a.wf(),
    ensures
        match r {
            Some(m) => id_issue(schema@.fields, *a) == Some(m@),
            None => id_issue(schema@.fields, *a) is None,
        },
{
    match a.id() {
        Some(id) => match schema.id_field() {
            Some(f) => match &f.pattern {
                Some(p) => {
                    if regex_check(p.as_str()).is_ok() && !regex_is_match(p.as_str(), id) {
                        let mut m = crate::text::owned("ID '");
                        m.append(id);
                        m.append("' does not match pattern '");
                        m.append(p.as_str());
                        m.append("'");
                        Some(m)
                    } else {
                        None
                    }
                },
                None => None,
            },
            None => None,
        },
        None => match schema.id_field() {
            Some(f) => if f.required {
                Some(crate::text::owned("missing required field 'id'"))
            } else {
                None
            },
            None => None,
        },
    }
}

// ---------------------------------------------------------------------------
// JSON Schema
// ---------------------------------------------------------------------------

/// What `jsonschema::validator_for` makes of the JSON schema `schema`: `None`
/// when it compiles, else the text of its error.
pub uninterp spec fn schema_compile_error(schema: Val) -> Option<Seq<char>>;

/// The errors that the validator compiled from `schema` reports for `data`
/// (`jsonschema::Validator::iter_errors`), each as the error's text and the
/// text of its instance path, counted with repeats.
pub uninterp spec fn schema_violations(schema: Val, data: Val) -> Multiset<(Seq<char>, Seq<char>)>;

/// `jsonschema::validator_for(schema)`, then `iter_errors(data)` on the
/// validator, the values converted to `serde_json` values by way of their
/// compact text; each error is given as its text and that of its instance
/// path. The order of the errors is not stated (the crate keeps some
/// keywords in hash maps), only which errors come and how often.
#[verifier::external_body]
fn json_schema_errors(schema: &Value, data: &Value) -> (r: Result<Vec<(String, String)>, String>)
    ensures
        r is Err <==> schema_compile_error(schema.deep()) is Some,
        r matches Err(e) ==> Some(e@) == schema_compile_error(schema.deep()),
        r matches Ok(v) ==> pairs_view(v@).to_multiset() == schema_violations(schema.deep(), data.deep()),
{
    let json = |x: &Value| serde_json::from_str::<serde_json::Value>(&to_json_text(x)).unwrap_or_default();
    let validator = jsonschema::validator_for(&json(schema)).map_err(|e| e.to_string())?;
    Ok(validator.iter_errors(&json(data)).map(|e| (e.to_string(), e.instance_path().to_string())).collect())
}

/// Lint's message for each error: `{error} at {instance path}`.
pub open spec fn at_messages(ps: Seq<(Seq<char>, Seq<char>)>) -> Seq<Seq<char>> {
    Seq::new(ps.len(), |i: int| ps[i].0 + " at "@ + ps[i].1)
}

/// `v` are lint's messages for the errors that the JSON Schema `schema`
/// reports for `data`, in some order.
pub open spec fn reports_violations(v: Seq<Seq<char>>, schema: Val, data: Val) -> bool {
    exists|ps: Seq<(Seq<char>, Seq<char>)>| #[trigger] ps.to_multiset() == schema_violations(schema, data)
        && v == at_messages(ps)
}

/// Lint's messages for the errors `ps` (see [`at_messages`]).
pub fn violation_messages(ps: &Vec<(String, String)>) -> (r: Vec<String>)
    ensures
        views(r@) == at_messages(pairs_view(ps@)),
{
    let mut out: Vec<String> = Vec::new();
    let mut i: usize = 0;
    while i < ps.len()
        invariant
            i <= ps@.len(),
            views(out@) == at_messages(pairs_view(ps@)).take(i as int),
        decreases ps@.len() - i,
    {
        let mut m = ps[i].0.clone();
        m.append(" at ");
        m.append(ps[i].1.as_str());
        let ghost before = out@;
        out.push(m);
        assert(views(out@) =~= views(before).push(m@));
        assert(at_messages(pairs_view(ps@)).take(i + 1) =~= at_messages(pairs_view(ps@)).take(i as int).push(m@));
        i += 1;
    }
    assert(at_messages(pairs_view(ps@)).take(ps@.len() as int) =~= at_messages(pairs_view(ps@)));
    out
}

/// The JSON Schema errors of `a`'s frontmatter against the JSON Schema of
/// `schema`, or the error of compiling that JSON Schema.
pub fn schema_errors(schema: &Schema, a: &Artifact) -> (r: Result<Vec<String>, String>)
    ensures
        r is Err <==> schema_compile_error(schema_json(schema@)) is Some,
        r matches Err(e) ==> Some(e@) == schema_compile_error(schema_json(schema@)),
        r matches Ok(v) ==> reports_violations(
            views(v@),
            schema_json(schema@),
            Val::Object(entries_deep(a.frontmatter.entries@)),
        ),
{
    let js = schema.to_json_schema();
    let data = a.frontmatter_as_json();
    match json_schema_errors(&js, &data) {
        Err(e) => Err(e),
        Ok(ps) => {
            let v = violation_messages(&ps);
            assert(pairs_view(ps@).to_multiset() == schema_violations(js.deep(), data.deep()));
            Ok(v)
        },
    }
}

/// The errors of one artifact: its ID error, if any, then the JSON Schema
/// errors.
pub fn with_id_error(id_error: Option<String>, violations: Vec<String>) -> (r: Vec<String>)
    ensures
        views(r@) == match id_error {
            Some(m) => seq![m@] + views(violations@),
            None => views(violations@),
        },
{
    match id_error {
        Some(m) => {
            let mut out: Vec<String> = Vec::new();
            out.push(m);
            let mut i: usize = 0;
            while i < violations.len()
                invariant
                    i <= violations@.len(),
                    views(out@) == seq![m@] + views(violations@).take(i as int),
                decreases violations@.len() - i,
            {
                let ghost before = out@;
                out.push(violations[i].clone());
                assert(views(out@) =~= views(before).push(violations@[i as int]@));
                assert(views(violations@).take(i + 1) =~= views(violations@).take(i as int).push(violations@[i as int]@));
                assert(views(out@) =~= seq![m@] + views(violations@).take(i + 1));
                i += 1;
            }
            assert(views(violations@).take(violations@.len() as int) =~= views(violations@));
            out
        },
        None => violations,
    }
}

/// Lint's errors for one artifact: the ID error first, if any, then the
/// JSON Schema errors of its frontmatter; or the error of compiling the JSON
/// Schema of `schema`.
pub fn lint_artifact(schema: &Schema, a: &Artifact) -> (r: Result<Vec<String>, String>)
    requires
        a.wf(),
    ensures
        r is Err <==> schema_compile_error(schema_json(schema@)) is Some,
        r matches Err(e) ==> Some(e@) == schema_compile_error(schema_json(schema@)),
        r matches Ok(v) ==> exists|rest: Seq<Seq<char>>| {
            &&& views(v@) == match id_issue(schema@.fields, *a) {
                Some(m) => seq![m] + rest,
                None => rest,
            }
            &&& reports_violations(rest, schema_json(schema@), Val::Object(entries_deep(a.frontmatter.entries@)))
        },
{
    let id_error = check_id(schema, a);
    match schema_errors(schema, a) {
        Err(e) => Err(e),
        Ok(v) => {
            let ghost rest = views(v@);
            let ghost idm = crate::schema::opt_view(id_error);
            assert(idm == id_issue(schema@.fields, *a));
            let out = with_id_error(id_error, v);
            assert(views(out@) == match idm {
                Some(m) => seq![m] + rest,
                None => rest,
            });
            assert(views(out@) == match id_issue(schema@.fields, *a) {
                Some(m) => seq![m] + rest,
                None => rest,
            });
            Ok(out)
        },
    }
}

// ---------------------------------------------------------------------------
// Reports
// ---------------------------------------------------------------------------

/// Checks that the JSON Schema of `schema` compiles.
fn compile_check(schema: &Schema) -> (r: Result<(), String>)
    ensures
        r is Err <==> schema_compile_error(schema_json(schema@)) is Some,
        r matches Err(e) ==> Some(e@) == schema_compile_error(schema_json(schema@)),
{
    let js = schema.to_json_schema();
    let empty = Value::Object(Vec::new());
    match json_schema_errors(&js, &empty) {
        Err(e) => Err(e),
        Ok(_) => Ok(()),
    }
}

/// The sequences of `ss`, one after another.
pub open spec fn flat(ss: Seq<Seq<Seq<char>>>) -> Seq<Seq<char>>
    decreases ss.len(),
{
    if ss.len() == 0 {
        Seq::empty()
    } else {
        flat(ss.drop_last()) + ss.last()
    }
}

/// Each of `ms` after `prefix`.
pub open spec fn prefixed(prefix: Seq<char>, ms: Seq<Seq<char>>) -> Seq<Seq<char>> {
    Seq::new(ms.len(), |q: int| prefix + ms[q])
}

/// The start of a report line about `place`.
pub open spec fn error_prefix(place: Seq<char>) -> Seq<char> {
    "  error: "@ + place + " - "@
}

/// The report line of a lint issue.
pub open spec fn issue_line(i: (Seq<char>, Seq<char>, bool)) -> Seq<char> {
    if i.2 {
        "  error: "@ + i.0 + " - "@ + i.1
    } else {
        "  warning: "@ + i.0 + " - "@ + i.1
    }
}

/// How many of the issues `is` are errors.
pub open spec fn error_count(is: Seq<(Seq<char>, Seq<char>, bool)>) -> nat
    decreases is.len(),
{
    if is.len() == 0 {
        0
    } else {
        error_count(is.drop_last()) + if is.last().2 { 1nat } else { 0nat }
    }
}

/// The frontmatter of `a` as the JSON value the JSON Schema checks.
pub open spec fn json_data(a: Artifact) -> Val {
    Val::Object(entries_deep(a.frontmatter.entries@))
}

/// The lines of each of `files`: its messages `ms[k]` after the prefix that
/// names its place.
pub open spec fn file_lines(files: Seq<(Seq<char>, Artifact)>, ms: Seq<Seq<Seq<char>>>) -> Seq<Seq<Seq<char>>> {
    Seq::new(files.len(), |k: int| prefixed(error_prefix(files[k].0), ms[k]))
}

/// The lines of each group outcome.
pub open spec fn outcome_lines(outs: Seq<(Seq<Seq<char>>, nat)>) -> Seq<Seq<Seq<char>>> {
    Seq::new(outs.len(), |i: int| outs[i].0)
}

/// `lines` are lint's lines for the JSON Schema errors of the artifacts
/// `files` (each with the name its lines give it) against the JSON Schema
/// `js`: for each artifact in turn, one line per error of its frontmatter,
/// in some order.
pub open spec fn violation_lines(
    js: Val,
    files: Seq<(Seq<char>, Artifact)>,
    lines: Seq<Seq<char>>,
) -> bool {
    exists|ms: Seq<Seq<Seq<char>>>|
        #![trigger file_lines(files, ms)]
        ms.len() == files.len() && (forall|k: int|
            0 <= k < files.len() ==> reports_violations(#[trigger] ms[k], js, json_data(files[k].1)))
            && lines == flat(file_lines(files, ms))
}

/// The artifacts `arts` with the places their lines name: `prefix`, then
/// the artifact's name.
pub open spec fn placed(prefix: Seq<char>, names: Seq<String>, arts: Seq<Artifact>) -> Seq<(Seq<char>, Artifact)> {
    Seq::new(arts.len(), |k: int| (prefix + names[k]@, arts[k]))
}

/// Lint's lines for the JSON Schema errors of `arts` against a schema whose
/// JSON Schema compiles (see [`violation_lines`]), each naming its place
/// `prefix` + its name.
fn violation_report(schema: &Schema, prefix: &str, names: &Vec<String>, arts: &Vec<Artifact>) -> (r: Vec<String>)
    requires
        schema_compile_error(schema_json(schema@)) is None,
        names@.len() == arts@.len(),
    ensures
        violation_lines(schema_json(schema@), placed(prefix@, names@, arts@), views(r@)),
{
    let ghost js = schema_json(schema@);
    let ghost nv = placed(prefix@, names@, arts@);
    let ghost mut ms: Seq<Seq<Seq<char>>> = Seq::empty();
    let mut out: Vec<String> = Vec::new();
    let mut k: usize = 0;
    while k < arts.len()
        invariant
            js == schema_json(schema@),
            nv == placed(prefix@, names@, arts@),
            names@.len() == arts@.len(),
            schema_compile_error(js) is None,
            k <= arts@.len(),
            ms.len() == k,
            forall|j: int| 0 <= j < k ==> reports_violations(#[trigger] ms[j], js, json_data(nv[j].1)),
            views(out@) == flat(Seq::new(k as nat, |j: int| prefixed(error_prefix(nv[j].0), ms[j]))),
        decreases arts@.len() - k,
    {
        let mut place = crate::text::owned(prefix);
        place.append(names[k].as_str());
        let name = place.as_str();
        let msgs = match schema_errors(schema, &arts[k]) {
            Ok(v) => v,
            Err(_) => Vec::new(),
        };
        let ghost mk = views(msgs@);
        assert(reports_violations(mk, js, json_data(nv[k as int].1)));
        let ghost before = views(out@);
        let mut q: usize = 0;
        while q < msgs.len()
            invariant
                q <= msgs@.len(),
                mk == views(msgs@),
                views(out@) == before + prefixed(error_prefix(name@), mk).take(q as int),
            decreases msgs@.len() - q,
        {
            let mut l = crate::text::owned("  error: ");
            l.append(name);
            l.append(" - ");
            l.append(msgs[q].as_str());
            let ghost ob = out@;
            out.push(l);
            proof {
                reveal_strlit("  error: ");
                reveal_strlit(" - ");
            }
            assert(views(out@) =~= views(ob).push(l@));
            assert(prefixed(error_prefix(name@), mk).take(q + 1) =~= prefixed(error_prefix(name@), mk).take(
                q as int,
            ).push(error_prefix(name@) + mk[q as int]));
            q += 1;
        }
        assert(prefixed(error_prefix(name@), mk).take(msgs@.len() as int) =~= prefixed(error_prefix(name@), mk));
        proof {
            let old_ms = ms;
            ms = ms.push(mk);
            let s1 = Seq::new(k as nat, |j: int| prefixed(error_prefix(nv[j].0), old_ms[j]));
            let s2 = Seq::new((k + 1) as nat, |j: int| prefixed(error_prefix(nv[j].0), ms[j]));
            assert(s2.drop_last() =~= s1);
            assert(nv[k as int].0 == name@);
        }
        k += 1;
    }
    assert(file_lines(nv, ms) =~= Seq::new(arts@.len() as nat, |j: int| prefixed(error_prefix(nv[j].0), ms[j])));
    assert(views(out@) == flat(file_lines(nv, ms)));
    out
}

/// One type of one project for `scan lint`: the project's name, the schema,
/// its artifacts, and the file name of each.
pub struct ScanLintGroup {
    pub project: String,
    pub schema: Schema,
    pub names: Vec<String>,
    pub artifacts: Vec<Artifact>,
}

/// What `scan lint` reports for one group: when its JSON Schema does not
/// compile, one error line naming the project and type, no file checked and
/// one error; else each file checked and a line per JSON Schema error.
pub open spec fn group_outcome(g: ScanLintGroup, lines: Seq<Seq<char>>, files: nat, errors: nat) -> bool {
    match schema_compile_error(schema_json(g.schema@)) {
        Some(e) => {
            &&& lines == seq![error_prefix(g.project@ + "/"@ + g.schema@.name) + "failed to compile schema: "@ + e]
            &&& files == 0
            &&& errors == 1
        },
        None => {
            &&& violation_lines(schema_json(g.schema@), placed(g.project@ + "/"@, g.names@, g.artifacts@), lines)
            &&& files == g.artifacts@.len()
            &&& errors == lines.len()
        },
    }
}

/// The number of files of the groups `gs`.
pub open spec fn file_total(gs: Seq<ScanLintGroup>) -> nat
    decreases gs.len(),
{
    if gs.len() == 0 {
        0
    } else {
        file_total(gs.drop_last()) + gs.last().artifacts@.len()
    }
}

proof fn lemma_file_total_prefix(gs: Seq<ScanLintGroup>, k: int)
    requires
        0 <= k <= gs.len(),
    ensures
        file_total(gs.take(k)) <= file_total(gs),
    decreases gs.len() - k,
{
    if k < gs.len() {
        lemma_file_total_prefix(gs, k + 1);
        assert(gs.take(k + 1).drop_last() =~= gs.take(k));
        assert(gs.take(k + 1).last() == gs[k]);
    } else {
        assert(gs.take(k) =~= gs);
    }
}

/// The number of files of the group outcomes `outs`.
pub open spec fn sum_files(outs: Seq<(Seq<Seq<char>>, nat)>) -> nat
    decreases outs.len(),
{
    if outs.len() == 0 {
        0
    } else {
        sum_files(outs.drop_last()) + outs.last().1
    }
}

/// `scan lint` over the groups in turn: the error lines, the number of files
/// checked and the number of errors (one per line). Each group reports as
/// [`group_outcome`] states.
pub fn scan_lint_report(groups: &Vec<ScanLintGroup>) -> (r: (Vec<String>, usize, usize))
    requires
        forall|i: int| 0 <= i < groups@.len() ==> (#[trigger] groups@[i]).names@.len() == groups@[i].artifacts@.len(),
        forall|i: int, k: int| 0 <= i < groups@.len() && 0 <= k < groups@[i].artifacts@.len() ==> (
        #[trigger] groups@[i].artifacts@[k]).wf(),
        file_total(groups@) <= usize::MAX,
    ensures
        r.2 == r.0@.len(),
        exists|outs: Seq<(Seq<Seq<char>>, nat)>|
            #![trigger outcome_lines(outs)]
            outs.len() == groups@.len() && (forall|i: int|
                0 <= i < groups@.len() ==> group_outcome(
                    groups@[i],
                    (#[trigger] outs[i]).0,
                    outs[i].1,
                    outs[i].0.len(),
                )) && views(r.0@) == flat(outcome_lines(outs)) && r.1 == sum_files(outs),
{
    let ghost mut outs: Seq<(Seq<Seq<char>>, nat)> = Seq::empty();
    let mut lines: Vec<String> = Vec::new();
    let mut files: usize = 0;
    let mut i: usize = 0;
    while i < groups.len()
        invariant
            forall|i: int| 0 <= i < groups@.len() ==> (#[trigger] groups@[i]).names@.len() == groups@[i].artifacts@.len(),
            forall|i: int, k: int| 0 <= i < groups@.len() && 0 <= k < groups@[i].artifacts@.len() ==> (
            #[trigger] groups@[i].artifacts@[k]).wf(),
            file_total(groups@) <= usize::MAX,
            i <= groups@.len(),
            outs.len() == i,
            forall|j: int| 0 <= j < i ==> group_outcome(groups@[j], (#[trigger] outs[j]).0, outs[j].1, outs[j].0.len()),
            views(lines@) == flat(outcome_lines(outs)),
            files == sum_files(outs),
            sum_files(outs) <= file_total(groups@.take(i as int)),
        decreases groups@.len() - i,
    {
        let g = &groups[i];
        let ghost before = views(lines@);
        let (glines, gfiles) = match compile_check(&g.schema) {
            Err(e) => {
                let mut l = crate::text::owned("  error: ");
                l.append(g.project.as_str());
                l.append("/");
                l.append(g.schema.name.as_str());
                l.append(" - failed to compile schema: ");
                l.append(e.as_str());
                let mut v: Vec<String> = Vec::new();
                v.push(l);
                proof {
                    reveal_strlit("  error: ");
                    reveal_strlit(" - ");
                    reveal_strlit("/");
                    reveal_strlit(" - failed to compile schema: ");
                    reveal_strlit("failed to compile schema: ");
                }
                assert(" - failed to compile schema: "@ =~= " - "@ + "failed to compile schema: "@);
                assert(l@ =~= error_prefix(g.project@ + "/"@ + g.schema@.name) + "failed to compile schema: "@ + e@);
                assert(views(v@) =~= seq![error_prefix(g.project@ + "/"@ + g.schema@.name) + "failed to compile schema: "@ + e@]);
                (v, 0usize)
            },
            Ok(()) => {
                let mut prefix = g.project.clone();
                prefix.append("/");
                proof {
                    reveal_strlit("/");
                }
                let v = violation_report(&g.schema, prefix.as_str(), &g.names, &g.artifacts);
                (v, g.artifacts.len())
            },
        };
        proof {
            let old_outs = outs;
            outs = outs.push((views(glines@), gfiles as nat));
            assert(outcome_lines(outs).drop_last() =~= outcome_lines(old_outs));
            assert(outs.drop_last() =~= old_outs);
            assert(sum_files(outs) == sum_files(old_outs) + gfiles);
            lemma_file_total_prefix(groups@, i + 1);
            assert(groups@.take(i + 1).drop_last() =~= groups@.take(i as int));
        }
        let mut q: usize = 0;
        let ghost before2 = views(lines@);
        while q < glines.len()
            invariant
                q <= glines@.len(),
                views(lines@) == before2 + views(glines@).take(q as int),
            decreases glines@.len() - q,
        {
            let ghost lb = lines@;
            lines.push(glines[q].clone());
            assert(views(lines@) =~= views(lb).push(glines@[q as int]@));
            assert(views(glines@).take(q + 1) =~= views(glines@).take(q as int).push(glines@[q as int]@));
            q += 1;
        }
        assert(views(glines@).take(glines@.len() as int) =~= views(glines@));
        files = files + gfiles;
        i += 1;
    }
    assert(groups@.take(groups@.len() as int) =~= groups@);
    let n = lines.len();
    (lines, files, n)
}

/// `ms` are lint's messages for artifact `a` of schema `s` (see
/// [`lint_artifact`]): its ID error, if any, then its JSON Schema errors in
/// some order.
pub open spec fn artifact_messages(s: SchemaModel, a: Artifact, ms: Seq<Seq<char>>) -> bool {
    exists|rest: Seq<Seq<char>>| {
        &&& #[trigger] reports_violations(rest, schema_json(s), json_data(a))
        &&& ms == match id_issue(s.fields, a) {
            Some(m) => seq![m] + rest,
            None => rest,
        }
    }
}

/// The per-artifact lines of `lint` on a type: for each artifact, its
/// messages `ms[k]` after the prefix that names its file.
pub open spec fn artifact_lines(arts: Seq<Artifact>, ms: Seq<Seq<Seq<char>>>) -> Seq<Seq<Seq<char>>> {
    Seq::new(arts.len(), |k: int| prefixed(error_prefix(arts[k].path@), ms[k]))
}

/// The report lines of the issues `is`.
pub open spec fn issue_lines(is: Seq<(Seq<char>, Seq<char>, bool)>) -> Seq<Seq<char>> {
    Seq::new(is.len(), |i: int| issue_line(is[i]))
}

/// `lint` on one type with artifacts `arts`: the report lines and, unless
/// the type's JSON Schema does not compile (then its error), the numbers of
/// files, errors and warnings. First come the duplicate ID errors and
/// duplicate priority warnings (see [`duplicate_issues`]); then, when the
/// JSON Schema compiles, each artifact's errors (see [`lint_artifact`]).
pub fn lint_type_report(schema: &Schema, arts: &Vec<Artifact>) -> (r: (Vec<String>, Result<(usize, usize, usize), String>))
    requires
        forall|i: int| 0 <= i < arts@.len() ==> (#[trigger] arts@[i]).wf(),
    ensures
        ({
            let dups = duplicate_id_issues(arts@, arts@.len() as int) + duplicate_priority_issues(
                arts@,
                arts@.len() as int,
            );
            &&& views(r.0@).take(dups.len() as int) == issue_lines(dups)
            &&& r.1 is Err <==> schema_compile_error(schema_json(schema@)) is Some
            &&& r.1 matches Err(e) ==> Some(e@) == schema_compile_error(schema_json(schema@)) && r.0@.len()
                == dups.len()
            &&& r.1 matches Ok(t) ==> {
                &&& r.0@.len() >= dups.len()
                &&& t.0 == arts@.len()
                &&& t.1 == error_count(dups) + (r.0@.len() - dups.len())
                &&& t.2 == dups.len() - error_count(dups)
                &&& exists|ms: Seq<Seq<Seq<char>>>|
                    #![trigger artifact_lines(arts@, ms)]
                    ms.len() == arts@.len() && (forall|k: int|
                        0 <= k < arts@.len() ==> artifact_messages(schema@, arts@[k], #[trigger] ms[k]))
                        && views(r.0@).skip(dups.len() as int) == flat(artifact_lines(arts@, ms))
            }
        }),
{
    let issues = duplicate_issues(arts);
    let ghost dups = issues_view(issues@);
    let mut lines: Vec<String> = Vec::new();
    let mut errors: usize = 0;
    let mut warnings: usize = 0;
    let mut i: usize = 0;
    while i < issues.len()
        invariant
            dups == issues_view(issues@),
            i <= issues@.len(),
            views(lines@) == issue_lines(dups).take(i as int),
            errors == error_count(dups.take(i as int)),
            errors + warnings == i,
        decreases issues@.len() - i,
    {
        let mut l = if issues[i].error {
            crate::text::owned("  error: ")
        } else {
            crate::text::owned("  warning: ")
        };
        l.append(issues[i].path.as_str());
        l.append(" - ");
        l.append(issues[i].message.as_str());
        proof {
            reveal_strlit("  error: ");
            reveal_strlit("  warning: ");
            reveal_strlit(" - ");
        }
        let ghost lb = lines@;
        assert(l@ == issue_line(dups[i as int]));
        lines.push(l);
        assert(views(lines@) =~= views(lb).push(issue_line(dups[i as int])));
        assert(issue_lines(dups).take(i + 1) =~= issue_lines(dups).take(i as int).push(issue_line(dups[i as int])));
        assert(dups.take(i + 1).drop_last() =~= dups.take(i as int));
        if issues[i].error {
            errors = errors + 1;
        } else {
            warnings = warnings + 1;
        }
        i += 1;
    }
    assert(issue_lines(dups).take(dups.len() as int) =~= issue_lines(dups));
    assert(dups.take(dups.len() as int) =~= dups);
    assert(views(lines@).take(dups.len() as int) =~= views(lines@));
    let ghost head = views(lines@);
    match compile_check(schema) {
        Err(e) => {
            return (lines, Err(e));
        },
        Ok(()) => {},
    }
    let ghost mut ms: Seq<Seq<Seq<char>>> = Seq::empty();
    let mut k: usize = 0;
    while k < arts.len()
        invariant
            forall|i: int| 0 <= i < arts@.len() ==> (#[trigger] arts@[i]).wf(),
            schema_compile_error(schema_json(schema@)) is None,
            head.len() == dups.len(),
            k <= arts@.len(),
            ms.len() == k,
            forall|j: int| 0 <= j < k ==> artifact_messages(schema@, arts@[j], #[trigger] ms[j]),
            views(lines@) == head + flat(artifact_lines(arts@.take(k as int), ms)),
            lines@.len() >= dups.len(),
            errors == error_count(dups),
            warnings == dups.len() - error_count(dups),
            dups.len() == issues@.len(),
        decreases arts@.len() - k,
    {
        let msgs = match lint_artifact(schema, &arts[k]) {
            Ok(v) => v,
            Err(_) => Vec::new(),
        };
        let ghost mk = views(msgs@);
        assert(artifact_messages(schema@, arts@[k as int], mk));
        let ghost before = views(lines@);
        let path = arts[k].path.as_str();
        let mut q: usize = 0;
        while q < msgs.len()
            invariant
                q <= msgs@.len(),
                mk == views(msgs@),
                views(lines@) == before + prefixed(error_prefix(path@), mk).take(q as int),
                lines@.len() == before.len() + q,
            decreases msgs@.len() - q,
        {
            let mut l = crate::text::owned("  error: ");
            l.append(path);
            l.append(" - ");
            l.append(msgs[q].as_str());
            proof {
                reveal_strlit("  error: ");
                reveal_strlit(" - ");
            }
            let ghost ob = lines@;
            lines.push(l);
            assert(views(lines@) =~= views(ob).push(l@));
            assert(prefixed(error_prefix(path@), mk).take(q + 1) =~= prefixed(error_prefix(path@), mk).take(
                q as int,
            ).push(error_prefix(path@) + mk[q as int]));
            q += 1;
        }
        assert(prefixed(error_prefix(path@), mk).take(msgs@.len() as int) =~= prefixed(error_prefix(path@), mk));
        proof {
            let old_ms = ms;
            ms = ms.push(mk);
            assert(artifact_lines(arts@.take(k + 1), ms).drop_last() =~= artifact_lines(arts@.take(k as int), old_ms));
            assert(artifact_lines(arts@.take(k + 1), ms).last() == prefixed(error_prefix(path@), mk));
        }
        k += 1;
    }
    assert(arts@.take(arts@.len() as int) =~= arts@);
    assert(views(lines@).skip(dups.len() as int) =~= flat(artifact_lines(arts@, ms)));
    let total = errors + (lines.len() - issues.len());
    (lines, Ok((arts.len(), total, warnings)))
}

// ---------------------------------------------------------------------------
// Supersession
// ---------------------------------------------------------------------------

/// The schema lets lint fix supersession: it has a `supersedes` field, and a
/// `status` field whose values include `superseded`.
pub open spec fn supersession_applies(s: SchemaModel) -> bool {
    &&& exists|i: int| 0 <= i < s.fields.len() && #[trigger] s.fields[i].name == "supersedes"@
    &&& match field_named(s.fields, "status"@) {
        Some(f) => match f.values {
            Some(vs) => vs.contains("superseded"@),
            None => false,
        },
        None => false,
    }
}

/// The leading ID token of a `supersedes` value: the text before the first
/// whitespace character or `(`.
pub open spec fn lead_token(s: Seq<char>) -> Seq<char>
    decreases s.len(),
{
    if s.len() == 0 || whitespace(s[0]) || s[0] == '(' {
        Seq::empty()
    } else {
        seq![s[0]] + lead_token(s.drop_first())
    }
}

/// The last of `arts[0..k]` whose ID is `id`.
pub open spec fn last_with_id(arts: Seq<Artifact>, id: Seq<char>, k: int) -> Option<int>
    decreases k,
{
    if k <= 0 {
        None
    } else if id_of(arts[k - 1]) == Some(id) {
        Some(k - 1)
    } else {
        last_with_id(arts, id, k - 1)
    }
}

/// The fix that artifact `i` calls for: when it supersedes an artifact of
/// `arts` (the last with that ID) whose status is neither `superseded` nor
/// `deprecated`, that artifact's position and the ID of `i` (`?` if none).
pub open spec fn fix_of(arts: Seq<Artifact>, i: int) -> Option<(int, Seq<char>)> {
    match str_field(arts[i].frontmatter@, "supersedes"@) {
        Some(raw) => {
            let t = lead_token(raw);
            if t.len() == 0 {
                None
            } else {
                match last_with_id(arts, t, arts.len() as int) {
                    Some(j) => {
                        let st = str_field(arts[j].frontmatter@, "status"@);
                        if st == Some("superseded"@) || st == Some("deprecated"@) {
                            None
                        } else {
                            Some(
                                (
                                    j,
                                    match id_of(arts[i]) {
                                        Some(id) => id,
                                        None => "?"@,
                                    },
                                ),
                            )
                        }
                    },
                    None => None,
                }
            }
        },
        None => None,
    }
}

/// The fixes called for by `arts[0..k]`, in order.
pub open spec fn fixes_upto(arts: Seq<Artifact>, k: int) -> Seq<(int, Seq<char>)>
    decreases k,
{
    if k <= 0 {
        Seq::empty()
    } else {
        match fix_of(arts, k - 1) {
            Some(f) => fixes_upto(arts, k - 1).push(f),
            None => fixes_upto(arts, k - 1),
        }
    }
}

/// The fixes that lint makes: none unless the schema allows them (see
/// [`supersession_applies`]), else those of every artifact, in order.
pub open spec fn supersession_plan(s: SchemaModel, arts: Seq<Artifact>) -> Seq<(int, Seq<char>)> {
    if supersession_applies(s) {
        fixes_upto(arts, arts.len() as int)
    } else {
        Seq::empty()
    }
}

/// The model of a planned fix.
pub open spec fn fixes_view(v: Seq<(usize, String)>) -> Seq<(int, Seq<char>)> {
    Seq::new(v.len(), |i: int| (v[i].0 as int, v[i].1@))
}

/// The leading token of `s` (see [`lead_token`]).
fn leading_token(s: &str) -> (r: String)
    ensures
        r@ == lead_token(s@),
{
    let x = crate::text::chars_of(s);
    let mut n: usize = 0;
    assert(x@.skip(0) =~= x@);
    assert(x@.take(0) + lead_token(x@) =~= lead_token(x@));
    while n < x.len() && !crate::text::is_whitespace(x[n]) && x[n] != '('
        invariant
            x@ == s@,
            n <= x@.len(),
            lead_token(s@) == x@.take(n as int) + lead_token(x@.skip(n as int)),
        decreases x@.len() - n,
    {
        assert(x@.skip(n as int) =~= seq![x@[n as int]] + x@.skip(n + 1));
        assert(x@.skip(n as int).drop_first() =~= x@.skip(n + 1));
        assert(x@.take(n + 1) =~= x@.take(n as int) + seq![x@[n as int]]);
        n += 1;
    }
    assert(lead_token(x@.skip(n as int)) =~= Seq::<char>::empty());
    let mut out: Vec<char> = Vec::new();
    let mut i: usize = 0;
    while i < n
        invariant
            n <= x@.len(),
            i <= n,
            out@ == x@.take(i as int),
        decreases n - i,
    {
        out.push(x[i]);
        assert(x@.take(i + 1) =~= x@.take(i as int).push(x@[i as int]));
        i += 1;
    }
    assert(x@.take(n as int) + Seq::<char>::empty() =~= x@.take(n as int));
    crate::text::string_of(&out)
}

/// The last artifact whose ID is `id`.
fn find_last_id(arts: &Vec<Artifact>, id: &str) -> (r: Option<usize>)
    requires
        forall|i: int| 0 <= i < arts@.len() ==> (#[trigger] arts@[i]).wf(),
    ensures
        r matches Some(j) ==> last_with_id(arts@, id@, arts@.len() as int) == Some(j as int),
        r is None ==> last_with_id(arts@, id@, arts@.len() as int) is None,
        r matches Some(j) ==> j < arts@.len(),
{
    let mut i: usize = arts.len();
    while i > 0
        invariant
            forall|i: int| 0 <= i < arts@.len() ==> (#[trigger] arts@[i]).wf(),
            i <= arts@.len(),
            last_with_id(arts@, id@, arts@.len() as int) == last_with_id(arts@, id@, i as int),
        decreases i,
    {
        let hit = match arts[i - 1].id() {
            Some(x) => str_eq(x, id),
            None => false,
        };
        if hit {
            return Some(i - 1);
        }
        i -= 1;
    }
    None
}

/// Whether the schema lets lint fix supersession.
fn supersession_allowed(schema: &Schema) -> (r: bool)
    ensures
        r == supersession_applies(schema@),
{
    let mut found = false;
    let mut i: usize = 0;
    while i < schema.fields.len()
        invariant
            i <= schema.fields@.len(),
            found == exists|j: int| 0 <= j < i && #[trigger] schema@.fields[j].name == "supersedes"@,
        decreases schema.fields@.len() - i,
    {
        assert(schema@.fields[i as int] == schema.fields@[i as int]@);
        if str_eq(schema.fields[i].name.as_str(), "supersedes") {
            found = true;
            assert(schema@.fields[i as int].name == "supersedes"@);
        } else {
            assert(schema@.fields[i as int].name != "supersedes"@);
        }
        i += 1;
    }
    if !found {
        return false;
    }
    match schema.get_field("status") {
        Some(f) => match &f.values {
            Some(vs) => crate::validate::contains_string(vs, "superseded"),
            None => false,
        },
        None => false,
    }
}

/// The supersession fixes lint makes (see [`supersession_plan`]): for each
/// artifact that supersedes another, in order, the position of the
/// superseded artifact and the ID of the one that supersedes it.
pub fn supersession_fixes(schema: &Schema, arts: &Vec<Artifact>) -> (r: Vec<(usize, String)>)
    requires
        forall|i: int| 0 <= i < arts@.len() ==> (#[trigger] arts@[i]).wf(),
    ensures
        fixes_view(r@) == supersession_plan(schema@, arts@),
        forall|k: int| 0 <= k < r@.len() ==> #[trigger] r@[k].0 < arts@.len(),
{
    let mut out: Vec<(usize, String)> = Vec::new();
    if !supersession_allowed(schema) {
        assert(fixes_view(out@) =~= Seq::<(int, Seq<char>)>::empty());
        return out;
    }
    let mut i: usize = 0;
    while i < arts.len()
        invariant
            forall|i: int| 0 <= i < arts@.len() ==> (#[trigger] arts@[i]).wf(),
            i <= arts@.len(),
            fixes_view(out@) == fixes_upto(arts@, i as int),
            forall|k: int| 0 <= k < out@.len() ==> #[trigger] out@[k].0 < arts@.len(),
        decreases arts@.len() - i,
    {
        let a = &arts[i];
        match a.get_str("supersedes") {
            Some(raw) => {
                let t = leading_token(raw);
                if !t.as_str().is_empty() {
                    match find_last_id(arts, t.as_str()) {
                        Some(j) => {
                            let st = arts[j].status();
                            let skip = match st {
                                Some(x) => str_eq(x, "superseded") || str_eq(x, "deprecated"),
                                None => false,
                            };
                            if !skip {
                                let src = match a.id() {
                                    Some(id) => crate::text::owned(id),
                                    None => crate::text::owned("?"),
                                };
                                let ghost before = fixes_view(out@);
                                out.push((j, src));
                                assert(fixes_view(out@) =~= before.push(fix_of(arts@, i as int).unwrap()));
                            }
                        },
                        None => {},
                    }
                }
            },
            None => {},
        }
        i += 1;
    }
    out
}

/// `after` is `before` with the status of each fixed artifact set to
/// `superseded` and its `updated` date to `today`; nothing else differs.
pub open spec fn supersession_applied(before: Seq<Artifact>, after: Seq<Artifact>, fixes: Seq<(usize, String)>, today: Seq<char>) -> bool {
    &&& after.len() == before.len()
    &&& forall|i: int| 0 <= i < after.len() ==> (#[trigger] after[i]).wf()
    &&& forall|i: int| 0 <= i < after.len() ==> {
        let a = #[trigger] after[i];
        let o = before[i];
        &&& a.path == o.path && a.body == o.body && a.raw == o.raw
        &&& if exists|k: int| 0 <= k < fixes.len() && fixes[k].0 == i {
            a.frontmatter@ == o.frontmatter@.insert("status"@, Val::Str("superseded"@)).insert(
                "updated"@,
                Val::Str(today),
            )
        } else {
            a.frontmatter@ == o.frontmatter@
        }
    }
}

/// Makes the planned fixes, as [`supersession_applied`] states.
pub fn apply_supersession(arts: &mut Vec<Artifact>, fixes: &Vec<(usize, String)>, today: &str)
    requires
        forall|i: int| 0 <= i < old(arts)@.len() ==> (#[trigger] old(arts)@[i]).wf(),
        forall|k: int| 0 <= k < fixes@.len() ==> #[trigger] fixes@[k].0 < old(arts)@.len(),
    ensures
        supersession_applied(old(arts)@, final(arts)@, fixes@, today@),
{
    let ghost orig = arts@;
    let mut k: usize = 0;
    while k < fixes.len()
        invariant
            k <= fixes@.len(),
            arts@.len() == orig.len(),
            forall|k: int| 0 <= k < fixes@.len() ==> #[trigger] fixes@[k].0 < orig.len(),
            forall|i: int| 0 <= i < arts@.len() ==> (#[trigger] arts@[i]).wf(),
            forall|i: int| 0 <= i < arts@.len() ==> {
                let a = #[trigger] arts@[i];
                let o = orig[i];
                &&& a.path == o.path && a.body == o.body && a.raw == o.raw
                &&& if exists|q: int| 0 <= q < k && fixes@[q].0 == i {
                    a.frontmatter@ == o.frontmatter@.insert("status"@, Val::Str("superseded"@)).insert(
                        "updated"@,
                        Val::Str(today@),
                    )
                } else {
                    a.frontmatter@ == o.frontmatter@
                }
            },
        decreases fixes@.len() - k,
    {
        let t = fixes[k].0;
        let ghost prev = arts@;
        let mut a = arts.remove(t);
        a.frontmatter.insert(crate::text::owned("status"), Value::Str(crate::text::owned("superseded")));
        a.frontmatter.insert(crate::text::owned("updated"), Value::Str(crate::text::owned(today)));
        arts.insert(t, a);
        assert forall|i: int| 0 <= i < arts@.len() implies {
            let a = #[trigger] arts@[i];
            let o = orig[i];
            &&& a.path == o.path && a.body == o.body && a.raw == o.raw
            &&& if exists|q: int| 0 <= q < k + 1 && fixes@[q].0 == i {
                a.frontmatter@ == o.frontmatter@.insert("status"@, Val::Str("superseded"@)).insert(
                    "updated"@,
                    Val::Str(today@),
                )
            } else {
                a.frontmatter@ == o.frontmatter@
            }
        } by {
            if i == t {
                assert(fixes@[k as int].0 == i);
                let o = orig[i].frontmatter@;
                let once = o.insert("status"@, Val::Str("superseded"@)).insert("updated"@, Val::Str(today@));
                assert(once.insert("status"@, Val::Str("superseded"@)).insert("updated"@, Val::Str(today@)) =~= once);
            } else {
                assert(arts@[i] == prev[i]);
                if exists|q: int| 0 <= q < k + 1 && fixes@[q].0 == i {
                    let q = choose|q: int| 0 <= q < k + 1 && fixes@[q].0 == i;
                    assert(q < k);
                }
            }
        }
        k += 1;
    }
}

// ---------------------------------------------------------------------------
// Summary
// ---------------------------------------------------------------------------

/// `word`, with an `s` unless `count` is 1.
pub open spec fn plural(word: Seq<char>, count: nat) -> Seq<char> {
    if count == 1 {
        word
    } else {
        word + "s"@
    }
}

/// `word`, with an `s` unless `count` is 1.
pub fn pluralize(word: &str, count: usize) -> (r: String)
    ensures
        r@ == plural(word@, count as nat),
{
    let mut r = crate::text::owned(word);
    if count != 1 {
        r.append("s");
    }
    r
}

/// The last line of lint's report.
pub open spec fn lint_summary_text(files: nat, errors: nat, warnings: nat) -> Seq<char> {
    if errors == 0 && warnings == 0 {
        "Lint passed. "@ + nat_text(files) + " "@ + plural("file"@, files) + " checked, no issues found."@
    } else {
        "Lint complete. "@ + nat_text(files) + " "@ + plural("file"@, files) + " checked: "@ + nat_text(errors)
            + " "@ + plural("error"@, errors) + ", "@ + nat_text(warnings) + " "@ + plural("warning"@, warnings) + "."@
    }
}

/// The last line of lint's report: the number of files checked and of issues.
pub fn lint_summary(files: usize, errors: usize, warnings: usize) -> (r: String)
    ensures
        r@ == lint_summary_text(files as nat, errors as nat, warnings as nat),
{
    let mut r = String::new();
    if errors == 0 && warnings == 0 {
        r.append("Lint passed. ");
        r.append(crate::text::usize_text(files).as_str());
        r.append(" ");
        r.append(pluralize("file", files).as_str());
        r.append(" checked, no issues found.");
    } else {
        r.append("Lint complete. ");
        r.append(crate::text::usize_text(files).as_str());
        r.append(" ");
        r.append(pluralize("file", files).as_str());
        r.append(" checked: ");
        r.append(crate::text::usize_text(errors).as_str());
        r.append(" ");
        r.append(pluralize("error", errors).as_str());
        r.append(", ");
        r.append(crate::text::usize_text(warnings).as_str());
        r.append(" ");
        r.append(pluralize("warning", warnings).as_str());
        r.append(".");
    }
    r
}

/// The error lint ends with when it found errors.
pub open spec fn lint_failure_text(errors: nat) -> Seq<char> {
    "lint failed with "@ + nat_text(errors) + " error(s)"@
}

/// Lint fails exactly when it found errors; the message counts them.
pub fn lint_outcome(errors: usize) -> (r: Result<(), String>)
    ensures
        r is Ok <==> errors == 0,
        r matches Err(m) ==> m@ == lint_failure_text(errors as nat),
{
    if errors == 0 {
        Ok(())
    } else {
        let mut m = crate::text::owned("lint failed with ");
        m.append(crate::text::usize_text(errors).as_str());
        m.append(" error(s)");
        Err(m)
    }
}

} // verus!
