//! Lifecycle hooks: which configured shell commands run on creation, status
//! change and archiving, and how the configuration is listed.
use vstd::prelude::*;

use crate::schema::opt_view;
use crate::text::{join_spec, nat_text, str_eq, views};

verus! {

/// The hooks of `.ark/hooks.yml`, by event.
pub struct HooksConfig {
    pub on_status_change: Vec<HookDef>,
    pub on_create: Vec<HookDef>,
    pub on_archive: Vec<HookDef>,
}

/// One hook: optional filters and the shell command to run.
pub struct HookDef {
    pub artifact_type: Option<String>,
    pub to_status: Option<String>,
    pub from_status: Option<String>,
    pub run: String,
}

/// One hook to run: the command, and the values of `ARK_ARTIFACT_ID`,
/// `ARK_ARTIFACT_TYPE`, `ARK_FROM_STATUS` and `ARK_TO_STATUS`.
pub struct HookRun {
    pub command: String,
    pub artifact_id: String,
    pub artifact_type: String,
    pub from_status: String,
    pub to_status: String,
}

/// An optional filter lets `value` through: it is absent or equal to it.
pub open spec fn passes(filter: Option<Seq<char>>, value: Seq<char>) -> bool {
    match filter {
        Some(f) => f == value,
        None => true,
    }
}

/// Whether an optional filter lets `value` through.
pub fn matches_filter(filter: &Option<String>, value: &str) -> (r: bool)
    ensures
        r == passes(opt_view(*filter), value@),
{
    match filter {
        Some(f) => str_eq(f.as_str(), value),
        None => true,
    }
}

/// The model of a hook run: command, ID, type, from and to status.
pub open spec fn run_view(r: HookRun) -> (Seq<char>, Seq<char>, Seq<char>, Seq<char>, Seq<char>) {
    (r.command@, r.artifact_id@, r.artifact_type@, r.from_status@, r.to_status@)
}

/// The models of hook runs.
pub open spec fn runs_view(rs: Seq<HookRun>) -> Seq<(Seq<char>, Seq<char>, Seq<char>, Seq<char>, Seq<char>)> {
    Seq::new(rs.len(), |i: int| run_view(rs[i]))
}

/// The status-change hooks that fire, in order, for an artifact of type `t`
/// going from status `from` to status `to`.
pub open spec fn status_change_runs(
    hooks: Seq<HookDef>,
    t: Seq<char>,
    id: Seq<char>,
    from: Seq<char>,
    to: Seq<char>,
) -> Seq<(Seq<char>, Seq<char>, Seq<char>, Seq<char>, Seq<char>)>
    decreases hooks.len(),
{
    if hooks.len() == 0 {
        Seq::empty()
    } else {
        let r = status_change_runs(hooks.drop_last(), t, id, from, to);
        let h = hooks.last();
        if passes(opt_view(h.artifact_type), t) && passes(opt_view(h.to_status), to) && passes(
            opt_view(h.from_status),
            from,
        ) {
            r.push((h.run@, id, t, from, to))
        } else {
            r
        }
    }
}

/// The hooks of a list that fire for artifacts of type `t` (creation and archiving).
pub open spec fn typed_runs(hooks: Seq<HookDef>, t: Seq<char>, id: Seq<char>) -> Seq<
    (Seq<char>, Seq<char>, Seq<char>, Seq<char>, Seq<char>),
>
    decreases hooks.len(),
{
    if hooks.len() == 0 {
        Seq::empty()
    } else {
        let r = typed_runs(hooks.drop_last(), t, id);
        let h = hooks.last();
        if passes(opt_view(h.artifact_type), t) {
            r.push((h.run@, id, t, Seq::empty(), Seq::empty()))
        } else {
            r
        }
    }
}

/// The status-change hooks to run when artifact `artifact_id` of type
/// `artifact_type` moves from `from_status` to `to_status`: those whose
/// type, to-status and from-status filters all let the change through.
pub fn run_status_change_hooks(
    config: &HooksConfig,
    artifact_type: &str,
    artifact_id: &str,
    from_status: &str,
    to_status: &str,
) -> (r: Vec<HookRun>)
    ensures
        runs_view(r@) == status_change_runs(
            config.on_status_change@,
            artifact_type@,
            artifact_id@,
            from_status@,
            to_status@,
        ),
{
    let hooks = &config.on_status_change;
    let mut out: Vec<HookRun> = Vec::new();
    let mut i: usize = 0;
    assert(hooks@.take(0) =~= Seq::<HookDef>::empty());
    assert(runs_view(out@) =~= Seq::<(Seq<char>, Seq<char>, Seq<char>, Seq<char>, Seq<char>)>::empty());
    while i < hooks.len()
        invariant
            *hooks == config.on_status_change,
            i <= hooks@.len(),
            runs_view(out@) == status_change_runs(hooks@.take(i as int), artifact_type@, artifact_id@, from_status@, to_status@),
        decreases hooks@.len() - i,
    {
        assert(hooks@.take(i + 1).drop_last() =~= hooks@.take(i as int));
        let h = &hooks[i];
        if matches_filter(&h.artifact_type, artifact_type) && matches_filter(&h.to_status, to_status)
            && matches_filter(&h.from_status, from_status) {
            let ghost before = runs_view(out@);
            out.push(HookRun {
                command: h.run.clone(),
                artifact_id: crate::text::owned(artifact_id),
                artifact_type: crate::text::owned(artifact_type),
                from_status: crate::text::owned(from_status),
                to_status: crate::text::owned(to_status),
            });
            assert(runs_view(out@) =~= before.push((h.run@, artifact_id@, artifact_type@, from_status@, to_status@)));
        }
        i += 1;
    }
    assert(hooks@.take(hooks@.len() as int) =~= hooks@);
    out
}

/// The hooks of `hooks` whose type filter lets `artifact_type` through.
fn typed_hooks(hooks: &Vec<HookDef>, artifact_type: &str, artifact_id: &str) -> (r: Vec<HookRun>)
    ensures
        runs_view(r@) == typed_runs(hooks@, artifact_type@, artifact_id@),
{
    let mut out: Vec<HookRun> = Vec::new();
    let mut i: usize = 0;
    assert(hooks@.take(0) =~= Seq::<HookDef>::empty());
    assert(runs_view(out@) =~= Seq::<(Seq<char>, Seq<char>, Seq<char>, Seq<char>, Seq<char>)>::empty());
    while i < hooks.len()
        invariant
            i <= hooks@.len(),
            runs_view(out@) == typed_runs(hooks@.take(i as int), artifact_type@, artifact_id@),
        decreases hooks@.len() - i,
    {
        assert(hooks@.take(i + 1).drop_last() =~= hooks@.take(i as int));
        let h = &hooks[i];
        if matches_filter(&h.artifact_type, artifact_type) {
            let ghost before = runs_view(out@);
            out.push(HookRun {
                command: h.run.clone(),
                artifact_id: crate::text::owned(artifact_id),
                artifact_type: crate::text::owned(artifact_type),
                from_status: String::new(),
                to_status: String::new(),
            });
            assert(runs_view(out@) =~= before.push((h.run@, artifact_id@, artifact_type@, Seq::empty(), Seq::empty())));
        }
        i += 1;
    }
    assert(hooks@.take(hooks@.len() as int) =~= hooks@);
    out
}

/// The creation hooks to run for a new artifact of type `artifact_type`.
pub fn run_create_hooks(config: &HooksConfig, artifact_type: &str, artifact_id: &str) -> (r: Vec<HookRun>)
    ensures
        runs_view(r@) == typed_runs(config.on_create@, artifact_type@, artifact_id@),
{
    typed_hooks(&config.on_create, artifact_type, artifact_id)
}

/// The archive hooks to run for an archived artifact of type `artifact_type`.
pub fn run_archive_hooks(config: &HooksConfig, artifact_type: &str, artifact_id: &str) -> (r: Vec<HookRun>)
    ensures
        runs_view(r@) == typed_runs(config.on_archive@, artifact_type@, artifact_id@),
{
    typed_hooks(&config.on_archive, artifact_type, artifact_id)
}

/// The filters of a status-change hook as listed: `type=`, `to=`, `from=`.
pub open spec fn status_filters(h: HookDef) -> Seq<Seq<char>> {
    let a = match h.artifact_type {
        Some(t) => seq!["type="@ + t@],
        None => Seq::empty(),
    };
    let b = match h.to_status {
        Some(t) => seq!["to="@ + t@],
        None => Seq::empty(),
    };
    let c = match h.from_status {
        Some(t) => seq!["from="@ + t@],
        None => Seq::empty(),
    };
    a + b + c
}

/// The listing line of a hook with the given filter text.
pub open spec fn hook_line(filters: Seq<char>, run: Seq<char>) -> Seq<char> {
    "  ["@ + filters + "] "@ + run
}

/// The listing line of a status-change hook.
pub open spec fn status_hook_line(h: HookDef) -> Seq<char> {
    let fs = status_filters(h);
    hook_line(if fs.len() == 0 { "(all)"@ } else { join_spec(fs, ", "@) }, h.run@)
}

/// The listing line of a creation or archive hook.
pub open spec fn typed_hook_line(h: HookDef) -> Seq<char> {
    hook_line(
        match h.artifact_type {
            Some(t) => "type="@ + t@,
            None => "(all)"@,
        },
        h.run@,
    )
}

/// The lines listing a section of hooks (nothing when it has none).
pub open spec fn section_lines(title: Seq<char>, lines: Seq<Seq<char>>) -> Seq<Seq<char>> {
    if lines.len() == 0 { Seq::empty() } else { seq![title] + lines }
}

/// The lines that list a hooks configuration.
pub open spec fn hooks_listing_lines(c: HooksConfig) -> Seq<Seq<char>> {
    let total = c.on_status_change@.len() + c.on_create@.len() + c.on_archive@.len();
    section_lines("on_status_change:"@, Seq::new(c.on_status_change@.len(), |i: int| status_hook_line(c.on_status_change@[i])))
        + section_lines("on_create:"@, Seq::new(c.on_create@.len(), |i: int| typed_hook_line(c.on_create@[i])))
        + section_lines("on_archive:"@, Seq::new(c.on_archive@.len(), |i: int| typed_hook_line(c.on_archive@[i])))
        + if total == 0 {
        seq!["No hooks defined in .ark/hooks.yml."@]
    } else {
        seq![Seq::empty(), nat_text(total as nat) + " hook(s) configured."@]
    }
}

/// `a` followed by `b`.
fn concat(a: &str, b: &str) -> (r: String)
    ensures
        r@ == a@ + b@,
{
    let mut r = crate::text::owned(a);
    r.append(b);
    r
}

/// The listing line of a status-change hook.
fn status_line(h: &HookDef) -> (r: String)
    ensures
        r@ == status_hook_line(*h),
{
    let mut fs: Vec<String> = Vec::new();
    let ghost mut want: Seq<Seq<char>> = Seq::empty();
    match &h.artifact_type {
        Some(t) => {
            fs.push(concat("type=", t.as_str()));
        },
        None => {},
    }
    match &h.to_status {
        Some(t) => {
            fs.push(concat("to=", t.as_str()));
        },
        None => {},
    }
    match &h.from_status {
        Some(t) => {
            fs.push(concat("from=", t.as_str()));
        },
        None => {},
    }
    assert(views(fs@) =~= status_filters(*h));
    let filters = if fs.len() == 0 { crate::text::owned("(all)") } else { crate::text::join(&fs, ", ") };
    let mut r = crate::text::owned("  [");
    r.append(filters.as_str());
    r.append("] ");
    r.append(h.run.as_str());
    r
}

/// The listing line of a creation or archive hook.
fn typed_line(h: &HookDef) -> (r: String)
    ensures
        r@ == typed_hook_line(*h),
{
    let filter = match &h.artifact_type {
        Some(t) => concat("type=", t.as_str()),
        None => crate::text::owned("(all)"),
    };
    let mut r = crate::text::owned("  [");
    r.append(filter.as_str());
    r.append("] ");
    r.append(h.run.as_str());
    r
}

/// Appends a section of hook lines to `out`.
fn push_section(out: &mut Vec<String>, title: &str, hooks: &Vec<HookDef>, status: bool)
    ensures
        status ==> views(final(out)@) == views(old(out)@) + section_lines(
            title@,
            Seq::new(hooks@.len(), |i: int| status_hook_line(hooks@[i])),
        ),
        !status ==> views(final(out)@) == views(old(out)@) + section_lines(
            title@,
            Seq::new(hooks@.len(), |i: int| typed_hook_line(hooks@[i])),
        ),
{
    let ghost start = views(out@);
    let ghost lines = Seq::new(
        hooks@.len(),
        |i: int| if status { status_hook_line(hooks@[i]) } else { typed_hook_line(hooks@[i]) },
    );
    if status {
        assert(lines =~= Seq::new(hooks@.len(), |i: int| status_hook_line(hooks@[i])));
    } else {
        assert(lines =~= Seq::new(hooks@.len(), |i: int| typed_hook_line(hooks@[i])));
    }
    if hooks.len() == 0 {
        assert(views(out@) =~= start + section_lines(title@, lines));
        return;
    }
    out.push(crate::text::owned(title));
    let mut i: usize = 0;
    while i < hooks.len()
        invariant
            i <= hooks@.len(),
            hooks@.len() > 0,
            lines == Seq::new(
                hooks@.len(),
                |i: int| if status { status_hook_line(hooks@[i]) } else { typed_hook_line(hooks@[i]) },
            ),
            views(out@) == start + seq![title@] + lines.take(i as int),
        decreases hooks@.len() - i,
    {
        let line = if status { status_line(&hooks[i]) } else { typed_line(&hooks[i]) };
        assert(line@ == lines[i as int]);
        let ghost before = out@;
        out.push(line);
        assert(views(out@) =~= views(before).push(lines[i as int]));
        assert(lines.take(i + 1) =~= lines.take(i as int).push(lines[i as int]));
        assert(views(out@) =~= start + seq![title@] + lines.take(i + 1));
        i += 1;
    }
    assert(lines.take(hooks@.len() as int) =~= lines);
    assert(start + seq![title@] + lines =~= start + section_lines(title@, lines));
}

/// The lines that list a hooks configuration: each non-empty event with its
/// hooks and their filters, then the number of hooks (or that there is none).
pub fn hooks_listing(config: &HooksConfig) -> (r: Vec<String>)
    requires
        config.on_status_change@.len() + config.on_create@.len() + config.on_archive@.len() <= usize::MAX,
    ensures
        views(r@) == hooks_listing_lines(*config),
{
    let mut out: Vec<String> = Vec::new();
    assert(views(out@) =~= Seq::<Seq<char>>::empty());
    push_section(&mut out, "on_status_change:", &config.on_status_change, true);
    push_section(&mut out, "on_create:", &config.on_create, false);
    push_section(&mut out, "on_archive:", &config.on_archive, false);
    let a = config.on_status_change.len();
    let b = config.on_create.len();
    let c = config.on_archive.len();
    let ghost before = views(out@);
    if a == 0 && b == 0 && c == 0 {
        out.push(crate::text::owned("No hooks defined in .ark/hooks.yml."));
    } else {
        out.push(String::new());
        let t = crate::text::usize_text((a + b) + c);
        let mut line = t;
        line.append(" hook(s) configured.");
        out.push(line);
    }
    assert(views(out@) =~= hooks_listing_lines(*config));
    out
}

} // verus!
