//! Projects found below a directory: which directories to visit, how a
//! project is named, which of its schemas match, and the types they define.
use vstd::prelude::*;

use crate::artifact::{is_archived, Artifact};
use crate::schema::{distinct_names, has_schema, schema_pos, schemas_view, Schema, SchemaModel};
use crate::sort::{key_model, lemma_positions, lemma_sorted_members, order_by, sorted_by_keys, SortKey};
use crate::text::{has_prefix, split_char, split_spec, str_eq, trim, trim_spec};

verus! {

/// A project: its name (its path relative to where the scan started, `.`
/// for that directory), its root, and its schemas (no name twice).
pub struct ProjectInfo {
    pub name: String,
    pub root: String,
    pub schemas: Vec<Schema>,
}

/// An artifact with the name of its project.
pub struct ProjectArtifact {
    pub project: String,
    pub artifact: Artifact,
}

/// One type of one project, as `scan types` lists it.
pub struct TypeEntry {
    pub project: String,
    pub name: String,
    pub prefix: String,
    pub directory: String,
    pub field_count: usize,
}

/// The directories never searched for projects, besides hidden ones.
pub open spec fn skip_names() -> Seq<Seq<char>> {
    seq![
        ".git"@,
        "target"@,
        "node_modules"@,
        ".next"@,
        "dist"@,
        "build"@,
        "__pycache__"@,
        ".venv"@,
        "venv"@,
    ]
}

/// A subdirectory named `name` is not searched: it is hidden (its name
/// starts with `.`) or one of [`skip_names`].
pub open spec fn skipped(name: Seq<char>) -> bool {
    (name.len() > 0 && name[0] == '.') || skip_names().contains(name)
}

/// Whether the search for projects passes over the subdirectory `name`.
pub fn skip_dir(name: &str) -> (r: bool)
    ensures
        r == skipped(name@),
{
    let x = crate::text::chars_of(name);
    if x.len() > 0 && x[0] == '.' {
        return true;
    }
    let hit = str_eq(name, ".git") || str_eq(name, "target") || str_eq(name, "node_modules") || str_eq(name, ".next")
        || str_eq(name, "dist") || str_eq(name, "build") || str_eq(name, "__pycache__") || str_eq(name, ".venv")
        || str_eq(name, "venv");
    proof {
        if skip_names().contains(name@) {
            let w = choose|w: int| 0 <= w < skip_names().len() && skip_names()[w] == name@;
            assert(0 <= w < 9);
        }
        if hit {
            if name@ == ".git"@ { assert(skip_names()[0] == name@); }
            if name@ == "target"@ { assert(skip_names()[1] == name@); }
            if name@ == "node_modules"@ { assert(skip_names()[2] == name@); }
            if name@ == ".next"@ { assert(skip_names()[3] == name@); }
            if name@ == "dist"@ { assert(skip_names()[4] == name@); }
            if name@ == "build"@ { assert(skip_names()[5] == name@); }
            if name@ == "__pycache__"@ { assert(skip_names()[6] == name@); }
            if name@ == ".venv"@ { assert(skip_names()[7] == name@); }
            if name@ == "venv"@ { assert(skip_names()[8] == name@); }
        }
    }
    hit
}

/// The name of the project at `dir` found by a scan from `root`: `.` for
/// the root itself, else `dir` relative to `root` (`dir` unchanged when it
/// is not below `root`). Paths are separated by `/`.
pub open spec fn project_name_text(dir: Seq<char>, root: Seq<char>) -> Seq<char> {
    let base = if root.len() > 0 && root.last() == '/' { root } else { root + seq!['/'] };
    if dir == root {
        "."@
    } else if has_prefix(dir, base) {
        dir.skip(base.len() as int)
    } else {
        dir
    }
}

/// The name of the project at `dir` found by a scan from `root`.
pub fn project_name(dir: &str, root: &str) -> (r: String)
    ensures
        r@ == project_name_text(dir@, root@),
{
    if str_eq(dir, root) {
        return crate::text::owned(".");
    }
    let mut base = crate::text::owned(root);
    let rc = crate::text::chars_of(root);
    if !(rc.len() > 0 && rc[rc.len() - 1] == '/') {
        base.append("/");
        proof {
            reveal_strlit("/");
        }
        assert(base@ =~= root@ + seq!['/']);
    }
    if crate::text::starts_with(dir, base.as_str()) {
        let d = crate::text::chars_of(dir);
        let mut out: Vec<char> = Vec::new();
        let mut i: usize = crate::text::chars_of(base.as_str()).len();
        let start = i;
        while i < d.len()
            invariant
                start <= i <= d@.len(),
                out@ == d@.subrange(start as int, i as int),
            decreases d@.len() - i,
        {
            out.push(d[i]);
            assert(out@ =~= d@.subrange(start as int, i + 1));
            i += 1;
        }
        assert(d@.subrange(start as int, d@.len() as int) =~= dir@.skip(base@.len() as int));
        crate::text::string_of(&out)
    } else {
        crate::text::owned(dir)
    }
}

/// The model of a project.
pub open spec fn project_view(p: ProjectInfo) -> (Seq<char>, Seq<char>, Seq<SchemaModel>) {
    (p.name@, p.root@, schemas_view(p.schemas@))
}

/// The models of projects.
pub open spec fn projects_view(v: Seq<ProjectInfo>) -> Seq<(Seq<char>, Seq<char>, Seq<SchemaModel>)> {
    Seq::new(v.len(), |i: int| project_view(v[i]))
}

/// The sort keys of projects: their names.
pub open spec fn name_keys(v: Seq<ProjectInfo>) -> Seq<(int, Seq<Seq<char>>)> {
    Seq::new(v.len(), |i: int| (0int, seq![v[i].name@]))
}

/// `0..n`.
pub open spec fn all_positions(n: int) -> Seq<usize> {
    Seq::new(n as nat, |i: int| i as usize)
}

impl ProjectInfo {
    /// A copy of this project.
    pub fn copy(&self) -> (r: ProjectInfo)
        ensures
            project_view(r) == project_view(*self),
    {
        let mut schemas: Vec<Schema> = Vec::new();
        let mut i: usize = 0;
        while i < self.schemas.len()
            invariant
                i <= self.schemas@.len(),
                schemas@.len() == i,
                forall|j: int| 0 <= j < i ==> (#[trigger] schemas@[j])@ == self.schemas@[j]@,
            decreases self.schemas@.len() - i,
        {
            schemas.push(self.schemas[i].copy());
            i += 1;
        }
        let r = ProjectInfo { name: self.name.clone(), root: self.root.clone(), schemas };
        assert(schemas_view(r.schemas@) =~= schemas_view(self.schemas@));
        r
    }
}

/// The key that orders by `text` alone.
fn text_key(text: &String) -> (r: SortKey)
    ensures
        key_model(r) == (0int, seq![text@]),
{
    let mut t: Vec<String> = Vec::new();
    t.push(text.clone());
    let r = SortKey { num: 0, text: t };
    assert(key_model(r).1 =~= seq![text@]);
    r
}

/// The positions `0..n`.
fn count_up(n: usize) -> (r: Vec<usize>)
    ensures
        r@ == all_positions(n as int),
{
    let mut r: Vec<usize> = Vec::new();
    let mut i: usize = 0;
    while i < n
        invariant
            i <= n,
            r@ == all_positions(i as int),
        decreases n - i,
    {
        r.push(i);
        assert(r@ =~= all_positions(i + 1));
        i += 1;
    }
    r
}

/// The projects found, ordered by name (stable), as `discover_projects`
/// returns them.
pub fn sort_projects(projects: &Vec<ProjectInfo>) -> (r: Vec<ProjectInfo>)
    ensures
        exists|order: Seq<usize>|
            sorted_by_keys(name_keys(projects@), all_positions(projects@.len() as int), order)
                && projects_view(r@) == Seq::new(order.len(), |q: int| project_view(projects@[order[q] as int])),
{
    let mut keys: Vec<SortKey> = Vec::new();
    let mut i: usize = 0;
    while i < projects.len()
        invariant
            i <= projects@.len(),
            keys@.len() == i,
            forall|j: int| 0 <= j < i ==> key_model(#[trigger] keys@[j]) == (0int, seq![projects@[j].name@]),
        decreases projects@.len() - i,
    {
        keys.push(text_key(&projects[i].name));
        i += 1;
    }
    assert(Seq::new(keys@.len(), |j: int| key_model(keys@[j])) =~= name_keys(projects@));
    let cand = count_up(projects.len());
    let order = order_by(&cand, &keys);
    proof {
        assert forall|a: int, b: int| 0 <= a < b < cand@.len() implies cand@[a] != cand@[b] by {}
        lemma_sorted_members(Seq::new(keys@.len(), |j: int| key_model(keys@[j])), cand@, order@);
    }
    let mut out: Vec<ProjectInfo> = Vec::new();
    let mut q: usize = 0;
    while q < order.len()
        invariant
            cand@ == all_positions(projects@.len() as int),
            forall|q: int| 0 <= q < order@.len() ==> #[trigger] cand@.contains(order@[q]),
            q <= order@.len(),
            out@.len() == q,
            forall|p: int| 0 <= p < q ==> project_view(#[trigger] out@[p]) == project_view(projects@[order@[p] as int]),
        decreases order@.len() - q,
    {
        assert(cand@.contains(order@[q as int]));
        out.push(projects[order[q]].copy());
        q += 1;
    }
    assert(projects_view(out@) =~= Seq::new(order@.len(), |q: int| project_view(projects@[order@[q] as int])));
    out
}

/// The type names of a comma-separated list, each trimmed.
pub open spec fn type_names(list: Seq<char>) -> Seq<Seq<char>> {
    split_spec(list, ',').map_values(|t: Seq<char>| trim_spec(t))
}

/// The type names of the comma-separated `list`, each trimmed.
pub fn split_type_names(list: &str) -> (r: Vec<String>)
    ensures
        crate::sort::str_views(r@) == type_names(list@),
{
    let parts = split_char(list, ',');
    let mut out: Vec<String> = Vec::new();
    let mut i: usize = 0;
    while i < parts.len()
        invariant
            parts@.len() == split_spec(list@, ',').len(),
            forall|i: int| 0 <= i < parts@.len() ==> #[trigger] parts@[i]@ == split_spec(list@, ',')[i],
            i <= parts@.len(),
            out@.len() == i,
            forall|j: int| 0 <= j < i ==> (#[trigger] out@[j])@ == trim_spec(parts@[j]@),
        decreases parts@.len() - i,
    {
        out.push(trim(parts[i].as_str()));
        i += 1;
    }
    assert(crate::sort::str_views(out@) =~= type_names(list@));
    out
}

/// The (project, schema) pairs that a scan for `names` loads, in order: for
/// each project, for each name in turn, the project's schema of that name.
pub open spec fn matching_pairs(projects: Seq<ProjectInfo>, names: Seq<Seq<char>>, k: int) -> Seq<(usize, usize)>
    decreases k,
{
    if k <= 0 {
        Seq::empty()
    } else {
        matching_pairs(projects, names, k - 1) + matches_in(projects, names, k - 1, names.len() as int)
    }
}

/// The schemas of project `p` named by `names[0..n]`, in that order.
pub open spec fn matches_in(projects: Seq<ProjectInfo>, names: Seq<Seq<char>>, p: int, n: int) -> Seq<(usize, usize)>
    decreases n,
{
    if n <= 0 {
        Seq::empty()
    } else {
        let ss = schemas_view(projects[p].schemas@);
        let before = matches_in(projects, names, p, n - 1);
        if has_schema(ss, names[n - 1]) {
            before.push((p as usize, schema_pos(ss, names[n - 1]) as usize))
        } else {
            before
        }
    }
}

/// The (project, schema) pairs whose artifacts `scan` loads for the
/// comma-separated `type_names`.
pub fn matching_schemas(projects: &Vec<ProjectInfo>, type_names: &str) -> (r: Vec<(usize, usize)>)
    requires
        forall|i: int| 0 <= i < projects@.len() ==> distinct_names(schemas_view((#[trigger] projects@[i]).schemas@)),
    ensures
        r@ == matching_pairs(projects@, self::type_names(type_names@), projects@.len() as int),
        forall|k: int| 0 <= k < r@.len() ==> (#[trigger] r@[k]).0 < projects@.len() && r@[k].1 < projects@[r@[k].0 as int].schemas@.len(),
{
    let names = split_type_names(type_names);
    let ghost nv = crate::sort::str_views(names@);
    let mut out: Vec<(usize, usize)> = Vec::new();
    let mut p: usize = 0;
    while p < projects.len()
        invariant
            forall|i: int| 0 <= i < projects@.len() ==> distinct_names(schemas_view((#[trigger] projects@[i]).schemas@)),
            nv == crate::sort::str_views(names@),
            nv == self::type_names(type_names@),
            p <= projects@.len(),
            out@ == matching_pairs(projects@, nv, p as int),
            forall|k: int| 0 <= k < out@.len() ==> (#[trigger] out@[k]).0 < projects@.len() && out@[k].1 < projects@[out@[k].0 as int].schemas@.len(),
        decreases projects@.len() - p,
    {
        let ghost base = out@;
        let mut n: usize = 0;
        while n < names.len()
            invariant
                forall|i: int| 0 <= i < projects@.len() ==> distinct_names(schemas_view((#[trigger] projects@[i]).schemas@)),
                nv == crate::sort::str_views(names@),
                p < projects@.len(),
                n <= names@.len(),
                out@ == base + matches_in(projects@, nv, p as int, n as int),
                forall|k: int| 0 <= k < out@.len() ==> (#[trigger] out@[k]).0 < projects@.len() && out@[k].1 < projects@[out@[k].0 as int].schemas@.len(),
            decreases names@.len() - n,
        {
            assert(projects@[p as int].schemas@ == projects[p as int].schemas@);
            match crate::schema::find_schema(&projects[p].schemas, names[n].as_str()) {
                Some(s) => {
                    out.push((p, s));
                    assert(out@ =~= base + matches_in(projects@, nv, p as int, n + 1));
                },
                None => {
                    assert(out@ =~= base + matches_in(projects@, nv, p as int, n + 1));
                },
            }
            n += 1;
        }
        p += 1;
    }
    out
}

/// The artifacts of a project's schema that a scan keeps (those not
/// archived), each with the project's name.
pub fn tag_artifacts(project: &str, schema: &Schema, artifacts: Vec<Artifact>) -> (r: Vec<ProjectArtifact>)
    requires
        forall|i: int| 0 <= i < artifacts@.len() ==> (#[trigger] artifacts@[i]).wf(),
    ensures
        r@.len() == crate::sort::positions(artifacts@.len() as int, |i: int| !is_archived(schema@.archive, artifacts@[i])).len(),
        forall|k: int| 0 <= k < r@.len() ==> {
            let i = crate::sort::positions(artifacts@.len() as int, |i: int| !is_archived(schema@.archive, artifacts@[i]))[k];
            &&& (#[trigger] r@[k]).project@ == project@
            &&& r@[k].artifact == artifacts@[i as int]
        },
{
    let ghost keep = |i: int| !is_archived(schema@.archive, artifacts@[i]);
    let ghost orig = artifacts@;
    let archive_value = schema.archive_value();
    let mut rest = artifacts;
    let mut out: Vec<ProjectArtifact> = Vec::new();
    assert(rest@ =~= orig.skip(0));
    let mut i: usize = 0;
    let n = rest.len();
    while rest.len() > 0
        invariant
            keep == (|i: int| !is_archived(schema@.archive, orig[i])),
            forall|i: int| 0 <= i < orig.len() ==> (#[trigger] orig[i]).wf(),
            crate::artifact::opt_str(archive_value) == match schema@.archive {
                Some(a) => Some(a.value),
                None => None,
            },
            n == orig.len(),
            i + rest@.len() == n,
            rest@ == orig.skip(i as int),
            out@.len() == crate::sort::positions(i as int, keep).len(),
            forall|k: int| 0 <= k < out@.len() ==> {
                let j = crate::sort::positions(i as int, keep)[k];
                &&& (#[trigger] out@[k]).project@ == project@
                &&& out@[k].artifact == orig[j as int]
            },
        decreases rest@.len(),
    {
        let a = rest.remove(0);
        assert(a == orig[i as int]);
        assert(rest@ =~= orig.skip(i + 1));
        if !a.archived(archive_value) {
            out.push(ProjectArtifact { project: crate::text::owned(project), artifact: a });
        }
        i += 1;
    }
    out
}

/// The model of a type entry.
pub open spec fn type_entry_view(e: TypeEntry) -> (Seq<char>, Seq<char>, Seq<char>, Seq<char>, nat) {
    (e.project@, e.name@, e.prefix@, e.directory@, e.field_count as nat)
}

/// The entry of schema `s` of project `p`.
pub open spec fn entry_of(p: ProjectInfo, s: Schema) -> (Seq<char>, Seq<char>, Seq<char>, Seq<char>, nat) {
    (p.name@, s.name@, s.prefix@, s.directory@, s.fields@.len())
}

/// The entries of the schemas of `projects[0..k]`, project by project.
pub open spec fn all_entries(projects: Seq<ProjectInfo>, k: int) -> Seq<(Seq<char>, Seq<char>, Seq<char>, Seq<char>, nat)>
    decreases k,
{
    if k <= 0 {
        Seq::empty()
    } else {
        all_entries(projects, k - 1) + Seq::new(
            projects[k - 1].schemas@.len(),
            |j: int| entry_of(projects[k - 1], projects[k - 1].schemas@[j]),
        )
    }
}

/// The sort keys of entries: project, then type name.
pub open spec fn entry_keys(es: Seq<(Seq<char>, Seq<char>, Seq<char>, Seq<char>, nat)>) -> Seq<(int, Seq<Seq<char>>)> {
    Seq::new(es.len(), |i: int| (0int, seq![es[i].0, es[i].1]))
}

/// The types of all projects: one entry per schema, ordered by project, then
/// by type name (stable).
pub fn collect_type_info(projects: &Vec<ProjectInfo>) -> (r: Vec<TypeEntry>)
    ensures
        exists|order: Seq<usize>|
            sorted_by_keys(
                entry_keys(all_entries(projects@, projects@.len() as int)),
                all_positions(all_entries(projects@, projects@.len() as int).len() as int),
                order,
            ) && Seq::new(r@.len(), |q: int| type_entry_view(r@[q])) == Seq::new(
                order.len(),
                |q: int| all_entries(projects@, projects@.len() as int)[order[q] as int],
            ),
{
    let mut flat: Vec<TypeEntry> = Vec::new();
    let mut keys: Vec<SortKey> = Vec::new();
    let mut p: usize = 0;
    while p < projects.len()
        invariant
            p <= projects@.len(),
            Seq::new(flat@.len(), |q: int| type_entry_view(flat@[q])) == all_entries(projects@, p as int),
            keys@.len() == flat@.len(),
            forall|q: int| 0 <= q < keys@.len() ==> key_model(#[trigger] keys@[q]) == (0int, seq![flat@[q].project@, flat@[q].name@]),
        decreases projects@.len() - p,
    {
        let pr = &projects[p];
        let ghost base = Seq::new(flat@.len(), |q: int| type_entry_view(flat@[q]));
        let mut j: usize = 0;
        while j < pr.schemas.len()
            invariant
                p < projects@.len(),
                pr == projects@[p as int],
                j <= pr.schemas@.len(),
                Seq::new(flat@.len(), |q: int| type_entry_view(flat@[q])) == base + Seq::new(
                    j as nat,
                    |i: int| entry_of(*pr, pr.schemas@[i]),
                ),
                keys@.len() == flat@.len(),
                forall|q: int| 0 <= q < keys@.len() ==> key_model(#[trigger] keys@[q]) == (0int, seq![flat@[q].project@, flat@[q].name@]),
            decreases pr.schemas@.len() - j,
        {
            let s = &pr.schemas[j];
            let e = TypeEntry {
                project: pr.name.clone(),
                name: s.name.clone(),
                prefix: s.prefix.clone(),
                directory: s.directory.clone(),
                field_count: s.fields.len(),
            };
            let mut t: Vec<String> = Vec::new();
            t.push(pr.name.clone());
            t.push(s.name.clone());
            let k = SortKey { num: 0, text: t };
            assert(key_model(k).1 =~= seq![pr.name@, s.name@]);
            let ghost fb = Seq::new(flat@.len(), |q: int| type_entry_view(flat@[q]));
            assert(type_entry_view(e) == entry_of(*pr, pr.schemas@[j as int]));
            flat.push(e);
            keys.push(k);
            assert(Seq::new(flat@.len(), |q: int| type_entry_view(flat@[q])) =~= fb.push(entry_of(*pr, pr.schemas@[j as int])));
            assert(Seq::new(flat@.len(), |q: int| type_entry_view(flat@[q])) =~= base + Seq::new(
                (j + 1) as nat,
                |i: int| entry_of(*pr, pr.schemas@[i]),
            ));
            j += 1;
        }
        assert(Seq::new(flat@.len(), |q: int| type_entry_view(flat@[q])) =~= all_entries(projects@, p + 1));
        p += 1;
    }
    let ghost fv = Seq::new(flat@.len(), |q: int| type_entry_view(flat@[q]));
    assert(Seq::new(keys@.len(), |q: int| key_model(keys@[q])) =~= entry_keys(fv));
    let cand = count_up(flat.len());
    let order = order_by(&cand, &keys);
    proof {
        lemma_sorted_members(Seq::new(keys@.len(), |j: int| key_model(keys@[j])), cand@, order@);
    }
    let mut out: Vec<TypeEntry> = Vec::new();
    let mut q: usize = 0;
    while q < order.len()
        invariant
            cand@ == all_positions(flat@.len() as int),
            fv == Seq::new(flat@.len(), |q: int| type_entry_view(flat@[q])),
            forall|q: int| 0 <= q < order@.len() ==> #[trigger] cand@.contains(order@[q]),
            q <= order@.len(),
            out@.len() == q,
            forall|p: int| 0 <= p < q ==> type_entry_view(#[trigger] out@[p]) == fv[order@[p] as int],
        decreases order@.len() - q,
    {
        assert(cand@.contains(order@[q as int]));
        let e = &flat[order[q]];
        out.push(TypeEntry {
            project: e.project.clone(),
            name: e.name.clone(),
            prefix: e.prefix.clone(),
            directory: e.directory.clone(),
            field_count: e.field_count,
        });
        q += 1;
    }
    assert(Seq::new(out@.len(), |q: int| type_entry_view(out@[q])) =~= Seq::new(
        order@.len(),
        |q: int| fv[order@[q] as int],
    ));
    out
}

/// The row of a type entry in `scan types`: project, type, prefix,
/// directory, number of fields.
pub fn type_entry_row(e: &TypeEntry) -> (r: Vec<String>)
    ensures
        crate::output::row_view(r) == seq![e.project@, e.name@, e.prefix@, e.directory@, crate::text::nat_text(e.field_count as nat)],
{
    let mut r: Vec<String> = Vec::new();
    r.push(e.project.clone());
    r.push(e.name.clone());
    r.push(e.prefix.clone());
    r.push(e.directory.clone());
    r.push(crate::text::usize_text(e.field_count));
    assert(crate::output::row_view(r) =~= seq![e.project@, e.name@, e.prefix@, e.directory@, crate::text::nat_text(e.field_count as nat)]);
    r
}

} // verus!
