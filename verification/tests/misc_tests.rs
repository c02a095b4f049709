use ark::artifact::Artifact;
use ark::commands::context::{add_related, check_other, find_by_id, frontmatter_summary, relate_message, schemas_for_id};
use ark::commands::diff::{diff_entry, diff_frontmatter, diff_rows, format_value, is_tracked_file, ChangeType};
use ark::commands::scan::{
    project_keys, scan_lint_summary, scan_list_selection, scan_list_table, scan_next_rows, scan_next_selection,
};
use ark::commands::search::{scan_search_rows, ScanGroup};
use ark::commands::stale::{is_commit_stale, is_stale_candidate, stale_row};
use ark::commands::update::{latest_tag, lines_of, release_target, version_of};
use ark::discover::{
    collect_type_info, matching_schemas, project_name, skip_dir, sort_projects, split_type_names, tag_artifacts,
    type_entry_row, ProjectArtifact, ProjectInfo,
};
use ark::hooks::{hooks_listing, run_archive_hooks, run_create_hooks, run_status_change_hooks, HookDef, HooksConfig};
use ark::lock::{lock_failure, lock_step, LockStep, LockTry};
use ark::schema::{ArchiveDef, Schema};
use ark::value::{Frontmatter, Value};

fn s(x: &str) -> Value {
    Value::Str(x.to_string())
}

fn artifact(path: &str, pairs: Vec<(&str, Value)>) -> Artifact {
    let mut fm = Frontmatter::new();
    for (k, v) in pairs {
        fm.insert(k.to_string(), v);
    }
    Artifact { path: path.to_string(), frontmatter: fm, body: String::new(), raw: String::new() }
}

fn schema(name: &str, prefix: &str, directory: &str) -> Schema {
    Schema {
        name: name.to_string(),
        directory: directory.to_string(),
        prefix: prefix.to_string(),
        fields: vec![],
        archive: None,
        template: None,
        extends: None,
        registry: None,
    }
}

fn strings(xs: &[&str]) -> Vec<String> {
    xs.iter().map(|x| x.to_string()).collect()
}

#[test]
fn json_text_is_compact_and_escaped() {
    let v = Value::Object(vec![
        ("a".to_string(), Value::List(vec![Value::Int(1), Value::Bool(true), Value::Null])),
        ("b".to_string(), s("x\"y\\z\n\u{1}")),
        ("c".to_string(), Value::Float("2.5".to_string())),
    ]);
    let t = format_value(&v);
    assert_eq!(t, "{\"a\":[1,true,null],\"b\":\"x\\\"y\\\\z\\n\\u0001\",\"c\":2.5}");
    let parsed: serde_json::Value = serde_json::from_str(&t).unwrap();
    assert_eq!(serde_json::to_string(&parsed).unwrap(), t);
}

#[test]
fn values_in_a_diff() {
    assert_eq!(format_value(&s("plain")), "plain");
    assert_eq!(format_value(&Value::List(vec![s("a"), Value::Int(3), s("b")])), "[a, b]");
    assert_eq!(format_value(&Value::Int(-7)), "-7");
    assert_eq!(format_value(&Value::Bool(false)), "false");
    assert_eq!(format_value(&Value::Null), "null");
    assert_eq!(format_value(&Value::Float("0.25".to_string())), "0.25");
    assert_eq!(format_value(&Value::Object(vec![("k".to_string(), s("v"))])), "{\"k\":\"v\"}");
}

#[test]
fn frontmatter_diff_lists_changed_fields_in_order() {
    let old = artifact("a.md", vec![("title", s("Old")), ("status", s("backlog")), ("updated", s("1")), ("gone", s("x"))]);
    let new = artifact("a.md", vec![("title", s("New")), ("status", s("backlog")), ("updated", s("2")), ("added", Value::Int(5))]);
    let changes = diff_frontmatter(&old.frontmatter, &new.frontmatter);
    let view: Vec<(String, String, String)> =
        changes.iter().map(|c| (c.field.clone(), c.old_value.clone(), c.new_value.clone())).collect();
    assert_eq!(
        view,
        vec![
            ("added".to_string(), "(none)".to_string(), "5".to_string()),
            ("gone".to_string(), "x".to_string(), "(removed)".to_string()),
            ("title".to_string(), "Old".to_string(), "New".to_string()),
        ]
    );
    assert!(diff_frontmatter(&old.frontmatter, &old.frontmatter).is_empty());
}

#[test]
fn diff_entries_and_rows() {
    let mut sc = schema("task", "BL", "backlog");
    sc.archive = Some(ArchiveDef { field: "status".to_string(), value: "done".to_string(), directory: "done".to_string() });
    assert!(is_tracked_file(&sc, "backlog/BL-001-x.md"));
    assert!(is_tracked_file(&sc, "done/BL-002-y.feature"));
    assert!(!is_tracked_file(&sc, "backlog/readme.txt"));
    assert!(!is_tracked_file(&sc, "other/BL-003.md"));
    let old = Some(artifact("x", vec![("id", s("BL-001")), ("title", s("T")), ("status", s("backlog"))]));
    let new = Some(artifact("x", vec![("id", s("BL-001")), ("title", s("T")), ("status", s("active"))]));
    let modified = diff_entry("task", "backlog/BL-001-x.md", true, true, &old, &new).unwrap();
    assert!(modified.change_type == ChangeType::Modified);
    let removed = diff_entry("task", "backlog/gone.md", true, false, &None, &None).unwrap();
    assert_eq!(removed.id, "backlog/gone.md");
    let added = diff_entry("task", "backlog/BL-009.md", false, true, &None, &new).unwrap();
    assert!(diff_entry("task", "f.md", false, false, &None, &None).is_none());
    let rows = diff_rows(&vec![removed, modified, added]);
    assert_eq!(rows[0], strings(&["+", "task", "BL-001", "", "T"]));
    assert_eq!(rows[1], strings(&["~", "task", "BL-001", "status: backlog -> active", "T"]));
    assert_eq!(rows[2], strings(&["-", "task", "backlog/gone.md", "", ""]));
}

#[test]
fn related_summary_and_relations() {
    let a = artifact(
        "a.md",
        vec![
            ("id", s("BL-001")),
            ("title", s("Thing")),
            ("priority", Value::Int(3)),
            ("tags", Value::List(vec![s("x"), s("y")])),
            ("empty", Value::List(vec![])),
            ("done", Value::Bool(true)),
        ],
    );
    assert_eq!(frontmatter_summary(&a), "id: BL-001\ntitle: Thing\npriority: 3\ntags: [x, y]\ndone: true");
    let once = add_related(a, &strings(&["BL-002", "BL-003", "BL-002"]), "2024-08-01").unwrap();
    assert_eq!(once.get_list("related"), strings(&["BL-002", "BL-003"]));
    assert_eq!(once.get_str("updated"), Some("2024-08-01"));
    assert!(add_related(once, &strings(&["BL-003"]), "2024-08-02").is_none());
    assert_eq!(relate_message("BL-001", &strings(&["BL-002"])), "Related BL-001 <-> BL-002");
    assert_eq!(relate_message("BL-001", &strings(&["BL-002", "BL-003"])), "Related BL-001 <-> [BL-002, BL-003]");
    assert_eq!(check_other("BL-001", "BL-001").err().unwrap(), "cannot relate an artifact to itself: BL-001");
    assert!(check_other("BL-001", "BL-002").is_ok());
}

#[test]
fn finding_by_id() {
    let schemas = vec![schema("task", "BL", "backlog"), schema("spec", "SPEC", "specs"), schema("b", "B", "b")];
    assert_eq!(schemas_for_id(&schemas, "BL-004"), vec![0, 2]);
    let arts = vec![artifact("1", vec![("id", s("BL-001"))]), artifact("2", vec![("id", s("BL-002"))])];
    assert_eq!(find_by_id(&arts, "BL-002"), Some(1));
    assert_eq!(find_by_id(&arts, "BL-009"), None);
}

#[test]
fn release_tag_from_the_api_answer() {
    let body = "{\r\n  \"url\": \"x\",\r\n  \"tag_name\": \"v0.3.1\",\r\n  \"name\": \"y\"\n}\n";
    assert_eq!(lines_of(body).len(), 5);
    assert_eq!(latest_tag(body), Some("v0.3.1".to_string()));
    assert_eq!(latest_tag("{}"), None);
    assert_eq!(version_of("v0.3.1"), "0.3.1");
    assert_eq!(release_target("macos", "aarch64"), Some("aarch64-apple-darwin".to_string()));
    assert_eq!(release_target("linux", "x86_64"), Some("x86_64-unknown-linux-gnu".to_string()));
    assert_eq!(release_target("windows", "x86_64"), None);
}

#[test]
fn stale_decisions() {
    let fresh = artifact("a", vec![("id", s("BL-1")), ("updated", s("2024-05-10"))]);
    let old = artifact("b", vec![("id", s("BL-2")), ("status", s("active")), ("updated", s("2024-01-01")), ("title", s("T"))]);
    let never = artifact("c", vec![("id", s("BL-3"))]);
    assert!(!is_stale_candidate(&fresh, "2024-05-01"));
    assert!(is_stale_candidate(&old, "2024-05-01"));
    assert!(is_stale_candidate(&never, "2024-05-01"));
    assert!(is_commit_stale(&None, "2024-05-01"));
    assert!(is_commit_stale(&Some("2024-05-01".to_string()), "2024-05-01"));
    assert!(!is_commit_stale(&Some("2024-05-02".to_string()), "2024-05-01"));
    assert_eq!(stale_row(&old, &None), strings(&["BL-2", "active", "2024-01-01", "untracked", "T"]));
}

#[test]
fn lock_steps() {
    assert!(lock_step(0, LockTry::Created) == LockStep::Acquired);
    assert!(lock_step(3, LockTry::HeldStale) == LockStep::RemoveStale);
    assert!(lock_step(3, LockTry::Held) == LockStep::Wait);
    assert!(lock_step(49, LockTry::Held) == LockStep::Busy);
    assert!(lock_step(0, LockTry::Failed) == LockStep::Error);
    assert_eq!(
        lock_failure(".ark/.lock", true),
        "could not acquire lock at .ark/.lock. Another ark process may be running."
    );
}

fn project(name: &str, schemas: Vec<Schema>) -> ProjectInfo {
    ProjectInfo { name: name.to_string(), root: format!("/w/{}", name), schemas }
}

#[test]
fn discovering_projects() {
    assert!(skip_dir(".git"));
    assert!(skip_dir(".hidden"));
    assert!(skip_dir("node_modules"));
    assert!(!skip_dir("src"));
    assert_eq!(project_name("/w", "/w"), ".");
    assert_eq!(project_name("/w/a/b", "/w"), "a/b");
    assert_eq!(project_name("/x/y", "/w"), "/x/y");
    let sorted = sort_projects(&vec![project("b", vec![]), project("a", vec![])]);
    assert_eq!(sorted[0].name, "a");
    assert_eq!(split_type_names(" task , story"), strings(&["task", "story"]));
    let ps = vec![
        project("a", vec![schema("story", "ST", "stories"), schema("task", "BL", "backlog")]),
        project("b", vec![schema("task", "TK", "tasks")]),
    ];
    assert_eq!(matching_schemas(&ps, "task,story"), vec![(0, 1), (0, 0), (1, 0)]);
    let entries = collect_type_info(&ps);
    assert_eq!(entries.len(), 3);
    assert_eq!(type_entry_row(&entries[0]), strings(&["a", "story", "ST", "stories", "0"]));
    assert_eq!(entries[2].project, "b");
}

fn tagged(project: &str, pairs: Vec<(&str, Value)>) -> ProjectArtifact {
    ProjectArtifact { project: project.to_string(), artifact: artifact("x.md", pairs) }
}

#[test]
fn scanning_across_projects() {
    let mut sc = schema("task", "BL", "backlog");
    sc.archive = Some(ArchiveDef { field: "status".to_string(), value: "done".to_string(), directory: "done".to_string() });
    let kept = tag_artifacts(
        "p",
        &sc,
        vec![artifact("1", vec![("status", s("done"))]), artifact("2", vec![("status", s("active"))])],
    );
    assert_eq!(kept.len(), 1);
    assert_eq!(kept[0].project, "p");
    let pas = vec![
        tagged("b", vec![("id", s("B-2")), ("title", s("two")), ("status", s("active"))]),
        tagged("a", vec![("id", s("A-1")), ("title", s("one")), ("priority", Value::Int(5))]),
        tagged("a", vec![("id", s("A-0")), ("title", s("zero")), ("status", s("done"))]),
    ];
    let sel = scan_list_selection(&pas, None, None, None);
    assert_eq!(sel, vec![1, 2, 0]);
    let (headers, rows) = scan_list_table(&pas, &sel);
    assert_eq!(headers, strings(&["project", "id", "pri", "status", "title"]));
    assert_eq!(rows[0], strings(&["a", "A-1", "5", "-", "one"]));
    assert_eq!(scan_list_selection(&pas, Some("active"), None, None), vec![0]);
    assert_eq!(scan_list_selection(&pas, None, Some("a"), Some(1)), vec![1]);
    let (active, queued) = scan_next_selection(&pas, 10);
    assert_eq!(active, vec![0]);
    assert_eq!(queued, vec![1]);
    assert_eq!(scan_next_rows(&pas, &queued, true)[0], strings(&["a", "A-1", "5", "-", "one"]));
    assert_eq!(project_keys(&pas), strings(&["b", "a", "a"]));
    assert_eq!(scan_lint_summary(3, 2, 0), "Scan lint passed. 3 files across 2 projects, no issues found.");
    assert_eq!(scan_lint_summary(3, 2, 4), "Scan lint complete. 3 files across 2 projects: 4 errors.");
    let groups = vec![ScanGroup {
        project: "a".to_string(),
        type_label: "task".to_string(),
        artifacts: vec![artifact("1", vec![("id", s("A-1")), ("title", s("find me"))])],
    }];
    assert_eq!(scan_search_rows("find", &groups).ok().unwrap()[0], strings(&["a", "task", "A-1", "find me", "title"]));
    assert!(scan_search_rows("[", &groups).is_err());
}

fn hook(t: Option<&str>, to: Option<&str>, from: Option<&str>, run: &str) -> HookDef {
    HookDef {
        artifact_type: t.map(|x| x.to_string()),
        to_status: to.map(|x| x.to_string()),
        from_status: from.map(|x| x.to_string()),
        run: run.to_string(),
    }
}

#[test]
fn hooks_that_run() {
    let config = HooksConfig {
        on_status_change: vec![hook(Some("task"), Some("done"), None, "notify"), hook(None, None, Some("active"), "log")],
        on_create: vec![hook(Some("spec"), None, None, "index")],
        on_archive: vec![hook(None, None, None, "backup")],
    };
    let runs = run_status_change_hooks(&config, "task", "BL-1", "active", "done");
    assert_eq!(runs.len(), 2);
    assert_eq!(runs[0].command, "notify");
    assert_eq!(runs[1].to_status, "done");
    assert_eq!(run_status_change_hooks(&config, "task", "BL-1", "backlog", "active").len(), 0);
    assert_eq!(run_create_hooks(&config, "task", "BL-1").len(), 0);
    assert_eq!(run_create_hooks(&config, "spec", "SP-1")[0].command, "index");
    assert_eq!(run_archive_hooks(&config, "task", "BL-1")[0].artifact_id, "BL-1");
    let listing = hooks_listing(&config);
    assert_eq!(listing[0], "on_status_change:");
    assert_eq!(listing[1], "  [type=task, to=done] notify");
    assert_eq!(listing[2], "  [from=active] log");
}

#[test]
fn scan_next_keeps_count_queued_items_per_project() {
    let pas = vec![
        tagged("a", vec![("id", s("A-1")), ("title", s("a one")), ("priority", Value::Int(1))]),
        tagged("a", vec![("id", s("A-2")), ("title", s("a two")), ("priority", Value::Int(2))]),
        tagged("b", vec![("id", s("B-1")), ("title", s("b one")), ("priority", Value::Int(3))]),
        tagged("b", vec![("id", s("B-2")), ("title", s("b two")), ("priority", Value::Int(0))]),
    ];
    let (active, queued) = scan_next_selection(&pas, 1);
    assert!(active.is_empty());
    assert_eq!(queued, vec![3, 0]);
    let (_, queued) = scan_next_selection(&pas, 2);
    assert_eq!(queued, vec![3, 0, 1, 2]);
}

#[test]
fn decimal_text_of_integers() {
    assert_eq!(ark::text::i64_text(0), "0");
    assert_eq!(ark::text::i64_text(-120), "-120");
    assert_eq!(ark::text::i64_text(i64::MIN), i64::MIN.to_string());
    assert_eq!(ark::text::i64_text(i64::MAX), i64::MAX.to_string());
    assert_eq!(ark::text::usize_text(9070), "9070");
}

#[test]
fn whitespace_agrees_with_std() {
    for u in 0u32..=0x10FFFF {
        if let Some(c) = char::from_u32(u) {
            assert_eq!(ark::text::is_whitespace(c), c.is_whitespace(), "U+{:04X}", u);
        }
    }
}
