use ark::artifact::{is_artifact_file, is_schema_file, Artifact};
use ark::cli::{parse_key_value, EditArgs, ListArgs, NewArgs};
use ark::commands::archive::archive_selection;
use ark::commands::edit::{apply_edit, EditOutcome};
use ark::commands::lint::{
    apply_supersession, check_id, duplicate_issues, lint_artifact, lint_outcome, lint_summary, lint_type_report, pluralize,
    scan_lint_report, schema_errors, supersession_fixes, ScanLintGroup,
};
use ark::commands::list::{list_selection, list_table};
use ark::commands::new::{check_title, file_name, new_artifact, NewError};
use ark::commands::next::{next_selection, next_tables};
use ark::commands::rebalance::{apply_rebalance, rebalance_plan};
use ark::commands::search::search_rows;
use ark::commands::stats::{count_groups, count_rows, group_keys};
use ark::commands::types::{field_rows, field_values, sort_rows, type_rows, FieldValues};
use ark::error::ArkError;
use ark::commands::diff::format_value;
use ark::output::{render_table, render_tsv, OutputFormat};
use ark::schema::find_ark_root;
use ark::schema::{ArchiveDef, FieldDef, FieldType, Schema};
use ark::validate::validate_field_value;
use ark::value::{Frontmatter, Value};

fn field(name: &str, t: FieldType) -> FieldDef {
    FieldDef {
        name: name.to_string(),
        field_type: t,
        required: false,
        unique: false,
        derived: false,
        default: None,
        values: None,
        pattern: None,
    }
}

fn strings(xs: &[&str]) -> Vec<String> {
    xs.iter().map(|x| x.to_string()).collect()
}

/// The task schema that the command-line tests set up.
fn project_schema() -> Schema {
    let mut id = field("id", FieldType::String);
    id.required = true;
    id.derived = true;
    let mut title = field("title", FieldType::String);
    title.required = true;
    let mut status = field("status", FieldType::Enum);
    status.required = true;
    status.values = Some(strings(&["backlog", "active", "blocked", "done"]));
    status.default = Some(Value::Str("backlog".to_string()));
    let mut priority = field("priority", FieldType::Integer);
    priority.required = true;
    priority.unique = true;
    let mut project = field("project", FieldType::Enum);
    project.required = true;
    project.values = Some(strings(&["alpha", "beta"]));
    let tags = field("tags", FieldType::List);
    let mut created = field("created", FieldType::Date);
    created.derived = true;
    let mut updated = field("updated", FieldType::Date);
    updated.derived = true;
    Schema {
        name: "task".to_string(),
        directory: "backlog".to_string(),
        prefix: "BL".to_string(),
        fields: vec![id, title, status, priority, project, tags, created, updated],
        archive: Some(ArchiveDef {
            field: "status".to_string(),
            value: "done".to_string(),
            directory: "backlog/done".to_string(),
        }),
        template: Some("## Context\n\n## Acceptance criteria\n\n- [ ]\n".to_string()),
        extends: None,
        registry: None,
    }
}

fn new_args(title: &str, project: Option<&str>, priority: Option<i64>) -> NewArgs {
    NewArgs {
        artifact_type: "task".to_string(),
        title: title.to_string(),
        status: None,
        priority,
        project: project.map(|p| p.to_string()),
        kind: None,
        tags: None,
        extra_fields: None,
    }
}

fn edit_args(id: &str) -> EditArgs {
    EditArgs { id: id.to_string(), fields: vec![], status: None, priority: None, title: None, project: None, kind: None }
}

fn list_args() -> ListArgs {
    ListArgs { artifact_type: "task".to_string(), status: None, project: None, kind: None, tag: None, limit: None }
}

fn create(schema: &Schema, existing: &mut Vec<Artifact>, args: NewArgs) -> Artifact {
    let a = match new_artifact(schema, &args, existing, "2024-05-01") {
        Ok(a) => a,
        Err(e) => panic!("{}", e.message()),
    };
    let copy = Artifact {
        path: format!("backlog/{}", file_name(id_of(&a), &args.title)),
        frontmatter: copy_fm(&a.frontmatter),
        body: a.body.clone(),
        raw: String::new(),
    };
    existing.push(copy);
    a
}

fn copy_fm(fm: &Frontmatter) -> Frontmatter {
    let mut out = Frontmatter::new();
    for (k, v) in &fm.entries {
        out.insert(k.clone(), v.copy());
    }
    out
}

fn id_of(a: &Artifact) -> &str {
    a.id().unwrap()
}

fn text(a: &Artifact, key: &str) -> String {
    a.get_str(key).unwrap_or("").to_string()
}

fn new_error(schema: &Schema, existing: &Vec<Artifact>, args: NewArgs) -> String {
    match new_artifact(schema, &args, existing, "2024-05-01") {
        Ok(_) => panic!("expected an error"),
        Err(e) => e.message(),
    }
}

#[test]
fn test_new_creates_artifact() {
    let schema = project_schema();
    let mut existing = vec![];
    let mut args = new_args("Test task", Some("alpha"), Some(10));
    args.kind = Some("chore".to_string());
    let a = create(&schema, &mut existing, args);
    assert_eq!(id_of(&a), "BL-001");
    assert_eq!(text(&a, "status"), "backlog");
    assert_eq!(text(&a, "type"), "chore");
    assert_eq!(a.priority(), Some(10));
    assert_eq!(text(&a, "created"), "2024-05-01");
    assert_eq!(text(&a, "updated"), "2024-05-01");
    assert_eq!(a.body, "\n## Context\n\n## Acceptance criteria\n\n- [ ]\n");
    assert_eq!(file_name("BL-001", "Test task"), "BL-001-test-task.md");
}

#[test]
fn new_ids_follow_the_largest() {
    let schema = project_schema();
    let mut existing = vec![];
    create(&schema, &mut existing, new_args("One", Some("alpha"), Some(1)));
    create(&schema, &mut existing, new_args("Two", Some("alpha"), Some(2)));
    let third = create(&schema, &mut existing, new_args("Three", Some("beta"), Some(3)));
    assert_eq!(id_of(&third), "BL-003");
}

#[test]
fn test_new_rejects_invalid_enum() {
    let schema = project_schema();
    let msg = new_error(&schema, &vec![], new_args("Bad task", Some("nonexistent"), Some(10)));
    assert!(msg.contains("invalid value"));
    assert_eq!(msg, "invalid value 'nonexistent' for field 'project'. Valid values: alpha, beta");
}

#[test]
fn test_new_rejects_missing_required_fields() {
    let schema = project_schema();
    let msg = new_error(&schema, &vec![], new_args("Incomplete task", None, Some(10)));
    assert!(msg.contains("missing required fields"));
    assert_eq!(msg, "missing required fields: project. Use --set or named flags to provide them.");
}

#[test]
fn test_new_rejects_duplicate_priority() {
    let schema = project_schema();
    let mut existing = vec![];
    create(&schema, &mut existing, new_args("First task", Some("alpha"), Some(10)));
    let msg = new_error(&schema, &existing, new_args("Dupe priority", Some("alpha"), Some(10)));
    assert!(msg.contains("priority 10 is already used"));
    assert_eq!(msg, "priority 10 is already used by BL-001. Use `ark list` to see current priorities.");
}

#[test]
fn test_set_validates_against_schema() {
    let schema = project_schema();
    let mut args = new_args("Test set validation", Some("alpha"), Some(10));
    args.extra_fields = Some(vec![("id".to_string(), "FAKE-999".to_string())]);
    let msg = new_error(&schema, &vec![], args);
    assert!(msg.contains("derived"));
}

#[test]
fn set_of_a_named_flag_conflicts() {
    let schema = project_schema();
    let mut args = new_args("Conflict", Some("alpha"), Some(10));
    args.extra_fields = Some(vec![("project".to_string(), "beta".to_string())]);
    assert_eq!(
        new_error(&schema, &vec![], args),
        "conflict: --project and --set project= both set the same field. Use one or the other."
    );
}

#[test]
fn set_values_are_typed_by_the_schema() {
    let schema = project_schema();
    let mut args = new_args("Typed", Some("alpha"), None);
    args.extra_fields = Some(vec![("priority".to_string(), "42".to_string()), ("note".to_string(), "x".to_string())]);
    let a = match new_artifact(&schema, &args, &vec![], "2024-05-01") {
        Ok(a) => a,
        Err(e) => panic!("{}", e.message()),
    };
    assert_eq!(a.priority(), Some(42));
    assert_eq!(text(&a, "note"), "x");
}

#[test]
fn blank_or_multiline_titles_are_refused() {
    assert!(matches!(check_title("   "), Err(NewError::EmptyTitle)));
    assert!(matches!(check_title("a\nb"), Err(NewError::MultilineTitle)));
    assert!(check_title("Fine").is_ok());
    let schema = project_schema();
    assert_eq!(new_error(&schema, &vec![], new_args("", Some("alpha"), Some(1))), "title cannot be empty");
}

#[test]
fn test_edit_updates_field() {
    let schema = project_schema();
    let mut existing = vec![];
    let a = create(&schema, &mut existing, new_args("Edit me", Some("alpha"), Some(10)));
    let mut args = edit_args("BL-001");
    args.status = Some("active".to_string());
    match apply_edit(&schema, a, &args, &existing, "2024-06-01") {
        Ok(EditOutcome::Updated(b)) => {
            assert_eq!(text(&b, "status"), "active");
            assert_eq!(text(&b, "updated"), "2024-06-01");
            assert_eq!(text(&b, "title"), "Edit me");
        }
        _ => panic!("expected an update"),
    }
}

#[test]
fn edit_refuses_a_status_outside_the_enum() {
    let schema = project_schema();
    let mut existing = vec![];
    let a = create(&schema, &mut existing, new_args("Edit me", Some("alpha"), Some(10)));
    let mut args = edit_args("BL-001");
    args.status = Some("finished".to_string());
    match apply_edit(&schema, a, &args, &existing, "2024-06-01") {
        Err(e) => assert_eq!(
            e.message(),
            "invalid value 'finished' for field 'status'. Valid values: backlog, active, blocked, done"
        ),
        Ok(_) => panic!("expected an error"),
    }
}

#[test]
fn test_edit_noop_no_changes() {
    let schema = project_schema();
    let mut existing = vec![];
    let a = create(&schema, &mut existing, new_args("No-op test", Some("alpha"), Some(10)));
    assert!(matches!(apply_edit(&schema, a, &edit_args("BL-001"), &existing, "2024-06-01"), Ok(EditOutcome::Unchanged)));
}

#[test]
fn test_list_shows_artifacts() {
    let schema = project_schema();
    let mut existing = vec![];
    create(&schema, &mut existing, new_args("First", Some("alpha"), Some(20)));
    create(&schema, &mut existing, new_args("Second", Some("beta"), Some(10)));
    let sel = list_selection(&schema, &existing, &list_args());
    assert_eq!(sel, vec![1, 0]);
    let mut args = list_args();
    args.project = Some("alpha".to_string());
    let sel = list_selection(&schema, &existing, &args);
    assert_eq!(sel, vec![0]);
    let (headers, rows) = list_table(&schema, &existing, &sel);
    assert_eq!(headers, strings(&["id", "pri", "status", "project", "title"]));
    assert_eq!(rows, vec![strings(&["BL-001", "20", "backlog", "alpha", "First"])]);
}

#[test]
fn list_leaves_out_archived_and_limits() {
    let schema = project_schema();
    let mut existing = vec![];
    create(&schema, &mut existing, new_args("A", Some("alpha"), Some(3)));
    let b = create(&schema, &mut existing, new_args("B", Some("alpha"), Some(1)));
    create(&schema, &mut existing, new_args("C", Some("alpha"), Some(2)));
    let mut args = edit_args("BL-002");
    args.status = Some("done".to_string());
    if let Ok(EditOutcome::Updated(done)) = apply_edit(&schema, b, &args, &existing, "2024-06-01") {
        existing[1] = done;
    }
    let mut la = list_args();
    la.limit = Some(1);
    assert_eq!(list_selection(&schema, &existing, &la), vec![2]);
}

#[test]
fn integration_test_tsv_output() {
    let schema = project_schema();
    let mut existing = vec![];
    create(&schema, &mut existing, new_args("TSV test", Some("alpha"), Some(10)));
    let sel = list_selection(&schema, &existing, &list_args());
    let (headers, rows) = list_table(&schema, &existing, &sel);
    let h: Vec<&str> = headers.iter().map(|s| s.as_str()).collect();
    let out = render_tsv(&h, &rows);
    assert!(out.contains("id\t"));
    assert!(out.contains("BL-001"));
}

#[test]
fn test_archive_moves_done_items() {
    let schema = project_schema();
    let mut existing = vec![];
    let a = create(&schema, &mut existing, new_args("To archive", Some("alpha"), Some(10)));
    let mut args = edit_args("BL-001");
    args.status = Some("done".to_string());
    if let Ok(EditOutcome::Updated(done)) = apply_edit(&schema, a, &args, &existing, "2024-06-01") {
        existing[0] = done;
    }
    assert_eq!(archive_selection(&schema, &existing), Some(vec![0]));
    let mut plain = project_schema();
    plain.archive = None;
    assert_eq!(archive_selection(&plain, &existing), None);
}

#[test]
fn test_search_finds_matches() {
    let schema = project_schema();
    let mut existing = vec![];
    create(&schema, &mut existing, new_args("Build prototype XYZ", Some("alpha"), Some(10)));
    let types = vec![("task".to_string(), existing)];
    let rows = search_rows("XYZ", false, &types).ok().unwrap();
    assert_eq!(rows, vec![strings(&["task", "BL-001", "Build prototype XYZ", "title"])]);
    let none = search_rows("nonexistent", false, &types).ok().unwrap();
    assert!(none.is_empty());
}

#[test]
fn search_ignoring_case_and_bad_patterns() {
    let schema = project_schema();
    let mut existing = vec![];
    create(&schema, &mut existing, new_args("Build prototype XYZ", Some("alpha"), Some(10)));
    let types = vec![("task".to_string(), existing)];
    assert!(search_rows("xyz", false, &types).ok().unwrap().is_empty());
    assert_eq!(search_rows("xyz", true, &types).ok().unwrap().len(), 1);
    let body_only = search_rows("Acceptance", false, &types).ok().unwrap();
    assert_eq!(body_only[0][3], "body");
    match search_rows("(", false, &types) {
        Err(m) => assert!(m.starts_with("invalid regex pattern: ")),
        Ok(_) => panic!("expected an error"),
    }
}

#[test]
fn test_rebalance() {
    let schema = project_schema();
    let mut existing = vec![];
    create(&schema, &mut existing, new_args("First", Some("alpha"), Some(5)));
    create(&schema, &mut existing, new_args("Second", Some("alpha"), Some(7)));
    let plan = rebalance_plan(&schema, &existing, 10);
    assert_eq!(plan, vec![(0, 10), (1, 20)]);
    apply_rebalance(&mut existing, &plan, "2024-06-02");
    assert_eq!(existing[0].priority(), Some(10));
    assert_eq!(existing[1].priority(), Some(20));
    assert_eq!(text(&existing[1], "updated"), "2024-06-02");
    let again = rebalance_plan(&schema, &existing, 10);
    assert!(again.is_empty());
}

#[test]
fn test_next_command() {
    let schema = project_schema();
    let mut existing = vec![];
    let a = create(&schema, &mut existing, new_args("Active item", Some("alpha"), Some(10)));
    create(&schema, &mut existing, new_args("Queued item", Some("alpha"), Some(20)));
    let mut args = edit_args("BL-001");
    args.status = Some("active".to_string());
    if let Ok(EditOutcome::Updated(b)) = apply_edit(&schema, a, &args, &existing, "2024-06-01") {
        existing[0] = b;
    }
    let (active, queued) = next_selection(&schema, &existing, 5);
    assert_eq!(active, vec![0]);
    assert_eq!(queued, vec![1]);
    let (arows, qrows) = next_tables(&existing, &active, &queued);
    assert_eq!(arows, vec![strings(&["BL-001", "10", "Active item"])]);
    assert_eq!(qrows, vec![strings(&["BL-002", "20", "backlog", "Queued item"])]);
}

#[test]
fn test_lint_passes_valid_artifacts() {
    let schema = project_schema();
    let mut existing = vec![];
    create(&schema, &mut existing, new_args("Valid task", Some("alpha"), Some(10)));
    assert!(duplicate_issues(&existing).is_empty());
    assert_eq!(check_id(&schema, &existing[0]), None);
    assert_eq!(lint_artifact(&schema, &existing[0]), Ok(vec![]));
    let summary = lint_summary(1, 0, 0);
    assert!(summary.contains("Lint passed"));
    assert_eq!(summary, "Lint passed. 1 file checked, no issues found.");
    assert!(lint_outcome(0).is_ok());
}

#[test]
fn lint_reports_duplicates_and_counts() {
    let schema = project_schema();
    let mut existing = vec![];
    create(&schema, &mut existing, new_args("One", Some("alpha"), Some(10)));
    let mut dup = Artifact {
        path: "backlog/BL-001-copy.md".to_string(),
        frontmatter: copy_fm(&existing[0].frontmatter),
        body: String::new(),
        raw: String::new(),
    };
    dup.frontmatter.insert("title".to_string(), Value::Str("Copy".to_string()));
    existing.push(dup);
    let issues = duplicate_issues(&existing);
    assert_eq!(issues.len(), 2);
    assert_eq!(issues[0].message, "duplicate ID 'BL-001' (also in backlog/BL-001-one.md)");
    assert!(issues[0].error);
    assert_eq!(issues[1].message, "duplicate priority 10 (also in backlog/BL-001-one.md)");
    assert!(!issues[1].error);
    assert_eq!(lint_summary(2, 1, 1), "Lint complete. 2 files checked: 1 error, 1 warning.");
    assert_eq!(lint_outcome(3).err().unwrap(), "lint failed with 3 error(s)");
    assert_eq!(pluralize("file", 2), "files");
    assert_eq!(pluralize("file", 1), "file");
}

#[test]
fn lint_checks_the_id_pattern() {
    let mut schema = project_schema();
    schema.fields[0].pattern = Some("^BL-\\d{3}$".to_string());
    let mut existing = vec![];
    create(&schema, &mut existing, new_args("One", Some("alpha"), Some(10)));
    assert_eq!(check_id(&schema, &existing[0]), None);
    existing[0].frontmatter.insert("id".to_string(), Value::Str("BL-1".to_string()));
    assert_eq!(check_id(&schema, &existing[0]), Some("ID 'BL-1' does not match pattern '^BL-\\d{3}$'".to_string()));
    let mut bare = Artifact { path: "x.md".to_string(), frontmatter: Frontmatter::new(), body: String::new(), raw: String::new() };
    bare.frontmatter.insert("title".to_string(), Value::Str("t".to_string()));
    assert_eq!(check_id(&schema, &bare), Some("missing required field 'id'".to_string()));
}

#[test]
fn lint_fixes_the_status_of_superseded_artifacts() {
    let mut schema = project_schema();
    schema.fields.push(field("supersedes", FieldType::String));
    if let Some(vs) = schema.fields[2].values.as_mut() {
        vs.push("superseded".to_string());
    }
    let mut existing = vec![];
    create(&schema, &mut existing, new_args("Old", Some("alpha"), Some(1)));
    create(&schema, &mut existing, new_args("New", Some("alpha"), Some(2)));
    existing[1].frontmatter.insert("supersedes".to_string(), Value::Str("BL-001 (the first try)".to_string()));
    let fixes = supersession_fixes(&schema, &existing);
    assert_eq!(fixes, vec![(0, "BL-002".to_string())]);
    apply_supersession(&mut existing, &fixes, "2024-07-01");
    assert_eq!(text(&existing[0], "status"), "superseded");
    assert_eq!(text(&existing[0], "updated"), "2024-07-01");
    assert!(supersession_fixes(&schema, &existing).is_empty());
    let plain = project_schema();
    assert!(supersession_fixes(&plain, &existing).is_empty());
}

#[test]
fn test_fields_shows_enum_values() {
    let schema = project_schema();
    let rows = field_rows(&schema);
    assert_eq!(rows[2], strings(&["status", "enum", "yes", "", "", "backlog, active, blocked, done"]));
    assert_eq!(rows[3], strings(&["priority", "integer", "yes", "yes", "", ""]));
    match field_values(&schema, "task", "status") {
        Ok(FieldValues::Values(vs)) => assert_eq!(vs, strings(&["backlog", "active", "blocked", "done"])),
        _ => panic!("expected values"),
    }
    match field_values(&schema, "task", "title") {
        Ok(FieldValues::NoValues(m)) => assert_eq!(m, "Field 'title' is type 'string' with no enumerated values."),
        _ => panic!("expected no values"),
    }
    match field_values(&schema, "task", "nope") {
        Err(e) => assert_eq!(
            e.message(),
            "unknown field 'nope' on artifact type 'task'. Run `ark fields task` to see available fields."
        ),
        Ok(_) => panic!("expected an error"),
    }
}

#[test]
fn test_types_lists_schemas() {
    let mut other = project_schema();
    other.name = "spec".to_string();
    other.prefix = "SP".to_string();
    other.directory = "specs".to_string();
    let rows = sort_rows(&type_rows(&vec![project_schema(), other]));
    assert_eq!(rows[0], strings(&["spec", "SP", "specs", "8"]));
    assert_eq!(rows[1], strings(&["task", "BL", "backlog", "8"]));
}

#[test]
fn test_init_fails_if_already_initialized() {
    assert!(ArkError::AlreadyInitialized.message().contains("already initialized"));
}

#[test]
fn stats_count_by_field() {
    let schema = project_schema();
    let mut existing = vec![];
    create(&schema, &mut existing, new_args("A", Some("beta"), Some(1)));
    create(&schema, &mut existing, new_args("B", Some("alpha"), Some(2)));
    create(&schema, &mut existing, new_args("C", Some("beta"), Some(3)));
    let keys = group_keys(&existing, "project");
    let groups = count_groups(&keys);
    assert_eq!(groups, vec![("alpha".to_string(), 1), ("beta".to_string(), 2)]);
    let rows = count_rows(&groups);
    assert_eq!(rows[1], strings(&["beta", "2"]));
    let none = count_groups(&group_keys(&existing, "owner"));
    assert_eq!(none, vec![("(none)".to_string(), 3)]);
}

#[test]
fn key_value_pairs_split_at_the_first_equals() {
    assert_eq!(parse_key_value("a=b=c").ok().unwrap(), ("a".to_string(), "b=c".to_string()));
    assert_eq!(parse_key_value("abc").err().unwrap(), "invalid KEY=VALUE: no '=' found in 'abc'");
}

#[test]
fn artifact_and_schema_files_by_extension() {
    assert!(is_artifact_file("BL-001-x.md"));
    assert!(is_artifact_file("login.feature"));
    assert!(!is_artifact_file("notes.txt"));
    assert!(!is_artifact_file(".md"));
    assert!(is_schema_file("task.yml"));
    assert!(is_schema_file("task.yaml"));
    assert!(!is_schema_file("task.json"));
}

#[test]
fn group_counts_add_up_to_the_number_of_keys() {
    let keys = strings(&["b", "a", "b", "c", "a", "b"]);
    let groups = count_groups(&keys);
    assert_eq!(
        groups,
        vec![("a".to_string(), 2), ("b".to_string(), 3), ("c".to_string(), 1)]
    );
    let total: usize = groups.iter().map(|g| g.1).sum();
    assert_eq!(total, keys.len());
    assert!(count_groups(&Vec::new()).is_empty());
}

#[test]
fn new_keeps_priorities_unique_also_through_set() {
    let schema = project_schema();
    let mut existing = vec![];
    create(&schema, &mut existing, new_args("One", Some("alpha"), Some(10)));
    create(&schema, &mut existing, new_args("Two", Some("alpha"), Some(20)));
    assert!(new_artifact(&schema, &new_args("Three", Some("alpha"), Some(20)), &existing, "2024-05-01").is_err());
    let mut args = new_args("Four", Some("alpha"), None);
    args.extra_fields = Some(vec![("priority".to_string(), "20".to_string())]);
    match new_artifact(&schema, &args, &existing, "2024-05-01") {
        Err(e) => assert_eq!(e.message(), "priority 20 is already used by BL-002. Use `ark list` to see current priorities."),
        Ok(_) => panic!("expected an error"),
    }
    args.extra_fields = Some(vec![("priority".to_string(), "30".to_string())]);
    let made = new_artifact(&schema, &args, &existing, "2024-05-01").ok().unwrap();
    assert_eq!(made.priority(), Some(30));
}

#[test]
fn test_lint_catches_invalid_enum() {
    let schema = project_schema();
    let mut existing = vec![];
    create(&schema, &mut existing, new_args("Will be broken", Some("alpha"), Some(10)));
    assert_eq!(existing[0].get_str("status"), Some("backlog"));
    existing[0].frontmatter.insert("status".to_string(), Value::Str("invalid".to_string()));
    let errors = lint_artifact(&schema, &existing[0]).ok().unwrap();
    assert_eq!(errors.len(), 1);
    assert!(errors[0].starts_with("\"invalid\" is not one of"));
    assert!(errors[0].ends_with(" at /status"));
    assert!(lint_outcome(errors.len()).is_err());
}

#[test]
fn lint_reports_the_id_error_first_then_schema_errors() {
    let mut schema = project_schema();
    schema.fields[0].pattern = Some("^BL-[0-9]{3}$".to_string());
    let mut existing = vec![];
    create(&schema, &mut existing, new_args("Odd", Some("alpha"), Some(10)));
    existing[0].frontmatter.insert("id".to_string(), Value::Str("BL-7".to_string()));
    existing[0].frontmatter.insert("project".to_string(), Value::Str("gamma".to_string()));
    let errors = lint_artifact(&schema, &existing[0]).ok().unwrap();
    assert_eq!(errors.len(), 3);
    assert_eq!(errors[0], "ID 'BL-7' does not match pattern '^BL-[0-9]{3}$'");
    let mut rest = errors[1..].to_vec();
    rest.sort();
    assert!(rest[0].ends_with(" at /id"));
    assert!(rest[1].ends_with(" at /project"));
    let mut direct = schema_errors(&schema, &existing[0]).ok().unwrap();
    direct.sort();
    assert_eq!(direct, rest);
}

#[test]
fn test_fields_lists_all_fields() {
    let schema = project_schema();
    let rows = field_rows(&schema);
    assert_eq!(rows.len(), 8);
    let headers = ["name", "type", "required", "unique", "derived", "values"];
    let out = render_table(&headers, &rows, OutputFormat::Pretty, None);
    assert!(out.contains("status"));
    assert!(out.contains("priority"));
    let tsv = render_table(&headers, &rows, OutputFormat::Tsv, None);
    assert!(tsv.contains("\nstatus\tenum\tyes\t\t\tbacklog, active, blocked, done\n"));
    assert!(tsv.contains("\npriority\tinteger\tyes\tyes\t\t\n"));
}

#[test]
fn test_parent_directory_walk() {
    let schema = project_schema();
    let mut existing = vec![];
    create(&schema, &mut existing, new_args("Walk test", Some("alpha"), Some(10)));
    let dirs = vec!["/tmp/proj/subdir".to_string(), "/tmp/proj".to_string(), "/tmp".to_string(), "/".to_string()];
    let root = find_ark_root(&dirs, &vec![false, true, false, false]).ok().unwrap();
    assert_eq!(root, "/tmp/proj");
    let sel = list_selection(&schema, &existing, &list_args());
    let (_, rows) = list_table(&schema, &existing, &sel);
    assert!(render_tsv(&["id", "pri", "status", "project", "title"], &rows).contains("Walk test"));
}

#[test]
fn test_show_json_format() {
    let schema = project_schema();
    let mut existing = vec![];
    let made = create(&schema, &mut existing, new_args("JSON test", Some("alpha"), Some(10)));
    let text = format_value(&made.frontmatter_as_json());
    let parsed: serde_json::Value = serde_json::from_str(&text).unwrap();
    assert_eq!(parsed["title"], "JSON test");
    assert_eq!(parsed["id"], "BL-001");
    assert_eq!(parsed["priority"], 10);
}

#[test]
fn edit_refuses_a_taken_priority_and_untyped_values() {
    let schema = project_schema();
    let mut existing = vec![];
    let a = create(&schema, &mut existing, new_args("One", Some("alpha"), Some(10)));
    create(&schema, &mut existing, new_args("Two", Some("alpha"), Some(20)));
    let copy = |a: &Artifact| Artifact {
        path: a.path.clone(),
        frontmatter: copy_fm(&a.frontmatter),
        body: a.body.clone(),
        raw: a.raw.clone(),
    };
    let mut args = edit_args("BL-001");
    args.priority = Some(20);
    match apply_edit(&schema, copy(&a), &args, &existing, "2024-06-01") {
        Err(e) => assert_eq!(e.message(), "priority 20 is already used by BL-002. Use `ark list` to see current priorities."),
        Ok(_) => panic!("expected an error"),
    }
    let mut args = edit_args("BL-001");
    args.fields = vec![("priority".to_string(), "20".to_string())];
    assert!(apply_edit(&schema, copy(&a), &args, &existing, "2024-06-01").is_err());
    let mut args = edit_args("BL-001");
    args.fields = vec![("priority".to_string(), "abc".to_string())];
    match apply_edit(&schema, copy(&a), &args, &existing, "2024-06-01") {
        Err(e) => assert_eq!(e.message(), "field 'priority' requires an integer value, got 'abc'"),
        Ok(_) => panic!("expected an error"),
    }
    // its own priority is no clash, and a `--set` value is stored as the text given
    let mut args = edit_args("BL-001");
    args.fields = vec![("priority".to_string(), "10".to_string())];
    match apply_edit(&schema, copy(&a), &args, &existing, "2024-06-01") {
        Ok(EditOutcome::Updated(b)) => assert_eq!(b.get_str("priority"), Some("10")),
        _ => panic!("expected an update"),
    }
}

#[test]
fn write_time_pattern_check() {
    let mut schema = project_schema();
    let mut code = field("code", FieldType::String);
    code.pattern = Some("^[A-Z]+$".to_string());
    schema.fields.push(code);
    match validate_field_value(&schema, "code", "abc") {
        Err(e) => assert_eq!(e.message(), "field 'code' value 'abc' does not match pattern '^[A-Z]+$'"),
        Ok(()) => panic!("expected an error"),
    }
    assert!(validate_field_value(&schema, "code", "ABC").is_ok());
}

#[test]
fn lint_type_report_counts_duplicates_and_schema_errors() {
    let schema = project_schema();
    let mut existing = vec![];
    create(&schema, &mut existing, new_args("One", Some("alpha"), Some(10)));
    create(&schema, &mut existing, new_args("Two", Some("alpha"), Some(20)));
    existing[1].frontmatter.insert("priority".to_string(), Value::Int(10));
    existing[1].frontmatter.insert("status".to_string(), Value::Str("invalid".to_string()));
    let (lines, outcome) = lint_type_report(&schema, &existing);
    assert_eq!(outcome, Ok((2, 1, 1)));
    assert_eq!(lines.len(), 2);
    assert!(lines[0].starts_with("  warning: backlog/BL-002-two.md - duplicate priority 10"));
    assert!(lines[1].starts_with("  error: backlog/BL-002-two.md - \"invalid\" is not one of"));
}

#[test]
fn scan_lint_report_counts_files_and_errors_per_group() {
    let schema = project_schema();
    let mut existing = vec![];
    create(&schema, &mut existing, new_args("One", Some("alpha"), Some(10)));
    create(&schema, &mut existing, new_args("Two", Some("alpha"), Some(20)));
    existing[0].frontmatter.insert("project".to_string(), Value::Str("gamma".to_string()));
    let names = vec!["a.md".to_string(), "b.md".to_string()];
    let groups = vec![ScanLintGroup { project: "p".to_string(), schema: project_schema(), names, artifacts: existing }];
    let (lines, files, errors) = scan_lint_report(&groups);
    assert_eq!((files, errors), (2, 1));
    assert!(lines[0].starts_with("  error: p/a.md - \"gamma\" is not one of"));
    assert!(lines[0].ends_with(" at /project"));
}

#[test]
fn scan_stats_rows_sorted_by_project_then_type() {
    let rows = vec![strings(&["b", "task", "1"]), strings(&["a", "spec", "2"]), strings(&["a", "adr", "3"])];
    let sorted = ark::commands::types::sort_rows_by_two(&rows);
    assert_eq!(sorted, vec![strings(&["a", "adr", "3"]), strings(&["a", "spec", "2"]), strings(&["b", "task", "1"])]);
}
