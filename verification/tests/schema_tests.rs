use ark::schema::{
    check_schema_set, collect_schemas, find_ark_root, prepare_schemas, resolve_inheritance, select_schema, ArchiveDef,
    FieldDef, FieldType, InheritanceError, LoadError, Schema, SchemaSetError,
};
use ark::value::Value;

fn field(name: &str, t: FieldType) -> FieldDef {
    FieldDef {
        name: name.to_string(),
        field_type: t,
        required: false,
        unique: false,
        derived: false,
        default: None,
        values: None,
        pattern: None,
    }
}

fn strings(xs: &[&str]) -> Vec<String> {
    xs.iter().map(|x| x.to_string()).collect()
}

fn schema(name: &str, directory: &str, prefix: &str, fields: Vec<FieldDef>) -> Schema {
    Schema {
        name: name.to_string(),
        directory: directory.to_string(),
        prefix: prefix.to_string(),
        fields,
        archive: None,
        template: None,
        extends: None,
        registry: None,
    }
}

fn sample_schema() -> Schema {
    let mut id = field("id", FieldType::String);
    id.required = true;
    id.derived = true;
    id.pattern = Some("^BL-\\d{3}$".to_string());
    let mut title = field("title", FieldType::String);
    title.required = true;
    let mut status = field("status", FieldType::Enum);
    status.required = true;
    status.values = Some(strings(&["backlog", "active", "blocked", "done"]));
    status.default = Some(Value::Str("backlog".to_string()));
    let mut priority = field("priority", FieldType::Integer);
    priority.required = true;
    priority.unique = true;
    let mut project = field("project", FieldType::Enum);
    project.required = true;
    project.values = Some(strings(&["ecosystem", "frontend", "backend"]));
    let mut kind = field("type", FieldType::Enum);
    kind.required = true;
    kind.values = Some(strings(&["feature", "bug", "chore", "research", "bench"]));
    let tags = field("tags", FieldType::List);
    let mut created = field("created", FieldType::Date);
    created.derived = true;
    let mut updated = field("updated", FieldType::Date);
    updated.derived = true;
    let mut s = schema(
        "task",
        "backlog",
        "BL",
        vec![id, title, status, priority, project, kind, tags, created, updated],
    );
    s.archive = Some(ArchiveDef {
        field: "status".to_string(),
        value: "done".to_string(),
        directory: "backlog/done".to_string(),
    });
    s.template = Some("## Context\n\n## Acceptance criteria\n\n- [ ]\n".to_string());
    s
}

fn entry<'a>(v: &'a Value, key: &str) -> &'a Value {
    match v {
        Value::Object(es) => &es.iter().find(|(k, _)| k == key).unwrap().1,
        _ => panic!("not an object"),
    }
}

fn has_entry(v: &Value, key: &str) -> bool {
    match v {
        Value::Object(es) => es.iter().any(|(k, _)| k == key),
        _ => false,
    }
}

fn list_len(v: &Value) -> usize {
    match v {
        Value::List(items) => items.len(),
        _ => panic!("not a list"),
    }
}

fn list_strings(v: &Value) -> Vec<String> {
    match v {
        Value::List(items) => items
            .iter()
            .map(|i| match i {
                Value::Str(s) => s.clone(),
                _ => panic!("not a string"),
            })
            .collect(),
        _ => panic!("not a list"),
    }
}

fn by_name<'a>(ss: &'a [Schema], name: &str) -> &'a Schema {
    ss.iter().find(|s| s.name == name).unwrap()
}

#[test]
fn test_get_field() {
    let schema = sample_schema();
    let status = schema.get_field("status").unwrap();
    assert_eq!(status.field_type, FieldType::Enum);
    assert_eq!(status.values.as_ref().unwrap(), &["backlog", "active", "blocked", "done"]);
}

#[test]
fn test_json_schema_generation() {
    let schema = sample_schema();
    let json_schema = schema.to_json_schema();
    let props = entry(&json_schema, "properties");
    assert!(has_entry(props, "title"));
    assert!(has_entry(props, "status"));

    let status_schema = entry(props, "status");
    let enums = entry(status_schema, "enum");
    assert_eq!(list_len(enums), 4);

    let required_names = list_strings(entry(&json_schema, "required"));
    assert!(!required_names.contains(&"id".to_string()));
    assert!(!required_names.contains(&"created".to_string()));
    assert!(required_names.contains(&"title".to_string()));
}

#[test]
fn test_archive_config() {
    let schema = sample_schema();
    assert_eq!(schema.archive_value(), Some("done"));
    assert_eq!(schema.archive_directory(), Some("backlog/done"));
}

#[test]
fn test_inheritance_merges_fields() {
    let mut id = field("id", FieldType::String);
    id.required = true;
    id.derived = true;
    let mut title = field("title", FieldType::String);
    title.required = true;
    let mut status = field("status", FieldType::Enum);
    status.required = true;
    status.values = Some(strings(&["backlog", "active", "blocked", "done"]));
    status.default = Some(Value::Str("backlog".to_string()));
    let base = schema("base-task", "backlog", "BL", vec![id, title, status]);
    let mut priority = field("priority", FieldType::Integer);
    priority.required = true;
    priority.unique = true;
    let mut project = field("project", FieldType::Enum);
    project.required = true;
    project.values = Some(strings(&["alpha", "beta"]));
    let mut task = schema("task", "", "", vec![priority, project]);
    task.extends = Some("base-task".to_string());

    let schemas = resolve_inheritance(&vec![base, task]).ok().unwrap();

    let task = by_name(&schemas, "task");
    assert_eq!(task.fields.len(), 5);
    assert!(task.get_field("id").is_some());
    assert!(task.get_field("title").is_some());
    assert!(task.get_field("status").is_some());
    assert!(task.get_field("priority").is_some());
    assert!(task.get_field("project").is_some());
    assert_eq!(task.directory, "backlog");
    assert_eq!(task.prefix, "BL");
}

#[test]
fn test_inheritance_child_overrides_field() {
    let mut status = field("status", FieldType::Enum);
    status.required = true;
    status.values = Some(strings(&["backlog", "active", "done"]));
    let base = schema("base-task", "backlog", "BL", vec![status]);
    let mut own_status = field("status", FieldType::Enum);
    own_status.required = true;
    own_status.values = Some(strings(&["open", "closed"]));
    let mut task = schema("task", "tasks", "TK", vec![own_status]);
    task.extends = Some("base-task".to_string());

    let schemas = resolve_inheritance(&vec![base, task]).ok().unwrap();

    let task = by_name(&schemas, "task");
    let status = task.get_field("status").unwrap();
    assert_eq!(status.values.as_ref().unwrap(), &["open", "closed"]);
    assert_eq!(task.directory, "tasks");
    assert_eq!(task.prefix, "TK");
}

#[test]
fn test_inheritance_circular_detection() {
    let mut a = schema("a", "a", "A", vec![]);
    a.extends = Some("b".to_string());
    let mut b = schema("b", "b", "B", vec![]);
    b.extends = Some("a".to_string());

    let result = resolve_inheritance(&vec![a, b]);
    assert!(result.is_err());
    let err_msg = match result {
        Err(e) => e.message(),
        Ok(_) => String::new(),
    };
    assert!(
        err_msg.contains("circular") || err_msg.contains("could not resolve"),
        "expected circular inheritance error, got: {}",
        err_msg
    );
}

#[test]
fn test_inheritance_missing_base() {
    let mut task = schema("task", "", "", vec![]);
    task.extends = Some("nonexistent".to_string());
    let result = resolve_inheritance(&vec![task]);
    assert!(result.is_err());
}

#[test]
fn missing_base_names_the_schemas_it_strands() {
    let mut task = schema("task", "t", "T", vec![]);
    task.extends = Some("nonexistent".to_string());
    let mut sub = schema("sub", "s", "S", vec![]);
    sub.extends = Some("task".to_string());
    let other = schema("other", "o", "O", vec![]);
    match resolve_inheritance(&vec![task, sub, other]) {
        Err(InheritanceError::Unresolved(names)) => assert_eq!(names, vec!["task".to_string(), "sub".to_string()]),
        _ => panic!("expected unresolved"),
    }
}

#[test]
fn cycle_is_named_by_the_first_schema_in_it() {
    let mut a = schema("a", "a", "A", vec![]);
    a.extends = Some("b".to_string());
    let mut b = schema("b", "b", "B", vec![]);
    b.extends = Some("a".to_string());
    match resolve_inheritance(&vec![a, b]) {
        Err(e) => assert_eq!(e.message(), "circular schema inheritance detected: 'a' is part of an inheritance cycle"),
        Ok(_) => panic!("expected a cycle"),
    }
}

#[test]
fn later_schema_file_replaces_an_earlier_one_of_the_same_name() {
    let first = schema("task", "one", "A", vec![]);
    let other = schema("spec", "specs", "SP", vec![]);
    let second = schema("task", "two", "B", vec![]);
    let out = collect_schemas(&vec![first, other, second]);
    assert_eq!(out.len(), 2);
    assert_eq!(out[0].name, "task");
    assert_eq!(out[0].directory, "two");
    assert_eq!(out[1].name, "spec");
}

#[test]
fn no_schema_files_is_an_error() {
    assert!(matches!(prepare_schemas(&vec![]), Err(LoadError::NoSchemas)));
}

#[test]
fn selecting_an_unknown_type_is_an_error() {
    match select_schema(&vec![sample_schema()], "story") {
        Err(LoadError::UnknownType(t)) => assert_eq!(t, "story"),
        _ => panic!("expected unknown type"),
    }
    let s = select_schema(&vec![sample_schema()], "task").ok().unwrap();
    assert_eq!(s.prefix, "BL");
}

#[test]
fn directory_outside_the_project_is_refused() {
    let s = schema("task", "../elsewhere", "BL", vec![]);
    match check_schema_set(&vec![s], &vec![false]) {
        Err(e) => {
            assert!(matches!(e, SchemaSetError::DirectoryEscapes { .. }));
            assert_eq!(
                e.message(),
                "schema 'task' has directory '../elsewhere' that escapes the project root. Directories must be relative paths within the project."
            );
        }
        Ok(()) => panic!("expected refusal"),
    }
}

#[test]
fn two_types_in_one_directory_conflict() {
    let a = schema("task", "backlog", "BL", vec![]);
    let b = schema("bug", "backlog", "BG", vec![]);
    match check_schema_set(&vec![a, b], &vec![false, false]) {
        Err(e) => assert_eq!(
            e.message(),
            "schema conflict: 'task' and 'bug' both use directory 'backlog'. Each artifact type must have its own directory."
        ),
        Ok(()) => panic!("expected conflict"),
    }
}

#[test]
fn root_is_the_first_directory_with_ark() {
    let dirs = vec!["/p/a/b".to_string(), "/p/a".to_string(), "/p".to_string(), "/".to_string()];
    assert_eq!(find_ark_root(&dirs, &vec![false, true, true, false]).ok().unwrap(), "/p/a");
    match find_ark_root(&dirs, &vec![false, false, false, false]) {
        Err(e) => assert_eq!(e.message(), "not an ark project (no .ark/ directory found). Run `ark init` to set up."),
        Ok(_) => panic!("expected no root"),
    }
}

#[test]
fn the_root_is_found_again_from_itself() {
    let dirs = vec!["/p/a/b".to_string(), "/p/a".to_string(), "/p".to_string(), "/".to_string()];
    let has = vec![false, true, true, false];
    let root = find_ark_root(&dirs, &has).ok().unwrap();
    assert_eq!(root, "/p/a");
    assert_eq!(find_ark_root(&dirs[1..].to_vec(), &has[1..].to_vec()).ok().unwrap(), root);
}
