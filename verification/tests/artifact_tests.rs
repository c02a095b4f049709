use ark::artifact::{format_id, next_id, slugify, Artifact};
use ark::value::{Frontmatter, Value};

fn artifact_with(pairs: &[(&str, Value)]) -> Artifact {
    let mut fm = Frontmatter::new();
    for (k, v) in pairs {
        fm.insert(k.to_string(), v.copy());
    }
    Artifact { path: "a.md".to_string(), frontmatter: fm, body: String::new(), raw: String::new() }
}

fn s(x: &str) -> Value {
    Value::Str(x.to_string())
}

#[test]
fn test_slugify() {
    assert_eq!(slugify("Build Bellflower Prototype"), "build-bellflower-prototype");
    assert_eq!(slugify("Fix bug #42"), "fix-bug-42");
    assert_eq!(slugify("  lots   of   spaces  "), "lots-of-spaces");
}

#[test]
fn test_next_id() {
    let artifacts = vec![
        artifact_with(&[("id", s("BL-001")), ("title", s("First"))]),
        artifact_with(&[("id", s("BL-003")), ("title", s("Third"))]),
    ];
    assert_eq!(next_id(&artifacts, "BL"), 4);
}

#[test]
fn test_next_id_empty() {
    assert_eq!(next_id(&vec![], "BL"), 1);
}

#[test]
fn next_id_ignores_other_prefixes_and_malformed_ids() {
    let artifacts = vec![
        artifact_with(&[("id", s("SPEC-009"))]),
        artifact_with(&[("id", s("BL-x7"))]),
        artifact_with(&[("id", s("BL007"))]),
        artifact_with(&[("id", s("BL-+5"))]),
        artifact_with(&[("id", Value::Int(12))]),
    ];
    assert_eq!(next_id(&artifacts, "BL"), 6);
}

#[test]
fn format_id_pads_to_three_digits() {
    assert_eq!(format_id("BL", 1), "BL-001");
    assert_eq!(format_id("BL", 42), "BL-042");
    assert_eq!(format_id("BL", 1234), "BL-1234");
}

#[test]
fn accessors_read_typed_fields() {
    let a = artifact_with(&[
        ("id", s("BL-001")),
        ("title", s("Build prototype")),
        ("status", s("active")),
        ("priority", Value::Int(10)),
        ("tags", Value::List(vec![s("hardware"), Value::Int(3), s("bellflower")])),
    ]);
    assert_eq!(a.id(), Some("BL-001"));
    assert_eq!(a.title(), Some("Build prototype"));
    assert_eq!(a.status(), Some("active"));
    assert_eq!(a.priority(), Some(10));
    assert_eq!(a.get_list("tags"), vec!["hardware", "bellflower"]);
    assert_eq!(a.get_list("missing"), Vec::<String>::new());
    assert_eq!(a.get_str("priority"), None);
}

#[test]
fn test_parse_artifact() {
    let content = r#"---
id: BL-001
title: Build prototype
status: active
priority: 10
tags: [hardware, bellflower]
created: 2026-04-01
---

## Context

This is the body.
"#;
    let artifact = Artifact::from_str(content, "test.md".to_string());
    assert_eq!(artifact.id(), Some("BL-001"));
    assert_eq!(artifact.title(), Some("Build prototype"));
    assert_eq!(artifact.status(), Some("active"));
    assert_eq!(artifact.priority(), Some(10));
    assert_eq!(artifact.get_list("tags"), vec!["hardware", "bellflower"]);
    assert!(artifact.body.contains("This is the body."));
    assert_eq!(artifact.raw, content);
}

#[test]
fn test_parse_no_frontmatter() {
    let content = "Just a plain markdown file.\n";
    let artifact = Artifact::from_str(content, "test.md".to_string());
    assert!(artifact.frontmatter.entries.is_empty());
    assert!(artifact.body.contains("Just a plain markdown file."));
}

#[test]
fn test_roundtrip_markdown() {
    let content = r#"---
id: BL-001
title: Test task
status: backlog
priority: 10
---

## Context

Some body text.
"#;
    let artifact = Artifact::from_str(content, "test.md".to_string());
    let output = artifact.to_markdown();
    let reparsed = Artifact::from_str(&output, "test.md".to_string());
    assert_eq!(reparsed.id(), Some("BL-001"));
    assert_eq!(reparsed.title(), Some("Test task"));
    assert_eq!(reparsed.status(), Some("backlog"));
    assert_eq!(reparsed.priority(), Some(10));
    assert!(output.starts_with("---\nid: BL-001\ntitle: Test task\nstatus: backlog\npriority: 10\n---\n"));
}

#[test]
fn test_roundtrip_title_with_colon() {
    let content = r#"---
id: BL-001
title: "Something: with a colon"
status: backlog
priority: 10
---

Body here.
"#;
    let artifact = Artifact::from_str(content, "test.md".to_string());
    assert_eq!(artifact.title(), Some("Something: with a colon"));
    let output = artifact.to_markdown();
    let reparsed = Artifact::from_str(&output, "test.md".to_string());
    assert_eq!(reparsed.title(), Some("Something: with a colon"));
}

#[test]
fn show_value_adds_the_body() {
    let artifact = Artifact::from_str("---\nid: X-1\n---\nText\n", "x.md".to_string());
    match artifact.show_value() {
        ark::value::Value::Object(es) => {
            assert_eq!(es.len(), 2);
            assert_eq!(es[1].0, "body");
        }
        _ => panic!("expected an object"),
    }
}

#[test]
fn a_slug_is_its_own_slug() {
    for t in ["Build Bellflower Prototype", "Fix bug #42", "  lots   of   spaces  ", "already-a-slug", ""] {
        let s = slugify(t);
        assert_eq!(slugify(&s), s);
    }
}

#[test]
fn ids_are_left_until_the_largest_number_is_taken() {
    let a = artifact_with(&[("id", Value::Str("BL-4294967295".to_string()))]);
    let b = artifact_with(&[("id", Value::Str("BL-007".to_string()))]);
    assert!(!ark::artifact::ids_left(&vec![a], "BL"));
    assert!(ark::artifact::ids_left(&vec![b], "BL"));
    assert!(ark::artifact::ids_left(&vec![], "BL"));
}
