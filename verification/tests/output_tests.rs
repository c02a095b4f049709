use ark::output::{render_json, render_pretty, render_table, render_tsv, upper_headers, OutputFormat};

#[test]
fn output_test_tsv_output() {
    let headers = &["id", "title"];
    let rows = vec![vec!["BL-001".to_string(), "Test".to_string()]];
    let output = render_tsv(headers, &rows);
    assert_eq!(output, "id\ttitle\nBL-001\tTest");
}

#[test]
fn test_json_output() {
    let headers = &["id", "title"];
    let rows = vec![vec!["BL-001".to_string(), "Test".to_string()]];
    let output = render_json(headers, &rows);
    let parsed: Vec<serde_json::Map<String, serde_json::Value>> = serde_json::from_str(&output).unwrap();
    assert_eq!(parsed[0]["id"], "BL-001");
    assert_eq!(parsed[0]["title"], "Test");
}

#[test]
fn test_empty_pretty() {
    let headers = &["id", "title"];
    let rows: Vec<Vec<String>> = vec![];
    let output = render_pretty(headers, &rows, None);
    assert!(output.is_empty());
}

#[test]
fn tsv_with_no_rows_is_the_header_line() {
    let rows: Vec<Vec<String>> = vec![];
    assert_eq!(render_table(&["a", "b"], &rows, OutputFormat::Tsv, None), "a\tb");
}

#[test]
fn pretty_table_uppercases_headers() {
    let rows = vec![vec!["BL-001".to_string()]];
    let out = render_table(&["id"], &rows, OutputFormat::Pretty, None);
    assert!(out.contains("ID"));
    assert!(out.contains("BL-001"));
}

#[test]
fn pretty_table_is_framed_by_its_borders() {
    let rows = vec![vec!["BL-001".to_string(), "Build it".to_string()]];
    let out = render_pretty(&["id", "title"], &rows, None);
    assert!(out.starts_with('┌'));
    assert!(out.ends_with('┘'));
    assert!(out.contains('\n'));
    assert!(out.contains("ID"));
    assert!(out.contains("Build it"));
}

#[test]
fn pretty_table_has_a_junction_between_each_two_columns() {
    let rows = vec![
        vec!["BL-001".to_string(), "Build it".to_string()],
        vec!["BL-002".to_string(), "Ship it".to_string(), "extra".to_string()],
    ];
    let out = render_pretty(&["id", "title"], &rows, None);
    let lines: Vec<&str> = out.split('\n').collect();
    assert_eq!(lines[0].matches('┬').count(), 2);
    assert_eq!(lines[lines.len() - 1].matches('┴').count(), 2);
    assert!(lines.len() >= rows.len() + 4);
}

#[test]
fn pretty_table_shows_upper_case_headers_and_the_rows_as_given() {
    assert_eq!(upper_headers(&["id", "title"]), vec!["ID".to_string(), "TITLE".to_string()]);
    let rows = vec![vec!["BL-001".to_string(), "Build it".to_string()]];
    let out = render_pretty(&["id", "title"], &rows, None);
    let expected = "┌────────┬──────────┐\n│ ID     ┆ TITLE    │\n╞════════╪══════════╡\n│ BL-001 ┆ Build it │\n└────────┴──────────┘";
    assert_eq!(out, expected);
    let narrow = render_pretty(&["id", "title"], &vec![vec!["BL-001".to_string(), "one two three four five six".to_string()]], Some(24));
    assert!(narrow.split('\n').count() > 5);
    assert!(narrow.split('\n').all(|l| l.chars().count() <= 24));
}
