use zed_prj_workspace::settings::{
    cleanup_stale_project_name, cleanup_stale_project_names, find_primary_root,
    format_project_name, parse_project_name, read_project_name, settings_file,
    split_project_name, workspace_file_for_name, write_project_name, write_project_name_to_roots,
    Cleanup,
};

fn texts(v: &[&str]) -> Vec<String> {
    v.iter().map(|t| t.to_string()).collect()
}

#[test]
fn parse_current_format() {
    let (id, name) = parse_project_name("117:zed-project-workspace");
    assert_eq!(id, Some(117));
    assert_eq!(name, "zed-project-workspace");
}

#[test]
fn parse_v1_format() {
    let (id, name) = parse_project_name("97:my-project.code-workspace");
    assert_eq!(id, Some(97));
    assert_eq!(name, "my-project");
}

#[test]
fn parse_clean_name_no_id() {
    let (id, name) = parse_project_name("my-project");
    assert_eq!(id, None);
    assert_eq!(name, "my-project");
}

#[test]
fn parse_name_with_colon_but_not_id() {
    let (id, name) = parse_project_name("foo:bar");
    assert_eq!(id, None);
    assert_eq!(name, "foo:bar");
}

#[test]
fn format_roundtrip() {
    let formatted = format_project_name(117, "zed-project-workspace");
    assert_eq!(formatted, "117:zed-project-workspace");
    let (id, name) = parse_project_name(&formatted);
    assert_eq!(id, Some(117));
    assert_eq!(name, "zed-project-workspace");
}

#[test]
fn workspace_file_path() {
    let path = workspace_file_for_name("/home/user/codes/my-project", "my-project");
    assert_eq!(path, "/home/user/codes/my-project/my-project.code-workspace");
}

#[test]
fn write_and_read_project_name() {
    let content = write_project_name(None, "117:my-project");

    let raw = read_project_name(&content).unwrap();
    assert_eq!(raw, "117:my-project");
}

#[test]
fn write_preserves_existing_keys() {
    let content = write_project_name(Some(r#"{"tab_size": 4, "theme": "dark"}"#), "42:test");

    let value: serde_json::Value = serde_json::from_str(&content).unwrap();
    assert_eq!(value["project_name"], "42:test");
    assert_eq!(value["tab_size"], 4);
    assert_eq!(value["theme"], "dark");
}

/// Every other entry stays as it is, however deep it goes, and none comes up.
#[test]
fn write_keeps_all_other_entries() {
    let deep = format!("{}1.5{}", "[".repeat(100), "]".repeat(100));
    let content = format!(
        "{{\"deep\": {}, \"list\": [{{\"a\": null}}, -3, true], \"n\": 0.25}}",
        deep
    );
    let before: serde_json::Map<String, serde_json::Value> =
        serde_json::from_str(&content).unwrap();
    let written = write_project_name(Some(&content), "5:p");
    let mut after: serde_json::Map<String, serde_json::Value> =
        serde_json::from_str(&written).unwrap();
    assert_eq!(after.remove("project_name").unwrap(), "5:p");
    assert_eq!(after, before);
}

#[test]
fn write_overwrites_existing_project_name() {
    let first = write_project_name(None, "10:old-name");
    let second = write_project_name(Some(&first), "20:new-name");

    let raw = read_project_name(&second).unwrap();
    assert_eq!(raw, "20:new-name");
}

#[test]
fn write_to_multiple_roots() {
    let contents = write_project_name_to_roots(&[None, None], "99:shared");

    assert_eq!(contents.len(), 2);
    assert_eq!(read_project_name(&contents[0]).unwrap(), "99:shared");
    assert_eq!(read_project_name(&contents[1]).unwrap(), "99:shared");
}

#[test]
fn read_no_project_name_field() {
    assert!(read_project_name(r#"{"tab_size": 4}"#).is_none());
}

#[test]
fn read_refuses_other_texts() {
    assert!(read_project_name("not json").is_none());
    assert!(read_project_name("[1]").is_none());
    assert!(read_project_name(r#"{"project_name": 7}"#).is_none());
}

#[test]
fn write_starts_over_on_other_texts() {
    let content = write_project_name(Some("// comment"), "1:a");
    assert_eq!(content, "{\n  \"project_name\": \"1:a\"\n}");
    let content = write_project_name(Some("[]"), "1:a");
    assert_eq!(content, "{\n  \"project_name\": \"1:a\"\n}");
}

#[test]
fn negative_and_extreme_ids() {
    assert_eq!(format_project_name(-5, "x"), "-5:x");
    assert_eq!(parse_project_name("-5:x"), (Some(-5), "x".to_string()));
    let least = format_project_name(i64::MIN, "x");
    assert_eq!(least, "-9223372036854775808:x");
    assert_eq!(parse_project_name(&least).0, Some(i64::MIN));
    assert_eq!(parse_project_name("9223372036854775808:x").0, None);
    assert_eq!(parse_project_name(":x"), (None, ":x".to_string()));
}

#[test]
fn split_keeps_the_suffix() {
    assert_eq!(split_project_name("7:a:b.code-workspace"), Some((7, "a:b.code-workspace".to_string())));
    assert_eq!(split_project_name("a:b"), None);
}

#[test]
fn settings_lie_below_zed() {
    assert_eq!(settings_file("/p"), "/p/.zed/settings.json");
}

#[test]
fn primary_root_needs_name_or_file() {
    let roots = texts(&["/x/other", "/x/proj"]);
    assert_eq!(find_primary_root(&roots, "3:proj", &[false, true]), Some("/x/proj"));
    assert_eq!(find_primary_root(&roots, "3:none", &[false, false]), None);
}

#[test]
fn cleanup_keeps_the_primary_root() {
    let content = r#"{"project_name": "3:proj"}"#;
    assert!(matches!(cleanup_stale_project_name("/x/proj", "/x/proj", Some(content)), Cleanup::Keep));
    assert!(matches!(cleanup_stale_project_name("/x/a", "/x/proj", None), Cleanup::Keep));
    assert!(matches!(cleanup_stale_project_name("/x/a", "/x/proj", Some("no json")), Cleanup::Keep));
    assert!(matches!(
        cleanup_stale_project_name("/x/a", "/x/proj", Some(r#"{"tab_size": 4}"#)),
        Cleanup::Keep
    ));
}

#[test]
fn cleanup_removes_what_is_left_empty() {
    let content = r#"{"project_name": "3:proj"}"#;
    assert!(matches!(
        cleanup_stale_project_name("/x/a", "/x/proj", Some(content)),
        Cleanup::RemoveFile
    ));
    match cleanup_stale_project_name(
        "/x/a",
        "/x/proj",
        Some(r#"{"project_name": "3:proj", "theme": "dark"}"#),
    ) {
        Cleanup::Rewrite(t) => assert_eq!(t, "{\n  \"theme\": \"dark\"\n}"),
        other => panic!("{:?}", other),
    }
}

#[test]
fn cleanup_of_several_roots() {
    let roots = texts(&["/x/a", "/x/proj"]);
    let content = Some(r#"{"project_name": "3:proj"}"#.to_string());
    let all = cleanup_stale_project_names(&roots, "/x/proj", &[content.clone(), content]);
    assert_eq!(all.len(), 2);
    assert!(matches!(all[0], Cleanup::RemoveFile));
    assert!(matches!(all[1], Cleanup::Keep));
}
