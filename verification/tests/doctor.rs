use zed_prj_workspace::doctor::{
    folder_paths, paths_in, run_doctor, Database, Finding, Found,
};

fn lines(finding: Finding) -> Vec<String> {
    let report = run_doctor(&finding);
    assert_eq!(report.failure, None);
    report.lines
}

fn failure(finding: Finding) -> String {
    run_doctor(&finding).failure.unwrap()
}

fn text(t: &str) -> String {
    t.to_string()
}

#[test]
fn process_check() {
    let found = |running| Finding::Process { app: text("/Applications/Zed.app"), running };
    assert_eq!(
        lines(found(true)),
        vec!["[1] Checking target app process...", "  /Applications/Zed.app is running"]
    );
    assert_eq!(failure(found(false)), "/Applications/Zed.app is not running. Start it first.");
}

#[test]
fn log_check() {
    assert_eq!(
        lines(Finding::Log(None)),
        vec!["[2] Checking hook log...", "  WARNING: no hook log found"]
    );
    let content = Ok(text("1\n2\n3\n4\n5\n6\n"));
    let shown = lines(Finding::Log(Some(Found { path: text("/l"), content })));
    assert_eq!(shown[1..], ["  Hook log: /l", "  2", "  3", "  4", "  5", "  6"]);
    let content = Err(text("denied"));
    let shown = lines(Finding::Log(Some(Found { path: text("/l"), content })));
    assert_eq!(shown[2], "  WARNING: failed to read log: denied");
}

#[test]
fn program_and_answer_checks() {
    let found = |size| Finding::Program { path: text("/b"), size };
    assert_eq!(lines(found(Some(12)))[1], "  Binary: /b (12 bytes)");
    assert_eq!(
        failure(found(None)),
        "MCP binary not found at /b\nRun: cargo build --release -p zed-prj-workspace-mcp"
    );
    assert_eq!(lines(Finding::Answer(Some(text("{}"))))[1], "  {}");
    assert_eq!(lines(Finding::Answer(None))[1], "  (MCP timeout or no result payload)");
}

#[test]
fn mapping_and_workspace_checks() {
    let mapping = |read| Finding::Mapping { path: text("/m"), read };
    assert_eq!(lines(mapping(None))[1], "  NOT FOUND: /m");
    assert_eq!(lines(mapping(Some(Ok(text("{}")))))[1..], ["  FOUND: /m", "  {}"]);
    let unread = lines(mapping(Some(Err(text("denied")))));
    assert_eq!(unread[2], "  WARNING: cannot read mapping file: denied");
    let workspace = |content| Finding::Workspace { path: text("/w"), content };
    assert_eq!(lines(workspace(None))[1], "  NOT FOUND: /w");
    let content = Some(Ok(text(r#"{"folders": [{"path": "a"}, {"name": "n"}, {"path": "b"}]}"#)));
    assert_eq!(lines(workspace(content))[1..], ["  File: /w", "  Folders: 3", "  a", "  b"]);
    assert_eq!(lines(workspace(Some(Ok(text("[]")))))[1..], ["  File: /w", "  Folders: 0"]);
    assert_eq!(failure(workspace(Some(Err(text("denied"))))), "failed to read /w: denied");
    let why = failure(workspace(Some(Ok(text("{")))));
    assert!(why.starts_with("invalid json in /w: EOF while parsing"), "{}", why);
}

#[test]
fn paths_of_folders() {
    let content = r#"{"folders": [{"path": "a"}, "b", {"path": 7}, {"name": "n"}], "x": 1}"#;
    let paths = vec![Some(text("a")), None, None, None];
    assert_eq!(folder_paths(content).unwrap(), paths);
    let file: serde_json::Map<String, serde_json::Value> = serde_json::from_str(content).unwrap();
    assert_eq!(paths_in(Some(&file)), paths);
    for empty in ["{}", r#"{"folders": {"path": "a"}}"#, "[1]", "null"] {
        assert_eq!(folder_paths(empty).unwrap(), vec![]);
    }
    assert_eq!(paths_in(None), vec![]);
    assert!(folder_paths("folders").is_err());
}

#[test]
fn database_check() {
    let found = |d| lines(Finding::Database(d));
    assert_eq!(found(Database::NoProgram)[1], "  sqlite3 not found; skip DB query");
    assert_eq!(found(Database::NoFile)[1], "  DB not found");
    let asked = |rows| found(Database::Asked { path: text("/d"), rows });
    assert_eq!(asked(Ok(text("1|/a|\n")))[1..], ["  DB: /d", "  1|/a|"]);
    assert_eq!(asked(Ok(text(" \n")))[2], "  (no rows)");
    assert_eq!(asked(Err(text(" locked\n")))[2], "  WARNING: sqlite3 query failed: locked");
}
