use zed_prj_workspace::discovery::DiscoveryResult;
use zed_prj_workspace::mapping::WorkspaceMapping;
use zed_prj_workspace::mcp::workspace_folders_list;
use zed_prj_workspace::report::{
    add_report, bootstrap_report, discovery_report, list_report, open_report, remove_report,
    reorder_report, status_report, sync_report, DbFolders, DbState, FileState,
};

fn texts(v: &[&str]) -> Vec<String> {
    v.iter().map(|t| t.to_string()).collect()
}

fn value(t: &str) -> serde_json::Value {
    serde_json::from_str(t).unwrap()
}

fn list(v: &serde_json::Value) -> Vec<String> {
    v.as_array().unwrap().iter().map(|t| t.as_str().unwrap().to_string()).collect()
}

#[test]
fn list_answers() {
    let file = texts(&["/a", "/b"]);
    let alone = value(&list_report("/w.code-workspace", &file, None));
    assert_eq!(alone["workspace_file"], "/w.code-workspace");
    assert_eq!(list(&alone["file_folders"]), file);
    assert!(alone.get("in_sync").is_none());
    let db = |folders: Vec<String>| {
        let status = workspace_folders_list(&file, &folders);
        Some(DbFolders { workspace_id: -3, folders, status })
    };
    let same = value(&list_report("/w", &file, db(file.clone())));
    assert_eq!(same["in_sync"], true);
    assert_eq!(same["workspace_id"], -3);
    assert!(same.get("added_in_zed").is_none());
    let other = value(&list_report("/w", &file, db(texts(&["/a", "/c"]))));
    assert_eq!(other["membership_match"], false);
    assert_eq!(list(&other["added_in_zed"]), texts(&["/c"]));
    assert_eq!(list(&other["removed_in_zed"]), texts(&["/b"]));
}

#[test]
fn add_and_remove_answers() {
    let added = value(&add_report("/a", Some("ok (cli)")));
    assert_eq!((&added["added"], &added["zed_add_result"]), (&true.into(), &"ok (cli)".into()));
    let there = value(&add_report("/a", None));
    assert_eq!(there["reason"], "folder already in workspace");
    let removed = value(&remove_report("/a", Some(texts(&["/b"])), None));
    assert_eq!(removed["pending_restart"], true);
    assert_eq!(list(&removed["remaining_folders"]), texts(&["/b"]));
    let reconciled = value(&remove_report("/a", Some(vec![]), Some("failed: no paths for reuse")));
    assert_eq!(reconciled["reconcile"], "failed: no paths for reuse");
    assert!(reconciled.get("hint").is_none());
    assert_eq!(value(&remove_report("/a", None, None))["removed"], false);
}

#[test]
fn sync_and_reorder_answers() {
    let s = value(&sync_report(
        "zed_to_file",
        texts(&["ReorderFile"]),
        true,
        false,
        true,
        texts(&["/a"]),
        texts(&["/b"]),
    ));
    assert_eq!(s["direction"], "zed_to_file");
    assert_eq!(s["reordered"], true);
    assert_eq!(s["pinned"], false);
    assert_eq!(s["conflict"], true);
    assert_eq!(list(&s["actions_taken"]), texts(&["ReorderFile"]));
    assert_eq!(list(&s["file_folders_after"]), texts(&["/a"]));
    assert_eq!(list(&s["db_folders"]), texts(&["/b"]));
    let r = reorder_report(&texts(&["/b", "/a"]));
    assert_eq!(r, "{\n  \"new_order\": [\n    \"/b\",\n    \"/a\"\n  ],\n  \"reordered\": true\n}");
}

#[test]
fn discovery_answers() {
    let d = DiscoveryResult {
        workspace_id: 5,
        project_name: "p".to_string(),
        workspace_file: "/p/p.code-workspace".to_string(),
        mapping: WorkspaceMapping::new(5, "p.code-workspace", None),
        db_path: "/db".to_string(),
        zed_channel: None,
    };
    let v = value(&discovery_report(&d, &texts(&["/p"])));
    assert_eq!(v["workspace_id"], 5);
    assert_eq!(v["zed_channel"], serde_json::Value::Null);
    assert_eq!(v["mapping"]["workspace_file"], "p.code-workspace");
    assert_eq!(v["mapping"]["last_sync_ts"], serde_json::Value::Null);
    assert_eq!(list(&v["roots"]), texts(&["/p"]));
}

#[test]
fn status_answers() {
    let found = DbState::Found {
        path: "/db".to_string(),
        channel: Some("stable".to_string()),
        accessible: true,
    };
    assert_eq!(found.hook_channel(), "stable");
    let file = FileState {
        path: "/w".to_string(),
        exists: true,
        mapping: Some(WorkspaceMapping::new(2, "w", Some("stable"))),
    };
    let v = value(&status_report(found, true, false, Some(file)));
    assert_eq!(v["db_accessible"], true);
    assert_eq!(v["hook_available"], false);
    assert_eq!(v["mapping"]["workspace_id"], 2);
    assert_eq!(v["mapping"]["zed_channel"], "stable");
    let missing = DbState::Missing { error: "none".to_string() };
    assert_eq!(missing.hook_channel(), "preview");
    let v = value(&status_report(missing, false, false, None));
    assert_eq!(v["db_error"], "none");
    assert!(v.get("mapping").is_none());
    let unmapped = FileState { path: "/w".to_string(), exists: false, mapping: None };
    let missing = DbState::Missing { error: "none".to_string() };
    let v = value(&status_report(missing, false, false, Some(unmapped)));
    assert_eq!(v["mapping"], serde_json::Value::Null);
}

#[test]
fn open_and_bootstrap_answers() {
    let v = value(&open_report(None, &texts(&["/a"]), true, Some(0)));
    assert_eq!(v["mode"], "new_window");
    assert_eq!(v["exit_code"], 0);
    let v = value(&open_report(Some("add"), &[], false, None));
    assert_eq!(v["exit_code"], serde_json::Value::Null);
    let v = value(&bootstrap_report("/p/n.code-workspace", "n", &texts(&["/p"]), Some(4)));
    assert_eq!(v["mapping"]["workspace_id"], 4);
    assert_eq!(v["mapping"]["mapping_created"], true);
    let v = value(&bootstrap_report("/p/n.code-workspace", "n", &texts(&["/p"]), None));
    assert_eq!(v["mapping"], serde_json::Value::Null);
    assert_eq!(v["workspace_name"], "n");
}
