use zed_prj_workspace::mapping::{
    channel_from_db_path, detect_zed_channel, find_hook_socket, hook_socket_path, zed_cli_command,
    FoundFile, WorkspaceMapping, MAPPING_FILENAME,
};

fn texts(v: &[&str]) -> Vec<String> {
    v.iter().map(|t| t.to_string()).collect()
}

#[test]
fn new_mapping() {
    let m = WorkspaceMapping::new(110, "my-project.code-workspace", Some("preview"));
    assert_eq!(m.workspace_id, 110);
    assert_eq!(m.workspace_file, "my-project.code-workspace");
    assert_eq!(m.zed_channel.as_deref(), Some("preview"));
    assert!(m.last_sync_ts.is_none());
}

#[test]
fn resolve_relative() {
    let m = WorkspaceMapping::new(1, "project.code-workspace", None);
    let resolved = m.resolve_workspace_file("/home/user/codes/myproject");
    assert_eq!(resolved, "/home/user/codes/myproject/project.code-workspace");
}

#[test]
fn resolve_parent_relative() {
    let m = WorkspaceMapping::new(1, "../shared.code-workspace", None);
    let resolved = m.resolve_workspace_file("/home/user/codes/myproject");
    assert_eq!(resolved, "/home/user/codes/myproject/../shared.code-workspace");
}

#[test]
fn file_path_correct() {
    let path = WorkspaceMapping::file_path("/home/user/project");
    assert_eq!(path, "/home/user/project/.zed/zed-project-workspace.json");
    assert_eq!(MAPPING_FILENAME, "zed-project-workspace.json");
}

#[test]
fn channel_from_db_path_preview() {
    assert_eq!(
        channel_from_db_path("/Users/x/Library/Application Support/Zed/db/0-preview/db.sqlite"),
        Some("preview".to_string())
    );
}

#[test]
fn channel_from_db_path_stable() {
    assert_eq!(
        channel_from_db_path("/Users/x/Library/Application Support/Zed/db/0-stable/db.sqlite"),
        Some("stable".to_string())
    );
}

#[test]
fn channel_from_db_path_unknown() {
    assert_eq!(channel_from_db_path("/tmp/db.sqlite"), None);
}

#[test]
fn zed_cli_command_preview() {
    assert_eq!(zed_cli_command(Some("preview")), "zed-preview");
}

#[test]
fn zed_cli_command_stable() {
    assert_eq!(zed_cli_command(Some("stable")), "zed");
}

#[test]
fn zed_cli_command_none() {
    assert_eq!(zed_cli_command(None), "zed");
}

#[test]
fn hook_socket_path_format() {
    let p = hook_socket_path("preview", 12345);
    assert_eq!(p, "/tmp/zed-prj-workspace-preview-12345.sock");
}

#[test]
fn channel_from_executable() {
    let preview = "/Applications/Zed Preview.app/Contents/MacOS/zed";
    assert_eq!(detect_zed_channel(preview).as_deref(), Some("preview"));
    assert_eq!(detect_zed_channel("/usr/bin/zed-preview").as_deref(), Some("preview"));
    let stable = "/Applications/Zed.app/Contents/MacOS/zed";
    assert_eq!(detect_zed_channel(stable).as_deref(), Some("stable"));
    assert_eq!(detect_zed_channel("/opt/zed-stable/zed").as_deref(), Some("stable"));
    assert_eq!(detect_zed_channel("/usr/bin/zed"), None);
}

#[test]
fn touching_sets_the_current_time() {
    let mut m = WorkspaceMapping::new(1, "a.code-workspace", None);
    m.touch_sync_ts();
    let ts = m.last_sync_ts.clone().unwrap();
    let then = chrono::DateTime::parse_from_rfc3339(&ts).unwrap();
    let age = chrono::Utc::now().signed_duration_since(then);
    assert!(age.num_seconds() >= 0 && age.num_seconds() < 60);
    m.set_sync_ts("then".to_string());
    assert_eq!(m.last_sync_ts.as_deref(), Some("then"));
}

#[test]
fn copies_for_roots_lead_to_the_file() {
    let m = WorkspaceMapping::new(5, "p.code-workspace", Some("stable"));
    let all = m.write_to_roots(&texts(&["/x/p", "/x/q"]), "/x/p/p.code-workspace");
    assert_eq!(all.len(), 2);
    assert_eq!(all[0].workspace_file, "p.code-workspace");
    assert_eq!(all[1].workspace_file, "../p/p.code-workspace");
    assert!(all.iter().all(|c| c.workspace_id == 5 && c.zed_channel.as_deref() == Some("stable")));
}

fn found(path: &str, modified: Option<i128>) -> FoundFile {
    FoundFile { path: path.to_string(), modified }
}

#[test]
fn newest_socket_is_found() {
    let files = [
        found("/tmp/zed-prj-workspace-preview-1.sock", Some(10)),
        found("/tmp/zed-prj-workspace-preview-2.sock", Some(30)),
        found("/tmp/zed-prj-workspace-preview-3.sock", Some(20)),
        found("/tmp/zed-prj-workspace-stable-4.sock", Some(90)),
        found("/tmp/zed-prj-workspace-preview-5.log", Some(90)),
    ];
    assert_eq!(
        find_hook_socket("preview", &files).as_deref(),
        Some("/tmp/zed-prj-workspace-preview-2.sock")
    );
    assert_eq!(find_hook_socket("dev", &files), None);
}

/// The socket of a hook is found among others.
#[test]
fn own_socket_is_found() {
    let own = hook_socket_path("stable", 7);
    let files = [found("/tmp/other.sock", Some(1)), found(&own, None)];
    assert_eq!(find_hook_socket("stable", &files), Some(own));
}
