use zed_prj_workspace::hook_client::FolderCommand;
use zed_prj_workspace::mapping::WorkspaceMapping;
use zed_prj_workspace::sync_engine::{
    compute_sync_actions, execute_sync, invoke_zed_add, invoke_zed_reuse,
    resolve_channel_for_path, stamp_mapping, update_mapping_sync_ts, SyncAction, SyncDirection,
    SyncStamps,
};
use zed_prj_workspace::workspace_file::{CodeWorkspaceFile, Error, WorkspaceFolder};

fn texts(v: &[&str]) -> Vec<String> {
    v.iter().map(|t| t.to_string()).collect()
}

fn file_with(folders: &[&str]) -> CodeWorkspaceFile {
    CodeWorkspaceFile {
        folders: folders
            .iter()
            .map(|p| WorkspaceFolder { path: p.to_string(), name: None })
            .collect(),
        extra: serde_json::Map::new(),
    }
}

const UNKNOWN: SyncStamps = SyncStamps { db: None, file: None, last_sync: None };

#[test]
fn zed_to_file_adds_db_folders_to_file() {
    let file_folders = texts(&["/a", "/b"]);
    let db_folders = texts(&["/a", "/b", "/c"]);
    let actions = compute_sync_actions(&file_folders, &db_folders, SyncDirection::ZedToFile);
    assert_eq!(actions, vec![SyncAction::AddToFile("/c".to_string())]);
}

#[test]
fn zed_to_file_removes_file_only_folders() {
    let file_folders = texts(&["/a", "/b", "/c"]);
    let db_folders = texts(&["/a", "/b"]);
    let actions = compute_sync_actions(&file_folders, &db_folders, SyncDirection::ZedToFile);
    assert_eq!(actions, vec![SyncAction::RemoveFromFile("/c".to_string())]);
}

#[test]
fn zed_to_file_detects_reorder() {
    let file_folders = texts(&["/a", "/b", "/c"]);
    let db_folders = texts(&["/c", "/a", "/b"]);
    let actions = compute_sync_actions(&file_folders, &db_folders, SyncDirection::ZedToFile);
    assert_eq!(actions, vec![SyncAction::ReorderFile]);
}

#[test]
fn file_to_zed_adds_file_folders_to_zed() {
    let file_folders = texts(&["/a", "/b", "/c"]);
    let db_folders = texts(&["/a", "/b"]);
    let actions = compute_sync_actions(&file_folders, &db_folders, SyncDirection::FileToZed);
    assert_eq!(actions, vec![SyncAction::InvokeCliAdd("/c".to_string())]);
}

#[test]
fn file_to_zed_marks_db_only_as_pending_removal() {
    let file_folders = texts(&["/a"]);
    let db_folders = texts(&["/a", "/b"]);
    let actions = compute_sync_actions(&file_folders, &db_folders, SyncDirection::FileToZed);
    assert_eq!(actions, vec![SyncAction::PendingRemoval("/b".to_string())]);
}

#[test]
fn bidirectional_merges_both_sides() {
    let file_folders = texts(&["/a", "/file_only"]);
    let db_folders = texts(&["/a", "/db_only"]);
    let actions = compute_sync_actions(&file_folders, &db_folders, SyncDirection::Bidirectional);
    assert_eq!(
        actions,
        vec![
            SyncAction::AddToFile("/db_only".to_string()),
            SyncAction::InvokeCliAdd("/file_only".to_string()),
        ]
    );
}

#[test]
fn no_actions_when_in_sync() {
    let folders = texts(&["/a", "/b"]);
    let actions = compute_sync_actions(&folders, &folders, SyncDirection::Bidirectional);
    assert!(actions.is_empty());
}

#[test]
fn direction_from_str() {
    assert_eq!("file_to_zed".parse::<SyncDirection>().unwrap(), SyncDirection::FileToZed);
    assert_eq!("zed_to_file".parse::<SyncDirection>().unwrap(), SyncDirection::ZedToFile);
    assert_eq!("bidirectional".parse::<SyncDirection>().unwrap(), SyncDirection::Bidirectional);
    assert!("invalid".parse::<SyncDirection>().is_err());
    assert_eq!(SyncDirection::parse("x").unwrap_err(), "unknown sync direction: x");
}

#[test]
fn paths_are_compared_when_normal() {
    let actions = compute_sync_actions(
        &texts(&["/a/./b"]),
        &texts(&["/a/c/../b"]),
        SyncDirection::ZedToFile,
    );
    assert!(actions.is_empty());
}

/// With Zed as the truth the file then names exactly Zed's folders.
#[test]
fn execute_sync_follows_zed() {
    let mut ws = file_with(&["src", "old"]);
    let db = texts(&["/p/src", "/shared"]);
    let done =
        execute_sync(&mut ws, "/p/p.code-workspace", &db, SyncDirection::ZedToFile, UNKNOWN).unwrap();
    assert!(done.file_modified);
    assert!(!done.result.reordered);
    assert!(!done.result.conflict);
    assert_eq!(
        done.result.actions_taken,
        vec![
            SyncAction::AddToFile("/shared".to_string()),
            SyncAction::RemoveFromFile("/p/old".to_string()),
        ]
    );
    assert_eq!(done.result.file_folders_after, db);
    assert_eq!(done.result.db_folders, db);
    assert_eq!(ws.folders.len(), 2);
    assert_eq!(ws.folders[1].path, "../shared");
    let again =
        execute_sync(&mut ws, "/p/p.code-workspace", &db, SyncDirection::ZedToFile, UNKNOWN).unwrap();
    assert!(!again.file_modified);
    assert!(again.result.actions_taken.is_empty());
}

#[test]
fn execute_sync_reorders() {
    let mut ws = file_with(&["a", "b"]);
    let db = texts(&["/p/b", "/p/a"]);
    let done =
        execute_sync(&mut ws, "/p/p.code-workspace", &db, SyncDirection::ZedToFile, UNKNOWN).unwrap();
    assert!(done.file_modified && done.result.reordered);
    assert_eq!(done.result.file_folders_after, db);
}

#[test]
fn execute_sync_leaves_the_file_that_leads() {
    let mut ws = file_with(&["a"]);
    let db = texts(&["/p/b"]);
    let done =
        execute_sync(&mut ws, "/p/p.code-workspace", &db, SyncDirection::FileToZed, UNKNOWN).unwrap();
    assert!(!done.file_modified);
    assert_eq!(
        done.result.actions_taken,
        vec![
            SyncAction::InvokeCliAdd("/p/a".to_string()),
            SyncAction::PendingRemoval("/p/b".to_string()),
        ]
    );
    assert_eq!(ws.folders.len(), 1);
}

#[test]
fn execute_sync_merges() {
    let mut ws = file_with(&["a"]);
    let db = texts(&["/p/b"]);
    let done = execute_sync(
        &mut ws,
        "/p/p.code-workspace",
        &db,
        SyncDirection::Bidirectional,
        UNKNOWN,
    )
    .unwrap();
    assert_eq!(done.result.file_folders_after, texts(&["/p/a", "/p/b"]));
}

#[test]
fn execute_sync_needs_a_directory() {
    let mut ws = file_with(&["a"]);
    let r = execute_sync(&mut ws, "/", &[], SyncDirection::ZedToFile, UNKNOWN);
    assert!(matches!(r, Err(Error::NoParentDir)));
    assert_eq!(ws.folders.len(), 1);
}

#[test]
fn conflict_needs_two_later_changes() {
    let stamps = |db, file, last_sync| SyncStamps { db, file, last_sync };
    assert!(stamps(Some(5), Some(6), Some(4)).conflict());
    assert!(!stamps(Some(5), Some(4), Some(4)).conflict());
    assert!(!stamps(Some(5), Some(6), None).conflict());
    let mut ws = file_with(&[]);
    let done = execute_sync(
        &mut ws,
        "/p/p.code-workspace",
        &[],
        SyncDirection::Bidirectional,
        stamps(Some(5), Some(6), Some(4)),
    )
    .unwrap();
    assert!(done.result.conflict);
}

#[test]
fn channel_comes_from_the_nearest_mapping() {
    let own = WorkspaceMapping::new(1, "a", Some("stable"));
    let parent = WorkspaceMapping::new(1, "a", Some("preview"));
    let db = Some("/db/0-preview/db.sqlite");
    assert_eq!(resolve_channel_for_path(Some(&own), Some(&parent), db).as_deref(), Some("stable"));
    assert_eq!(resolve_channel_for_path(None, Some(&parent), None).as_deref(), Some("preview"));
    assert_eq!(resolve_channel_for_path(None, None, db).as_deref(), Some("preview"));
    assert_eq!(resolve_channel_for_path(None, None, None), None);
}

#[test]
fn commands_for_zed() {
    let add = invoke_zed_add("/a", Some("preview"));
    assert_eq!(add.command, FolderCommand::Add);
    assert_eq!(add.paths, texts(&["/a"]));
    let reuse = invoke_zed_reuse(&texts(&["/a", "/b"]), None).unwrap();
    assert_eq!(reuse.command, FolderCommand::Reuse);
    assert_eq!(reuse.paths, texts(&["/a", "/b"]));
    assert_eq!(invoke_zed_reuse(&[], None).unwrap_err(), "no paths for reuse");
}

#[test]
fn mapping_is_stamped_after_a_sync() {
    let m = WorkspaceMapping::new(9, "a.code-workspace", None);
    let stamped = update_mapping_sync_ts(Some(m)).unwrap();
    assert_eq!(stamped.workspace_id, 9);
    let read = SyncStamps::read(None, None, stamped.last_sync_ts.as_deref());
    let age = chrono::Utc::now().timestamp_millis() - read.last_sync.unwrap();
    assert!((0..60_000).contains(&age));
    let again = stamp_mapping(Some(stamped), "then".to_string()).unwrap();
    assert_eq!((again.workspace_id, again.last_sync_ts.as_deref()), (9, Some("then")));
    assert!(stamp_mapping(None, "then".to_string()).is_none());
    assert!(update_mapping_sync_ts(None).is_none());
}

#[test]
fn stamps_are_read_from_their_texts() {
    let s = SyncStamps::read(Some("1970-01-02 00:00:01"), Some(7), Some("1970-01-01T01:00:00.5+01:00"));
    assert_eq!(s, SyncStamps { db: Some(86_401_000), file: Some(7), last_sync: Some(500) });
    let s = SyncStamps::read(Some("soon"), None, Some("2026-02-28"));
    assert_eq!(s, UNKNOWN);
    assert_eq!(SyncStamps::read(None, None, None), UNKNOWN);
}
