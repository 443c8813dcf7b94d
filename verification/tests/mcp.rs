use zed_prj_workspace::hook_client::FolderCommand;
use zed_prj_workspace::mapping::WorkspaceMapping;
use zed_prj_workspace::mcp::{
    discover_roots, invocation_status, is_parent_zed, parent_is_gone, parse_pids, resolve_channel,
    try_db_lookup, try_pin_target_root, workspace_bootstrap, workspace_folders_add,
    workspace_folders_list, workspace_folders_remove, workspace_folders_reorder, workspace_open,
    workspace_status, OpenPlan, ReorderError,
};
use zed_prj_workspace::workspace_db::Lookup;
use zed_prj_workspace::workspace_file::{CodeWorkspaceFile, Error, WorkspaceFolder};

fn texts(v: &[&str]) -> Vec<String> {
    v.iter().map(|t| t.to_string()).collect()
}

fn file_with(folders: &[&str]) -> CodeWorkspaceFile {
    CodeWorkspaceFile {
        folders: folders
            .iter()
            .map(|p| WorkspaceFolder { path: p.to_string(), name: None })
            .collect(),
        extra: serde_json::Map::new(),
    }
}

fn paths_of(ws: &CodeWorkspaceFile) -> Vec<String> {
    ws.folders.iter().map(|f| f.path.clone()).collect()
}

const FILE: &str = "/p/p.code-workspace";

#[test]
fn folders_are_added_at_a_position() {
    let mut ws = file_with(&["a", "b"]);
    assert_eq!(workspace_folders_add(&mut ws, FILE, "/p/c", Some(1)).unwrap(), true);
    assert_eq!(paths_of(&ws), texts(&["a", "c", "b"]));
    assert_eq!(workspace_folders_add(&mut ws, FILE, "/p/d", Some(99)).unwrap(), true);
    assert_eq!(workspace_folders_add(&mut ws, FILE, "/p/e", None).unwrap(), true);
    assert_eq!(paths_of(&ws), texts(&["a", "c", "b", "d", "e"]));
    assert_eq!(workspace_folders_add(&mut ws, FILE, "/p/x/../a", Some(0)).unwrap(), false);
    assert_eq!(ws.folders.len(), 5);
    assert!(matches!(workspace_folders_add(&mut ws, "/", "/q", None), Err(Error::NoParentDir)));
}

#[test]
fn folders_are_compared() {
    let status = workspace_folders_list(&texts(&["/a", "/b"]), &texts(&["/b", "/a"]));
    assert!(status.membership_match && !status.order_match && !status.in_sync);
    let status = workspace_folders_list(&texts(&["/a", "/b"]), &texts(&["/a", "/c"]));
    assert!(!status.membership_match);
    assert_eq!(status.added_in_zed, texts(&["/c"]));
    assert_eq!(status.removed_in_zed, texts(&["/b"]));
    assert!(workspace_folders_list(&texts(&["/a"]), &texts(&["/a/."])).in_sync);
}

#[test]
fn folders_are_reordered() {
    let mut ws = file_with(&["a", "b"]);
    workspace_folders_reorder(&mut ws, FILE, &texts(&["/p/b", "/p/a"])).unwrap();
    assert_eq!(paths_of(&ws), texts(&["b", "a"]));
    let other = workspace_folders_reorder(&mut ws, FILE, &texts(&["/p/b"]));
    assert_eq!(other, Err(ReorderError::OtherFolders));
    assert_eq!(paths_of(&ws), texts(&["b", "a"]));
    assert_eq!(workspace_folders_reorder(&mut ws, "/", &[]), Err(ReorderError::NoParentDir));
    assert_eq!(
        ReorderError::OtherFolders.message(),
        "new order must contain exactly the same folders as the current workspace"
    );
    assert_eq!(ReorderError::NoParentDir.message(), "workspace file has no parent directory");
}

#[test]
fn folders_are_removed() {
    let mut ws = file_with(&["a", "b"]);
    let left = workspace_folders_remove(&mut ws, FILE, "/p/a").unwrap();
    assert_eq!(left, Some(texts(&["/p/b"])));
    assert_eq!(workspace_folders_remove(&mut ws, FILE, "/p/a").unwrap(), None);
    assert!(workspace_folders_remove(&mut ws, "/", "/p/a").is_err());
}

#[test]
fn lookups_for_a_workspace_file() {
    let folders = texts(&["/b", "/a"]);
    assert_eq!(
        try_db_lookup(Some("5:p"), Some(6), &folders),
        vec![
            Lookup::ById(5),
            Lookup::ById(6),
            Lookup::ByPaths("/a\n/b".to_string()),
            Lookup::ByFolder("/b".to_string()),
        ]
    );
    assert_eq!(
        try_db_lookup(Some("p"), None, &[]),
        vec![Lookup::ByPaths(String::new())]
    );
}

#[test]
fn target_roots_are_pinned() {
    let folders = texts(&["/p/a", "/p/t"]);
    let i = try_pin_target_root(&folders, "5:t", &[], Some("stable")).unwrap();
    assert_eq!(i.command, FolderCommand::Reuse);
    assert_eq!(i.paths, texts(&["/p/t", "/p/a"]));
    assert!(try_pin_target_root(&folders, "5:a", &[], None).is_none());
    assert!(try_pin_target_root(&folders, "5:x", &[], None).is_none());
}

#[test]
fn channels() {
    let m = WorkspaceMapping::new(1, "x", None);
    let db = Some("/d/0-stable/db.sqlite");
    assert_eq!(resolve_channel(Some(&m), db), None);
    assert_eq!(resolve_channel(None, db).as_deref(), Some("stable"));
}

#[test]
fn invocations_in_words() {
    assert_eq!(invocation_status(Some(true), ""), "ok (hook)");
    assert_eq!(invocation_status(Some(false), ""), "ok (cli)");
    assert_eq!(invocation_status(None, "why"), "failed: why");
}

#[test]
fn opening_by_mode() {
    let folders = texts(&["/a", "/b"]);
    assert_eq!(workspace_open(None, &[], None).unwrap_err(), "workspace file has no folders");
    match workspace_open(Some("add"), &folders, None).unwrap() {
        OpenPlan::Invoke(i) => {
            assert_eq!((i.command, i.paths), (FolderCommand::Add, folders.clone()));
        }
        other => panic!("{:?}", other),
    }
    match workspace_open(Some("reuse"), &folders, None).unwrap() {
        OpenPlan::Invoke(i) => {
            assert_eq!((i.command, i.paths), (FolderCommand::Reuse, folders.clone()));
        }
        other => panic!("{:?}", other),
    }
    for mode in [None, Some("new_window"), Some("odd")] {
        match workspace_open(mode, &folders, Some("preview")).unwrap() {
            OpenPlan::NewWindow { program, args } => {
                assert_eq!(program, "zed-preview");
                assert_eq!(args, folders);
            }
            other => panic!("{:?}", other),
        }
    }
}

#[test]
fn new_workspace_files() {
    assert_eq!(workspace_bootstrap(&[], None).unwrap_err(), "folder_paths cannot be empty");
    let plan = workspace_bootstrap(&texts(&["/w/p", "/w/q"]), None).unwrap();
    assert_eq!(plan.name, "p");
    assert_eq!(plan.path, "/w/p/p.code-workspace");
    assert_eq!(plan.folders[0].path, ".");
    assert_eq!(plan.folders[1].path, "../q");
    let plan = workspace_bootstrap(&texts(&["/w/p"]), Some("n")).unwrap();
    assert_eq!(plan.path, "/w/p/n.code-workspace");
}

#[test]
fn roots_to_discover() {
    assert_eq!(discover_roots(Some(texts(&["/a"])), Some("/b")), Some(texts(&["/a"])));
    assert_eq!(discover_roots(None, Some("/b")), Some(texts(&["/b"])));
    assert_eq!(discover_roots(None, None), None);
}

#[test]
fn status_of_zed() {
    assert_eq!(workspace_status(true, false, false), (true, false));
    assert_eq!(workspace_status(true, true, false), (true, true));
    assert_eq!(workspace_status(false, true, true), (true, false));
    assert_eq!(workspace_status(false, false, false), (false, false));
}

#[test]
fn process_lists() {
    assert_eq!(parse_pids("12\n 13 \nx\n14\n4294967296\n", 13), vec![12, 14]);
    assert!(parse_pids("", 1).is_empty());
}

#[test]
fn parents() {
    assert!(is_parent_zed("  501 /Applications/Zed.app/Contents/MacOS/zed\n"));
    assert!(is_parent_zed("501 Zed Preview"));
    assert!(!is_parent_zed("1 zed"));
    assert!(!is_parent_zed("0 zed"));
    assert!(!is_parent_zed("501 bash"));
    assert!(!is_parent_zed("zed"));
    assert!(!is_parent_zed(" \n"));
    assert!(parent_is_gone(5, 6));
    assert!(parent_is_gone(1, 1));
    assert!(!parent_is_gone(5, 5));
}
