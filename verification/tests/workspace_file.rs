use zed_prj_workspace::workspace_file::{
    diff_folders, folders_match_ordered, folders_match_set, CodeWorkspaceFile, Error,
    WorkspaceFolder,
};

fn texts(v: &[&str]) -> Vec<String> {
    v.iter().map(|t| t.to_string()).collect()
}

fn file_with(folders: &[&str]) -> CodeWorkspaceFile {
    let mut extra = serde_json::Map::new();
    extra.insert("settings".to_string(), serde_json::Value::from(true));
    CodeWorkspaceFile {
        folders: folders
            .iter()
            .map(|p| WorkspaceFolder { path: p.to_string(), name: None })
            .collect(),
        extra,
    }
}

#[test]
fn resolve_relative_paths() {
    let ws = file_with(&[".", "packages/frontend", "../shared"]);
    let resolved = ws.resolve("/projects/my-project.code-workspace").unwrap();
    assert_eq!(resolved.file_path, "/projects/my-project.code-workspace");
    assert_eq!(resolved.folders[0], "/projects");
    assert_eq!(resolved.folders[1], "/projects/packages/frontend");
    assert_eq!(resolved.folders[2], "/shared");
}

#[test]
fn resolve_absolute_paths() {
    let ws = file_with(&["/absolute/path"]);
    let resolved = ws.resolve("/projects/my.code-workspace").unwrap();
    assert_eq!(resolved.folders[0], "/absolute/path");
}

#[test]
fn diff_folders_works() {
    let old = texts(&["/a", "/b", "/c"]);
    let new = texts(&["/b", "/c", "/d"]);
    let diff = diff_folders(&old, &new);
    assert_eq!(diff.added, texts(&["/d"]));
    assert_eq!(diff.removed, texts(&["/a"]));
    assert_eq!(diff.unchanged, texts(&["/b", "/c"]));
}

#[test]
fn add_folder_dedup() {
    let mut ws = file_with(&["src"]);
    let ws_path = "/projects/my.code-workspace";

    let added = ws.add_folder(ws_path, "/projects/src").unwrap();
    assert!(!added);
    assert_eq!(ws.folders.len(), 1);

    let added = ws.add_folder(ws_path, "/projects/tests").unwrap();
    assert!(added);
    assert_eq!(ws.folders.len(), 2);
    assert_eq!(ws.folders[1].path, "tests");
}

#[test]
fn remove_folder_works() {
    let mut ws = file_with(&["src", "tests"]);
    let ws_path = "/projects/my.code-workspace";

    let removed = ws.remove_folder(ws_path, "/projects/src").unwrap();
    assert!(removed);
    assert_eq!(ws.folders.len(), 1);
    assert_eq!(ws.folders[0].path, "tests");
    assert!(!ws.remove_folder(ws_path, "/projects/src").unwrap());
}

/// Removing a folder that was added gives the folders back.
#[test]
fn remove_undoes_add() {
    let mut ws = file_with(&["src", "/x"]);
    let ws_path = "/projects/my.code-workspace";
    assert!(ws.add_folder(ws_path, "/y/z").unwrap());
    assert_eq!(ws.folders[2].path, "../y/z");
    assert!(ws.remove_folder(ws_path, "/y/./z").unwrap());
    assert_eq!(ws.folders.len(), 2);
    assert!(ws.extra.contains_key("settings"));
}

#[test]
fn remove_takes_every_entry_of_the_folder() {
    let mut ws = file_with(&["src", "./src", "/projects/src", "doc"]);
    assert!(ws.remove_folder("/projects/my.code-workspace", "/projects/src").unwrap());
    assert_eq!(ws.folders.len(), 1);
}

#[test]
fn folders_are_set_from_absolute_paths() {
    let mut ws = file_with(&["old"]);
    ws.set_folders_from_absolute("/p/x.code-workspace", &texts(&["/p", "/p/a", "/q"])).unwrap();
    let now: Vec<&str> = ws.folders.iter().map(|f| f.path.as_str()).collect();
    assert_eq!(now, vec![".", "a", "../q"]);
    assert!(ws.extra.contains_key("settings"));
    let resolved = ws.resolve("/p/x.code-workspace").unwrap();
    assert_eq!(resolved.folders, texts(&["/p", "/p/a", "/q"]));
}

#[test]
fn a_file_without_directory_is_refused() {
    let mut ws = file_with(&["a"]);
    assert!(matches!(ws.resolve("/"), Err(Error::NoParentDir)));
    assert!(matches!(ws.add_folder("", "/b"), Err(Error::NoParentDir)));
    assert!(matches!(ws.remove_folder("/", "/b"), Err(Error::NoParentDir)));
    assert!(matches!(ws.set_folders_from_absolute("", &[]), Err(Error::NoParentDir)));
    assert_eq!(ws.folders.len(), 1);
}

#[test]
fn diff_is_sorted_and_without_repeats() {
    let diff = diff_folders(&texts(&["/z"]), &texts(&["/b", "/a/../b", "/a-b", "/a/b", "/z/."]));
    assert_eq!(diff.added, texts(&["/a/b", "/a-b", "/b"]));
    assert!(diff.removed.is_empty());
    assert_eq!(diff.unchanged, texts(&["/z"]));
}

#[test]
fn matching_folders() {
    let a = texts(&["/a", "/b"]);
    let b = texts(&["/b", "/a/."]);
    assert!(folders_match_set(&a, &b));
    assert!(!folders_match_ordered(&a, &b));
    assert!(folders_match_ordered(&a, &texts(&["/a/", "/c/../b"])));
    assert!(!folders_match_ordered(&a, &texts(&["/a"])));
    assert!(!folders_match_set(&a, &texts(&["/a"])));
    assert!(folders_match_set(&a, &texts(&["/a", "/b", "/b"])));
}
