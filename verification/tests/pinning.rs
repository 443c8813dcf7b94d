use zed_prj_workspace::hook_client::FolderCommand;
use zed_prj_workspace::paths::reconstruct_ordered_paths;
use zed_prj_workspace::pinning::{
    correct_paths_order, determine_target_root, ensure_target_root_first, pin_target_root,
};

fn texts(v: &[&str]) -> Vec<String> {
    v.iter().map(|t| t.to_string()).collect()
}

#[test]
fn determine_target_by_folder_name() {
    let roots = texts(&[
        "/codes/dylib-kit",
        "/codes/zed-project-workspace",
        "/codes/zed-yolo-hook",
    ]);
    let target = determine_target_root(&roots, "117:zed-project-workspace", &[false, false, false]);
    assert_eq!(target, Some("/codes/zed-project-workspace".to_string()));
}

#[test]
fn determine_target_no_match() {
    let roots = texts(&["/codes/foo", "/codes/bar"]);
    let target = determine_target_root(&roots, "117:nonexistent", &[false, false]);
    assert_eq!(target, None);
}

#[test]
fn ensure_first_already_correct() {
    let paths = texts(&["/codes/target", "/codes/other"]);
    assert_eq!(ensure_target_root_first(&paths, "/codes/target"), None);
}

#[test]
fn ensure_first_needs_reorder() {
    let paths = texts(&["/codes/alpha", "/codes/target", "/codes/zeta"]);
    let result = ensure_target_root_first(&paths, "/codes/target");
    assert_eq!(result, Some(texts(&["/codes/target", "/codes/alpha", "/codes/zeta"])));
}

#[test]
fn ensure_first_preserves_relative_order() {
    let paths = texts(&["/a", "/b", "/target", "/c", "/d"]);
    let result = ensure_target_root_first(&paths, "/target").unwrap();
    assert_eq!(result[0], "/target");
    assert_eq!(result[1], "/a");
    assert_eq!(result[2], "/b");
    assert_eq!(result[3], "/c");
    assert_eq!(result[4], "/d");
}

#[test]
fn ensure_first_target_not_in_list() {
    let paths = texts(&["/a", "/b"]);
    assert_eq!(ensure_target_root_first(&paths, "/missing"), None);
}

#[test]
fn correct_order_already_correct() {
    let lex_paths = texts(&["/a", "/b", "/target"]);
    let result = correct_paths_order(&lex_paths, "1,2,0", "/target");
    assert_eq!(result, None);
}

#[test]
fn correct_order_needs_fix() {
    let lex_paths = texts(&["/a", "/b", "/target"]);
    let result = correct_paths_order(&lex_paths, "0,1,2", "/target");
    assert_eq!(result, Some("1,2,0".to_string()));
}

#[test]
fn correct_order_empty() {
    let result = correct_paths_order(&[], "", "/target");
    assert_eq!(result, None);
}

#[test]
fn correct_order_no_explicit_order() {
    let lex_paths = texts(&["/a", "/target", "/z"]);
    let result = correct_paths_order(&lex_paths, "", "/target");
    assert_eq!(result, Some("1,0,2".to_string()));
}

/// A list that is malformed is taken as none.
#[test]
fn correct_order_malformed() {
    let lex_paths = texts(&["/a", "/target"]);
    for order in ["x,0", "1,x,0", "1,,0", "1 0"] {
        assert_eq!(correct_paths_order(&lex_paths, order, "/target"), Some("1,0".to_string()));
    }
}

/// A workspace file in a root tells the target where no folder is named so.
#[test]
fn determine_target_by_workspace_file() {
    let roots = texts(&["/codes/foo", "/codes/bar"]);
    let target = determine_target_root(&roots, "117:project", &[false, true]);
    assert_eq!(target, Some("/codes/bar".to_string()));
}

#[test]
fn determine_target_prefers_the_folder_name() {
    let roots = texts(&["/codes/foo", "/codes/project"]);
    let target = determine_target_root(&roots, "project", &[true, false]);
    assert_eq!(target, Some("/codes/project".to_string()));
}

/// The corrected order displays the target first, and is not corrected again.
#[test]
fn corrected_order_pins_the_target() {
    let lex_paths = texts(&["/a", "/b", "/target", "/z"]);
    for order in ["", "0,1,2,3", "3,2,1,0", "1,0,3,2"] {
        let shown = reconstruct_ordered_paths(&lex_paths, order);
        let fixed = correct_paths_order(&lex_paths, order, "/target").unwrap();
        let after = reconstruct_ordered_paths(&lex_paths, &fixed);
        assert_eq!(Some(after), ensure_target_root_first(&shown, "/target"));
        assert_eq!(correct_paths_order(&lex_paths, &fixed, "/target"), None);
    }
}

#[test]
fn correct_order_without_the_target() {
    let lex_paths = texts(&["/a", "/b"]);
    assert_eq!(correct_paths_order(&lex_paths, "1,0", "/target"), None);
}

#[test]
fn pin_is_a_reuse_of_the_new_row() {
    let paths = texts(&["/a", "/target"]);
    let i = pin_target_root(&paths, "/target", Some("preview")).unwrap();
    assert_eq!(i.command, FolderCommand::Reuse);
    assert_eq!(i.paths, texts(&["/target", "/a"]));
    assert_eq!(i.channel.as_deref(), Some("preview"));
    assert!(pin_target_root(&i.paths, "/target", None).is_none());
}
