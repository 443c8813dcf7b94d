use std::time::Duration;

use zed_prj_workspace::discovery::find_workspace_files_in_roots;
use zed_prj_workspace::hook::config::{
    config_path, config_path_of, detect_app_id, registry_app_id, SyncConfig,
};
use zed_prj_workspace::hook::discovery::{
    discover_for_workspace_id, discover_workspace_target, new_folder_path,
    read_zed_settings_project_name, workspace_db_candidates, write_zed_settings_for_roots, Answer,
    Change, Question, TargetSearch, Verdict,
};
use zed_prj_workspace::hook::picker_sort::{
    find_target, pin_target_to_front, read_entry_name, NameWords, ENTRY_SIZE,
};
use zed_prj_workspace::hook::socket_server::{
    cli_beside, dispatch_command, error_response, ok_response, open_args, open_response,
    read_request, socket_path, Dispatch, Request, VERSION,
};
use zed_prj_workspace::hook::sqlite3_bind::{captured_workspace, is_installed};
use zed_prj_workspace::hook::sqlite3_prepare::{
    is_workspace_write, should_inspect, TARGET_NONE, TARGET_PENDING, TARGET_SET,
};
use zed_prj_workspace::hook::startup::{init_inner, Startup, Surroundings};
use zed_prj_workspace::hook::symbols::{find_by_pattern, find_picker_sort, Place};
use zed_prj_workspace::hook::sync::{
    check_pinning_needed, do_event_driven_sync, find_project_name, follow_workspace,
    on_workspace_write_detected, resolve_picker_target_name, run_discovery_due, run_pinning,
    run_sync, sync_and_check, update_workspace_target, Course, Debounce, Gate, Lookup, SyncQueue,
    Synced, WriteTask,
};
use zed_prj_workspace::hook_client::{read_reply, HookClient};
use zed_prj_workspace::mapping::WorkspaceMapping;
use zed_prj_workspace::paths::parse_workspace_paths;
use zed_prj_workspace::settings::write_project_name;
use zed_prj_workspace::workspace_db::record_from_row;
use zed_prj_workspace::workspace_file::{CodeWorkspaceFile, WorkspaceFolder};

fn texts(v: &[&str]) -> Vec<String> {
    v.iter().map(|t| t.to_string()).collect()
}

#[test]
fn default_is_enabled() {
    let config = SyncConfig::default();
    assert!(config.enabled);
    assert_eq!(config.log_level, "info");
    assert_eq!(config.sync_delay_ms, 300);
    assert_eq!(config.sync_cooldown_ms, 1000);
    assert_eq!(config.discovery_cooldown_s, 30);
}

#[test]
fn timing_methods() {
    let config = SyncConfig::default();
    assert_eq!(Duration::from_millis(config.sync_delay()), Duration::from_millis(300));
    assert_eq!(Duration::from_millis(config.sync_cooldown()), Duration::from_millis(1000));
    assert_eq!(Duration::from_secs(config.discovery_cooldown()), Duration::from_secs(30));
}

#[test]
fn environment_overrides_the_file() {
    let file = || {
        Some(SyncConfig {
            enabled: false,
            log_level: "debug".to_string(),
            sync_delay_ms: 500,
            sync_cooldown_ms: 2000,
            discovery_cooldown_s: 60,
        })
    };
    let c = SyncConfig::load(file(), None, None);
    assert!(!c.enabled);
    assert_eq!(c.log_level, "debug");
    assert_eq!((c.sync_delay_ms, c.sync_cooldown_ms, c.discovery_cooldown_s), (500, 2000, 60));
    let c = SyncConfig::load(file(), Some("1"), Some("trace"));
    assert!(c.enabled);
    assert_eq!(c.log_level, "trace");
    for off in ["0", "off", "disabled", "false"] {
        assert!(!SyncConfig::from_env(None, Some(off), Some("")).enabled);
    }
    assert_eq!(SyncConfig::from_env(None, None, Some("")).log_level, "info");
}

#[test]
fn places_of_the_configuration() {
    assert_eq!(
        config_path_of(Some("/h"), "zed-preview").as_deref(),
        Some("/h/.config/dylib-hooks/zed-preview/zed-prj-workspace-hook.json")
    );
    assert_eq!(config_path_of(None, "zed"), None);
    let home = dirs::home_dir();
    let expected = home.map(|h| h.join(".config/dylib-hooks/zed/zed-prj-workspace-hook.json"));
    assert_eq!(config_path("zed"), expected.map(|p| p.to_string_lossy().into_owned()));
}

#[test]
fn applications() {
    let preview = "/Applications/Zed Preview.app/Contents/MacOS/zed";
    assert_eq!(detect_app_id(Some(preview)), "zed-preview");
    assert_eq!(detect_app_id(Some("/Applications/Zed.app/Contents/MacOS/zed")), "zed-stable");
    assert_eq!(detect_app_id(Some("/usr/bin/zed")), "zed");
    assert_eq!(detect_app_id(None), "zed");
    assert_eq!(registry_app_id(Some("preview")), "zed-preview");
    assert_eq!(registry_app_id(None), "zed");
}

#[test]
fn test_read_zed_settings_project_name() {
    let result =
        read_zed_settings_project_name(r#"{ "project_name": "84:myproject.code-workspace" }"#);
    assert_eq!(result, Some((84, "myproject.code-workspace".to_string())));
}

#[test]
fn test_read_zed_settings_no_project_name() {
    let result = read_zed_settings_project_name(r#"{ "tab_size": 4 }"#);
    assert_eq!(result, None);
}

#[test]
fn test_read_zed_settings_invalid_format() {
    let result =
        read_zed_settings_project_name(r#"{ "project_name": "myproject.code-workspace" }"#);
    assert_eq!(result, None);
}

#[test]
fn test_read_zed_settings_non_workspace_extension() {
    let result = read_zed_settings_project_name(r#"{ "project_name": "84:myproject.json" }"#);
    assert_eq!(result, None);
}

#[test]
fn test_find_workspace_files_in_roots() {
    let files = texts(&["/w/project/project.code-workspace", "/w/project/readme.md"]);
    let candidates = find_workspace_files_in_roots(&files);
    assert_eq!(candidates.len(), 1);
    assert_eq!(candidates[0], "/w/project/project.code-workspace");
}

#[test]
fn test_find_workspace_files_multiple() {
    let files = texts(&["/w/project/a.code-workspace", "/w/project/b.code-workspace"]);
    assert_eq!(find_workspace_files_in_roots(&files).len(), 2);
}

#[test]
fn test_find_workspace_files_empty() {
    assert!(find_workspace_files_in_roots(&[]).is_empty());
}

/// What the search finds out about a machine.
struct World {
    id: i64,
    roots: Vec<String>,
    names: Vec<Option<String>>,
    files: Vec<String>,
    mappings: Vec<Option<WorkspaceMapping>>,
}

impl World {
    fn new(id: i64, roots: &[&str]) -> World {
        World {
            id,
            roots: texts(roots),
            names: vec![None; roots.len()],
            files: vec![],
            mappings: vec![None; roots.len()],
        }
    }

    fn search(&self) -> (Option<String>, Vec<Change>) {
        let channel = Some("preview".to_string());
        let (mut search, mut step) =
            TargetSearch::start(self.id, self.roots.clone(), channel).unwrap();
        let mut changes = vec![];
        loop {
            changes.append(&mut step.changes);
            let answer = match step.verdict {
                Verdict::Target(file) => return (Some(file), changes),
                Verdict::Nothing => return (None, changes),
                Verdict::Ask(Question::ProjectName { root }) => {
                    Answer::ProjectName(self.names[root].clone())
                }
                Verdict::Ask(Question::Exists { path }) => {
                    Answer::Exists(self.files.contains(&path))
                }
                Verdict::Ask(Question::Mapping { root }) => {
                    Answer::Mapping(self.mappings[root].clone())
                }
                Verdict::Ask(Question::Files) => Answer::Files(self.files.clone()),
            };
            step = search.next(answer);
        }
    }
}

#[test]
fn test_bootstrap_single_root() {
    let world = World::new(42, &["/w/my-project"]);
    let (target, changes) = world.search();
    let target = target.unwrap();
    assert_eq!(target, "/w/my-project/my-project.code-workspace");
    assert_eq!(changes.len(), 3);
    match &changes[0] {
        Change::CreateFile { path, folders } => {
            assert_eq!(*path, target);
            assert_eq!(folders.len(), 1);
            assert_eq!(folders[0].path, ".");
        }
        other => panic!("{:?}", other),
    }
    assert!(matches!(&changes[1], Change::NameRoots { file, required: true } if *file == target));
    let write = write_zed_settings_for_roots(42, &target, &world.roots, &[true]).unwrap();
    let settings = write_project_name(None, &write.project_name);
    let value: serde_json::Value = serde_json::from_str(&settings).unwrap();
    assert_eq!(value["project_name"].as_str().unwrap(), "42:my-project");
}

#[test]
fn test_bootstrap_multiple_roots() {
    let world = World::new(99, &["/w/frontend", "/w/backend"]);
    let (target, changes) = world.search();
    let target = target.unwrap();
    assert_eq!(target, "/w/frontend/frontend.code-workspace");
    assert!(matches!(&changes[0], Change::CreateFile { folders, .. } if folders.len() == 2));
    let write = write_zed_settings_for_roots(99, &target, &world.roots, &[true, false]).unwrap();
    assert_eq!(write.root, 0);
    assert!(write.clean);
    assert_eq!(write.project_name, "99:frontend");
}

#[test]
fn test_bootstrap_does_not_overwrite_existing_workspace() {
    let mut world = World::new(10, &["/w/my-project"]);
    let (mut search, _) =
        TargetSearch::start(10, world.roots.clone(), None).unwrap();
    search.next(Answer::ProjectName(None));
    search.next(Answer::Mapping(None));
    search.next(Answer::Files(vec![]));
    let step = search.next(Answer::ProjectName(None));
    assert!(matches!(
        &step.verdict,
        Verdict::Ask(Question::Exists { path }) if path == "/w/my-project/my-project.code-workspace"
    ));
    let step = search.next(Answer::Exists(true));
    assert!(step.changes.iter().all(|c| !matches!(c, Change::CreateFile { .. })));
    assert!(matches!(
        &step.verdict,
        Verdict::Target(f) if f == "/w/my-project/my-project.code-workspace"
    ));
    world.files = texts(&["/w/my-project/my-project.code-workspace"]);
    assert_eq!(world.search().0.as_deref(), Some("/w/my-project/my-project.code-workspace"));
}

#[test]
fn test_write_zed_settings_merges_into_existing() {
    let roots = texts(&["/w/root"]);
    let write =
        write_zed_settings_for_roots(50, "/w/root/test.code-workspace", &roots, &[true]).unwrap();
    let content =
        write_project_name(Some(r#"{ "tab_size": 4, "theme": "dark" }"#), &write.project_name);
    let value: serde_json::Value = serde_json::from_str(&content).unwrap();
    assert_eq!(value["project_name"].as_str().unwrap(), "50:test");
    assert_eq!(value["tab_size"].as_u64().unwrap(), 4);
    assert_eq!(value["theme"].as_str().unwrap(), "dark");
}

#[test]
fn test_write_zed_settings_overwrites_project_name() {
    let roots = texts(&["/w/root"]);
    let write =
        write_zed_settings_for_roots(99, "/w/root/new.code-workspace", &roots, &[true]).unwrap();
    let content =
        write_project_name(Some(r#"{ "project_name": "10:original" }"#), &write.project_name);
    let value: serde_json::Value = serde_json::from_str(&content).unwrap();
    assert_eq!(value["project_name"].as_str().unwrap(), "99:new");
}

#[test]
fn test_parse_workspace_paths() {
    let paths = parse_workspace_paths("/Users/test/project1\n/Users/test/project2");
    assert_eq!(paths.len(), 2);
    assert_eq!(paths[0], "/Users/test/project1");
    assert_eq!(paths[1], "/Users/test/project2");
}

#[test]
fn test_parse_workspace_paths_empty() {
    assert!(parse_workspace_paths("").is_empty());
}

#[test]
fn names_go_to_the_first_root_without_a_primary_one() {
    let roots = texts(&["/w/a", "/w/b"]);
    let write = write_zed_settings_for_roots(1, "/w/x.code-workspace", &roots, &[]).unwrap();
    assert_eq!((write.root, write.clean), (0, false));
    assert!(write_zed_settings_for_roots(1, "/w/x.code-workspace", &[], &[]).is_none());
}

#[test]
fn search_goes_by_the_project_name_first() {
    let mut world = World::new(7, &["/w/a"]);
    world.names = vec![Some("3:a".to_string())];
    world.files = texts(&["/w/a/a.code-workspace", "/w/a/b.code-workspace"]);
    let (target, changes) = world.search();
    assert_eq!(target.as_deref(), Some("/w/a/a.code-workspace"));
    assert!(matches!(
        &changes[0],
        Change::WriteRootName { root: 0, project_name } if project_name == "7:a"
    ));
    assert!(matches!(changes[1], Change::RemoveMapping { root: 0 }));
}

#[test]
fn search_goes_by_the_mapping_next() {
    let mut world = World::new(7, &["/w/a"]);
    world.mappings = vec![Some(WorkspaceMapping::new(3, "../x.code-workspace", None))];
    world.files = texts(&["/w/a/../x.code-workspace"]);
    let (target, changes) = world.search();
    assert_eq!(target.as_deref(), Some("/w/a/../x.code-workspace"));
    assert!(matches!(
        &changes[0],
        Change::WriteMapping { root: 0, mapping }
            if mapping.workspace_id == 7 && mapping.last_sync_ts.is_some()
    ));
}

/// None of several workspace files is taken.
#[test]
fn search_takes_none_of_several_files() {
    let mut world = World::new(7, &["/w/a"]);
    world.files = texts(&["/w/a/z.code-workspace", "/w/a/b.code-workspace"]);
    let (target, changes) = world.search();
    assert_eq!(target, None);
    assert!(changes.is_empty());
    world.files.push("/w/a/a.code-workspace".to_string());
    world.names = vec![Some("7:a".to_string())];
    assert_eq!(world.search().0.as_deref(), Some("/w/a/a.code-workspace"));
}

/// A project name counts only in the root that bears it, and is not renewed elsewhere.
#[test]
fn search_passes_over_a_name_of_another_folder() {
    let mut world = World::new(7, &["/w/x", "/w/a"]);
    world.names = vec![Some("3:a".to_string()), Some("3:a".to_string())];
    world.files = texts(&["/w/x/a.code-workspace", "/w/a/a.code-workspace"]);
    let (target, changes) = world.search();
    assert_eq!(target.as_deref(), Some("/w/a/a.code-workspace"));
    assert!(matches!(
        &changes[0],
        Change::WriteRootName { root: 1, project_name } if project_name == "7:a"
    ));
    assert_eq!(changes.len(), 2);
    world.names = vec![Some("7:a".to_string()), None];
    let (target, changes) = world.search();
    assert_eq!(target, None);
    assert!(changes.is_empty());
}

#[test]
fn search_needs_roots() {
    assert!(TargetSearch::start(1, vec![], None).is_none());
    assert!(discover_workspace_target(None, None).is_none());
    let (search, _) = discover_workspace_target(Some((4, texts(&["/a"]))), None).unwrap();
    assert_eq!(search.workspace_id, 4);
    assert!(discover_for_workspace_id(None, None).is_none());
    let record = record_from_row(6, "/a\n/b", "1,0", "");
    let (search, _) = discover_for_workspace_id(Some(&record), None).unwrap();
    assert_eq!(search.workspace_id, 6);
    assert_eq!(search.roots, texts(&["/a", "/b"]));
}

#[test]
fn paths_of_a_new_file() {
    assert_eq!(new_folder_path("/w/a", "/w/a/"), ".");
    assert_eq!(new_folder_path("/w/a", "/w/a/b/c"), "b/c");
    assert_eq!(new_folder_path("/w/a", "/w/ab"), "/w/ab");
}

#[test]
fn databases_around_the_hook() {
    let names = texts(&["0-nightly", "0-global"]);
    let preview = Some("/Applications/Zed Preview.app/Contents/MacOS/zed");
    assert_eq!(
        workspace_db_candidates("/d", preview, &names),
        texts(&["/d/0-preview/db.sqlite", "/d/0-nightly/db.sqlite"])
    );
    assert_eq!(workspace_db_candidates("/d", None, &[]), texts(&["/d/0-stable/db.sqlite"]));
}

#[test]
fn read_entry_name_null_returns_none() {
    assert_eq!(read_entry_name(None), None);
}

#[test]
fn read_entry_name_borrowed_variant() {
    let name = "my-project";
    let address: u64 = 0x7000_1000;
    let words = NameWords { tag: 0, base: address, len: name.len() as u64 };
    assert_eq!(read_entry_name(Some(words)), Some((address, 10)));
}

#[test]
fn read_entry_name_arc_variant() {
    let name = "arc-project";
    let address: u64 = 0x7000_1000;
    let words = NameWords { tag: 1, base: address, len: name.len() as u64 };
    assert_eq!(read_entry_name(Some(words)), Some((address + 16, 11)));
}

#[test]
fn read_entry_name_bad_tag_returns_none() {
    assert_eq!(read_entry_name(Some(NameWords { tag: 99, base: 0x1000, len: 5 })), None);
}

#[test]
fn read_entry_name_zero_len_returns_none() {
    assert_eq!(read_entry_name(Some(NameWords { tag: 0, base: 0x1000, len: 0 })), None);
}

#[test]
fn read_entry_name_refuses_odd_words() {
    assert_eq!(read_entry_name(Some(NameWords { tag: 0, base: 0, len: 5 })), None);
    assert_eq!(read_entry_name(Some(NameWords { tag: 0, base: 0xfff, len: 5 })), None);
    assert_eq!(read_entry_name(Some(NameWords { tag: 0, base: 0x1000, len: 4097 })), None);
    assert_eq!(read_entry_name(Some(NameWords { tag: 1, base: u64::MAX, len: 5 })), None);
}

#[test]
fn target_moves_to_the_front() {
    let names = [Some("a".to_string()), None, Some("t".to_string()), Some("t".to_string())];
    assert_eq!(find_target(&names, "t"), Some(2));
    assert_eq!(find_target(&names, "a"), None);
    assert_eq!(find_target(&names, "x"), None);
    let mut data = vec![];
    for k in 0..4u8 {
        data.extend(vec![k; ENTRY_SIZE]);
    }
    let moved = pin_target_to_front(&data, 2);
    let firsts: Vec<u8> = moved.iter().step_by(ENTRY_SIZE).copied().collect();
    assert_eq!(firsts, vec![2, 0, 1, 3]);
    assert_eq!(moved.len(), data.len());
}

#[test]
fn test_is_workspace_write_insert() {
    assert!(is_workspace_write("INSERT INTO workspaces (workspace_id, paths) VALUES (?, ?)"));
}

#[test]
fn test_is_workspace_write_update() {
    assert!(is_workspace_write("UPDATE workspaces SET paths = ? WHERE workspace_id = ?"));
}

#[test]
fn test_is_workspace_write_delete() {
    assert!(is_workspace_write("DELETE FROM workspaces WHERE workspace_id = ?"));
}

#[test]
fn test_is_workspace_write_with_leading_whitespace() {
    assert!(is_workspace_write("  INSERT INTO workspaces (workspace_id, paths) VALUES (?, ?)"));
}

#[test]
fn test_is_workspace_write_select_false() {
    assert!(!is_workspace_write("SELECT * FROM workspaces"));
}

#[test]
fn test_is_workspace_write_short_string() {
    assert!(!is_workspace_write("SELECT 1"));
}

#[test]
fn test_is_workspace_write_unrelated() {
    assert!(!is_workspace_write("INSERT INTO items (id, name) VALUES (1, 'test')"));
}

#[test]
fn states_of_the_target() {
    assert!(!should_inspect(TARGET_NONE));
    assert!(should_inspect(TARGET_SET));
    assert!(should_inspect(TARGET_PENDING));
}

#[test]
fn bindings_tell_the_workspace() {
    assert_eq!(captured_workspace(true, 1, 9), Some(9));
    assert_eq!(captured_workspace(true, 2, 9), None);
    assert_eq!(captured_workspace(false, 1, 9), None);
    assert!(is_installed(1));
    assert!(!is_installed(0));
}

#[test]
fn socket_path_format() {
    let p = socket_path("preview", 12345);
    assert_eq!(p, "/tmp/zed-prj-workspace-preview-12345.sock");
}

fn answer(line: &str) -> serde_json::Value {
    let req = read_request(line).unwrap();
    match dispatch_command(&req, "preview", 1234) {
        Dispatch::Answer(resp) => serde_json::from_str(&resp).unwrap(),
        other => panic!("{:?}", other),
    }
}

#[test]
fn dispatch_ping() {
    let parsed = answer(r#"{"cmd": "ping"}"#);
    assert_eq!(parsed["ok"], true);
    assert_eq!(parsed["channel"], "preview");
    assert_eq!(parsed["pid"], 1234);
    assert_eq!(parsed["version"], VERSION);
}

#[test]
fn dispatch_unknown_command() {
    let parsed = answer(r#"{"cmd": "bogus"}"#);
    assert_eq!(parsed["ok"], false);
    assert_eq!(parsed["error"], "unknown command: bogus");
}

#[test]
fn dispatch_add_folders_empty() {
    let parsed = answer(r#"{"cmd": "add_folders", "paths": []}"#);
    assert_eq!(parsed["ok"], false);
    assert_eq!(parsed["error"], "paths array is empty");
}

#[test]
fn dispatch_opens_paths() {
    let client = HookClient { socket_path: String::new() };
    let req = read_request(&client.add_folders(&texts(&["/a", "/b"]))).unwrap();
    assert_eq!(req.cmd, "add_folders");
    assert_eq!(req.paths, texts(&["/a", "/b"]));
    assert!(matches!(dispatch_command(&req, "preview", 1), Dispatch::Open { reuse: false }));
    let req = read_request(&client.reuse_folders(&texts(&["/a"]))).unwrap();
    assert!(matches!(dispatch_command(&req, "preview", 1), Dispatch::Open { reuse: true }));
    let req = read_request(r#"{"cmd":"add_folders","paths":["/a",1,null,"/b"]}"#).unwrap();
    assert_eq!(req.paths, texts(&["/a", "/b"]));
    assert_eq!(read_request("7").unwrap().cmd, "");
}

/// The client understands what the hook answers.
#[test]
fn answers_are_understood() {
    assert_eq!(ok_response(), r#"{"ok":true}"#);
    assert!(read_reply(&ok_response()).unwrap().unwrap().ok);
    assert!(read_reply(&open_response(None)).unwrap().unwrap().ok);
    let refused = read_reply(&open_response(Some("no \"cli\""))).unwrap().unwrap();
    assert_eq!((refused.ok, refused.error.as_deref()), (false, Some("no \"cli\"")));
    let error = read_reply(&error_response("x\ny")).unwrap().unwrap();
    assert_eq!(error.error.as_deref(), Some("x\ny"));
    assert!(!error_response("x\ny").contains('\n'));
    let req = Request { cmd: "status".to_string(), paths: vec![] };
    match dispatch_command(&req, "stable", 5) {
        Dispatch::Answer(t) => assert!(read_reply(&t).unwrap().unwrap().ok),
        other => panic!("{:?}", other),
    }
    let invalid = read_reply(&read_request("{").unwrap_err()).unwrap().unwrap();
    assert!(invalid.error.unwrap().starts_with("invalid JSON: EOF"));
}

#[test]
fn program_beside_zed() {
    assert_eq!(
        cli_beside("/Applications/Zed.app/Contents/MacOS/zed"),
        "/Applications/Zed.app/Contents/MacOS/cli"
    );
    assert_eq!(open_args(&texts(&["/a"]), true), texts(&["--reuse", "/a"]));
    assert_eq!(open_args(&texts(&["/a", "/b"]), false), texts(&["--add", "/a", "/b"]));
}

#[test]
fn symbols_by_pattern() {
    let exports = texts(&["main"]);
    let symbols = texts(&[
        "drop_in_place<get_open_folders::OpenFolderEntry>::driftsort_main",
        "insertion_sort_shift_left::get_open_folders::OpenFolderEntry",
        "driftsort_main::get_open_folders::OpenFolderEntry",
    ]);
    assert_eq!(find_picker_sort(&exports, &symbols), Some(Place::Symbol(2)));
    assert_eq!(find_picker_sort(&exports, &symbols[..2]), Some(Place::Symbol(1)));
    assert_eq!(find_picker_sort(&exports, &symbols[..1]), None);
    assert_eq!(
        find_by_pattern(&exports, &symbols, &texts(&["main"]), &[]),
        Some(Place::Export(0))
    );
}

#[test]
fn queue_takes_each_workspace_once() {
    let mut queue = SyncQueue::new();
    assert!(queue.enqueue_workspace_sync(1));
    assert!(!queue.enqueue_workspace_sync(2));
    assert!(!queue.enqueue_workspace_sync(1));
    assert_eq!(queue.take_next(), Some(1));
    assert!(!queue.enqueue_workspace_sync(1));
    assert_eq!(queue.take_next(), Some(2));
    assert_eq!(queue.take_next(), Some(1));
    assert_eq!(queue.take_next(), None);
    assert!(queue.enqueue_workspace_sync(3));
}

/// The sync of one workspace does not hold back another one.
#[test]
fn cooldown_is_per_workspace() {
    let mut debounce = Debounce::new();
    assert!(!debounce.cooling(1, 0, 1000));
    debounce.record(1, 5000);
    assert!(debounce.cooling(1, 5999, 1000));
    assert!(!debounce.cooling(1, 6000, 1000));
    assert!(debounce.cooling(1, 4000, 1000));
    assert!(!debounce.cooling(2, 5001, 1000));
    assert_eq!(run_sync(None, &debounce, 5001, 1000, true), Gate::NoTarget);
    assert_eq!(run_sync(Some(1), &debounce, 5001, 1000, true), Gate::Cooling);
    assert_eq!(run_sync(Some(2), &debounce, 5001, 1000, false), Gate::Lost);
    assert_eq!(run_sync(Some(2), &debounce, 5001, 1000, true), Gate::Sync);
}

#[test]
fn discovery_waits() {
    assert!(run_discovery_due(0, 10, 30));
    assert!(!run_discovery_due(10, 39, 30));
    assert!(run_discovery_due(10, 40, 30));
}

fn file_with(folders: &[&str]) -> CodeWorkspaceFile {
    CodeWorkspaceFile {
        folders: folders
            .iter()
            .map(|p| WorkspaceFolder { path: p.to_string(), name: None })
            .collect(),
        extra: serde_json::Map::new(),
    }
}

#[test]
fn event_driven_sync_follows_zed() {
    let mut ws = file_with(&["a", "b"]);
    let db = texts(&["/p/a", "/p/c"]);
    assert!(do_event_driven_sync(&mut ws, "/p/p.code-workspace", &db).unwrap());
    let now: Vec<&str> = ws.folders.iter().map(|f| f.path.as_str()).collect();
    assert_eq!(now, vec!["a", "c"]);
    assert!(!do_event_driven_sync(&mut ws, "/p/p.code-workspace", &db).unwrap());
    let db = texts(&["/p/c", "/p/a"]);
    assert!(do_event_driven_sync(&mut ws, "/p/p.code-workspace", &db).unwrap());
    assert_eq!(ws.folders[0].path, "c");
    assert!(do_event_driven_sync(&mut ws, "/", &db).is_err());
}

#[test]
fn project_name_of_the_first_root_that_has_one() {
    let names = [None, Some("3:b".to_string()), Some("4:c".to_string())];
    assert_eq!(find_project_name(&names, Some("9:dir")).as_deref(), Some("3:b"));
    assert_eq!(find_project_name(&[None], Some("9:dir")).as_deref(), Some("9:dir"));
    assert_eq!(find_project_name(&[], None), None);
}

#[test]
fn pinning_of_a_record() {
    let record = record_from_row(3, "/p/a\n/p/b\n/p/target", "0,1,2", "");
    let holds = [false, false, false];
    assert!(check_pinning_needed(&record.ordered_paths(), "3:target", &holds));
    let plan = run_pinning(&record, "3:target", &holds, Some("preview")).unwrap();
    assert_eq!(plan.target, "/p/target");
    assert_eq!(plan.new_order.as_deref(), Some("1,2,0"));
    assert_eq!(plan.reuse.unwrap().paths, texts(&["/p/target", "/p/a", "/p/b"]));
    let pinned = record_from_row(3, "/p/a\n/p/b\n/p/target", "1,2,0", "");
    assert!(!check_pinning_needed(&pinned.ordered_paths(), "3:target", &holds));
    let plan = run_pinning(&pinned, "3:target", &holds, None).unwrap();
    assert!(plan.new_order.is_none() && plan.reuse.is_none());
    assert!(run_pinning(&record, "3:none", &holds, None).is_none());
    assert!(!check_pinning_needed(&record.ordered_paths(), "3:none", &holds));
}

/// The target root is pinned again whether or not the file was in step.
#[test]
fn pinning_does_not_hang_on_the_file() {
    let path = "/p/p.code-workspace";
    let db = texts(&["/p/a", "/p/target"]);
    let holds = [false, false];
    let mut ws = file_with(&["a"]);
    let first = sync_and_check(&mut ws, path, &db, Some("3:target"), &holds).unwrap();
    assert_eq!(first, Synced { modified: true, repin: true });
    let again = sync_and_check(&mut ws, path, &db, Some("3:target"), &holds).unwrap();
    assert_eq!(again, Synced { modified: false, repin: true });
    let unnamed = sync_and_check(&mut ws, path, &db, None, &[]).unwrap();
    assert_eq!(unnamed, Synced { modified: false, repin: false });
    let db = texts(&["/p/target", "/p/a"]);
    let pinned = sync_and_check(&mut ws, path, &db, Some("3:target"), &holds).unwrap();
    assert_eq!(pinned, Synced { modified: true, repin: false });
    assert!(sync_and_check(&mut ws, "/", &db, Some("3:target"), &holds).is_err());
}

#[test]
fn a_workspace_is_followed_to_its_new_number() {
    let record = || record_from_row(6, "/a", "0", "");
    match follow_workspace(Lookup::ById(Some(record()))) {
        Course::Sync(r) => assert_eq!(r.workspace_id, 6),
        other => panic!("{:?}", other),
    }
    assert!(matches!(follow_workspace(Lookup::ById(None)), Course::AskByFolders));
    match follow_workspace(Lookup::ByFolders(Some(record()))) {
        Course::Retarget(r) => assert_eq!(r.workspace_id, 6),
        other => panic!("{:?}", other),
    }
    assert!(matches!(
        follow_workspace(Lookup::ByFolders(None)),
        Course::Drop { state: TARGET_PENDING }
    ));
}

#[test]
fn updated_project_names() {
    assert_eq!(update_workspace_target("3:proj", 8), "8:proj");
    assert_eq!(update_workspace_target("3:proj.code-workspace", 8), "8:proj");
    assert_eq!(update_workspace_target("proj", 8), "8:proj");
}

#[test]
fn picker_target_names() {
    let name = |f, p| resolve_picker_target_name(f, p);
    assert_eq!(name(Some("/p/x.code-workspace"), Some("3:y")).as_deref(), Some("x"));
    assert_eq!(name(None, Some("3:y")).as_deref(), Some("y"));
    assert_eq!(name(None, Some("3:")), None);
    assert_eq!(name(None, None), None);
}

#[test]
fn writes_are_taken_together() {
    assert_eq!(on_workspace_write_detected(true, TARGET_PENDING), None);
    assert_eq!(
        on_workspace_write_detected(false, TARGET_PENDING),
        Some(WriteTask { discover: true })
    );
    assert_eq!(
        on_workspace_write_detected(false, TARGET_SET),
        Some(WriteTask { discover: false })
    );
}

#[test]
fn startup_by_surroundings() {
    let found = |enabled, prepare, channel: Option<&str>| Surroundings {
        enabled,
        prepare,
        bind: true,
        picker: Some(Place::Symbol(3)),
        channel: channel.map(String::from),
    };
    assert!(matches!(init_inner(found(false, true, None)), Startup::Disabled));
    assert!(matches!(init_inner(found(true, false, None)), Startup::NotInstalled));
    match init_inner(found(true, true, Some("preview"))) {
        Startup::Install(i) => {
            assert!(i.bind);
            assert_eq!(i.picker, Some(Place::Symbol(3)));
            assert_eq!((i.app_id.as_str(), i.socket_channel.as_str()), ("zed-preview", "preview"));
        }
        other => panic!("{:?}", other),
    }
    match init_inner(found(true, true, None)) {
        Startup::Install(i) => {
            assert_eq!((i.app_id.as_str(), i.socket_channel.as_str()), ("zed", "unknown"));
        }
        other => panic!("{:?}", other),
    }
}
