use zed_prj_workspace::discovery::{
    discover, find_workspace_files_in_roots, migrate_from_v1, Answer, Change, DiscoveryResult,
    Error, Question, Verdict,
};
use zed_prj_workspace::mapping::WorkspaceMapping;
use zed_prj_workspace::settings::find_primary_root;

fn texts(v: &[&str]) -> Vec<String> {
    v.iter().map(|t| t.to_string()).collect()
}

/// What the search finds out about a machine.
struct World {
    roots: Vec<String>,
    names: Vec<Option<String>>,
    known: Option<bool>,
    workspace: Option<i64>,
    files: Vec<String>,
    mappings: Vec<Option<WorkspaceMapping>>,
}

impl World {
    fn new(roots: &[&str]) -> World {
        World {
            roots: texts(roots),
            names: vec![None; roots.len()],
            known: Some(true),
            workspace: None,
            files: vec![],
            mappings: vec![None; roots.len()],
        }
    }

    fn discover(&self) -> (Option<DiscoveryResult>, Vec<Change>) {
        let db = "/db/0-preview/db.sqlite".to_string();
        let (mut search, mut step) = discover(self.roots.clone(), db, None).unwrap();
        let mut changes = vec![];
        loop {
            changes.append(&mut step.changes);
            let answer = match step.verdict {
                Verdict::Found(r) => return (Some(r), changes),
                Verdict::NotFound | Verdict::Ambiguous(_) => return (None, changes),
                Verdict::Ask(Question::ProjectName { root }) => {
                    Answer::ProjectName(self.names[root].clone())
                }
                Verdict::Ask(Question::Known { .. }) => Answer::Known(self.known),
                Verdict::Ask(Question::Workspace) => Answer::Workspace(self.workspace),
                Verdict::Ask(Question::Exists { path }) => {
                    Answer::Exists(self.files.contains(&path))
                }
                Verdict::Ask(Question::Mapping { root }) => {
                    Answer::Mapping(self.mappings[root].clone())
                }
                Verdict::Ask(Question::Files) => Answer::Files(self.files.clone()),
            };
            step = search.next(answer);
        }
    }
}

#[test]
fn discover_from_mapping_file() {
    let mut world = World::new(&["/w/root"]);
    world.files = texts(&["/w/root/test.code-workspace"]);
    world.mappings =
        vec![Some(WorkspaceMapping::new(42, "test.code-workspace", Some("preview")))];
    let (result, changes) = world.discover();
    let result = result.unwrap();
    assert_eq!(result.workspace_id, 42);
    assert_eq!(result.workspace_file, "/w/root/test.code-workspace");
    assert_eq!(result.project_name, "test");
    assert_eq!(changes.len(), 2);
    assert!(matches!(&changes[0], Change::WriteProjectName(n) if n == "42:test"));
    assert!(matches!(changes[1], Change::RemoveMapping { root: 0 }));
}

#[test]
fn discover_by_scanning() {
    let mut world = World::new(&["/w/root"]);
    world.files = texts(&["/w/root/readme.md", "/w/root/project.code-workspace"]);
    world.workspace = Some(99);
    let (result, changes) = world.discover();
    let result = result.unwrap();
    assert_eq!(result.workspace_id, 99);
    assert_eq!(result.workspace_file, "/w/root/project.code-workspace");
    assert!(changes.iter().any(|c| matches!(
        c,
        Change::WriteMappings { mapping, file }
            if mapping.workspace_id == 99 && file == "/w/root/project.code-workspace"
    )));
}

#[test]
fn discover_bootstrap() {
    let mut world = World::new(&["/w/my-project"]);
    world.workspace = Some(7);
    let (result, changes) = world.discover();
    let result = result.unwrap();
    assert_eq!(result.workspace_id, 7);
    assert!(result.workspace_file.contains("my-project.code-workspace"));
    assert!(matches!(
        &changes[0],
        Change::CreateFile { path, folders }
            if *path == result.workspace_file && folders.len() == 1 && folders[0].path == "."
    ));
    assert_eq!(result.mapping.workspace_id, 7);
    assert!(changes.iter().any(|c| matches!(
        c,
        Change::WriteMappings { mapping, .. } if mapping.workspace_id == 7
    )));
}

#[test]
fn discover_by_project_name() {
    let mut world = World::new(&["/w/a", "/w/b"]);
    world.names = vec![Some("no id".to_string()), Some("5:b".to_string())];
    world.files = texts(&["/w/b/b.code-workspace"]);
    let (result, changes) = world.discover();
    let result = result.unwrap();
    assert_eq!(result.workspace_id, 5);
    assert_eq!(result.project_name, "b");
    assert_eq!(result.workspace_file, "/w/b/b.code-workspace");
    assert_eq!(result.zed_channel.as_deref(), Some("preview"));
    assert_eq!(result.db_path, "/db/0-preview/db.sqlite");
    assert_eq!(changes.len(), 1);
    assert!(matches!(changes[0], Change::RemoveMapping { root: 1 }));
}

/// A workspace that Zed has given up is replaced by the one of the roots.
#[test]
fn discover_renews_a_stale_id() {
    let mut world = World::new(&["/w/b"]);
    world.names = vec![Some("5:b".to_string())];
    world.files = texts(&["/w/b/b.code-workspace"]);
    world.known = Some(false);
    world.workspace = Some(8);
    let (result, changes) = world.discover();
    assert_eq!(result.unwrap().workspace_id, 8);
    assert!(matches!(&changes[0], Change::WriteProjectName(n) if n == "8:b"));
    world.workspace = None;
    assert!(world.discover().0.is_none());
    world.known = None;
    assert_eq!(world.discover().0.unwrap().workspace_id, 5);
}

/// None of several workspace files is taken, and none is overwritten by a new one.
#[test]
fn several_workspace_files_are_left_alone() {
    let mut world = World::new(&["/w/p", "/w/q"]);
    world.files = texts(&["/w/p/p.code-workspace", "/w/q/b.code-workspace"]);
    world.workspace = Some(1);
    let (result, changes) = world.discover();
    assert!(result.is_none());
    assert!(changes.is_empty());
    let (mut search, mut step) =
        discover(world.roots.clone(), "/db".to_string(), None).unwrap();
    for _ in 0..2 {
        step = search.next(Answer::ProjectName(None));
    }
    for _ in 0..2 {
        step = search.next(Answer::Mapping(None));
    }
    assert!(matches!(step.verdict, Verdict::Ask(Question::Files)));
    match search.next(Answer::Files(world.files.clone())).verdict {
        Verdict::Ambiguous(found) => assert_eq!(found, world.files),
        other => panic!("{:?}", other),
    }
    assert!(matches!(search.next(Answer::Exists(true)).verdict, Verdict::NotFound));
    world.names = vec![Some("1:p".to_string()), None];
    world.known = Some(true);
    assert_eq!(world.discover().0.unwrap().workspace_file, "/w/p/p.code-workspace");
}

/// A project name counts only in the root that bears it.
#[test]
fn discover_passes_over_a_name_of_another_folder() {
    let mut world = World::new(&["/w/x", "/w/b"]);
    world.names = vec![Some("5:b".to_string()), Some("6:b".to_string())];
    world.files = texts(&["/w/x/b.code-workspace", "/w/b/b.code-workspace"]);
    world.known = Some(true);
    let result = world.discover().0.unwrap();
    assert_eq!((result.workspace_id, result.workspace_file.as_str()), (6, "/w/b/b.code-workspace"));
    world.names = vec![Some("5:b".to_string()), None];
    world.files = texts(&["/w/x/b.code-workspace"]);
    world.workspace = Some(9);
    let (result, changes) = world.discover();
    assert_eq!(result.unwrap().workspace_id, 9);
    assert!(matches!(&changes[0], Change::WriteProjectName(n) if n == "9:b"));
    let named = find_primary_root(&world.roots, "9:b", &[true, false]);
    assert_eq!(named, Some("/w/b"));
}

#[test]
fn a_new_workspace_file_names_all_roots() {
    let mut world = World::new(&["/w/p", "/w/q"]);
    world.workspace = Some(1);
    let (result, changes) = world.discover();
    assert_eq!(result.unwrap().workspace_file, "/w/p/p.code-workspace");
    assert!(matches!(
        &changes[0],
        Change::CreateFile { folders, .. }
            if folders.len() == 2 && folders[1].path == "../q"
    ));
}

#[test]
fn discover_needs_roots_and_a_workspace() {
    let r = discover(vec![], "/db".to_string(), None);
    assert_eq!(r.err(), Some(Error::NoRoots));
    let world = World::new(&["/w/p"]);
    assert!(world.discover().0.is_none());
}

/// An answer to another question changes nothing.
#[test]
fn discover_puts_its_question_again() {
    let (mut search, _) =
        discover(texts(&["/w/p"]), "/db".to_string(), Some("stable".to_string())).unwrap();
    let step = search.next(Answer::Exists(true));
    assert!(step.changes.is_empty());
    assert!(matches!(step.verdict, Verdict::Ask(Question::ProjectName { root: 0 })));
    assert_eq!(search.zed_channel.as_deref(), Some("stable"));
}

#[test]
fn migrate_v1_format() {
    let content = r#"{"project_name": "42:my-project.code-workspace", "tab_size": 4}"#;
    let migration = migrate_from_v1(Some(content), "/w/db.sqlite").unwrap();
    assert_eq!(migration.mapping.workspace_id, 42);
    assert_eq!(migration.mapping.workspace_file, "my-project.code-workspace");

    let settings: serde_json::Value = serde_json::from_str(&migration.settings).unwrap();
    assert_eq!(settings["project_name"], "my-project");
    assert_eq!(settings["tab_size"], 4);
}

#[test]
fn migrate_leaves_other_settings() {
    assert!(migrate_from_v1(None, "/db").is_none());
    assert!(migrate_from_v1(Some("{}"), "/db").is_none());
    assert!(migrate_from_v1(Some(r#"{"project_name": "plain"}"#), "/db").is_none());
}

#[test]
fn workspace_files_by_extension() {
    let files = texts(&["/a/x.code-workspace", "/a/y.json", "/a/code-workspace", "/a/z.a.code-workspace"]);
    assert_eq!(
        find_workspace_files_in_roots(&files),
        texts(&["/a/x.code-workspace", "/a/z.a.code-workspace"])
    );
}
