use rusqlite::{Connection, OptionalExtension};

use zed_prj_workspace::workspace_db::{
    db_candidates, db_dir_of, default_db_dir, default_db_path, like_pattern, lookups_for_file,
    lookups_for_folders, lookups_for_roots, paths_key, record_from_row, Error, Lookup,
    WorkspaceRecord,
};

fn texts(v: &[&str]) -> Vec<String> {
    v.iter().map(|t| t.to_string()).collect()
}

fn find(conn: &Connection, tail: &str, param: &dyn rusqlite::ToSql) -> Option<WorkspaceRecord> {
    let sql = format!(
        "SELECT workspace_id, paths, paths_order, timestamp FROM workspaces WHERE {}",
        tail
    );
    conn.query_row(&sql, [param], |row| {
        let id: i64 = row.get(0)?;
        let paths: String = row.get(1)?;
        let order: String = row.get(2)?;
        let timestamp: String = row.get(3)?;
        Ok(record_from_row(id, &paths, &order, &timestamp))
    })
    .optional()
    .unwrap()
}

#[test]
fn create_test_db_and_read() {
    let conn = Connection::open_in_memory().unwrap();
    conn.execute_batch(
        "CREATE TABLE workspaces (
            workspace_id INTEGER PRIMARY KEY,
            paths TEXT,
            paths_order TEXT DEFAULT '',
            remote_connection_id INTEGER,
            timestamp DATETIME DEFAULT CURRENT_TIMESTAMP
        );
        INSERT INTO workspaces (workspace_id, paths, paths_order, timestamp)
        VALUES (1, '/Users/test/backend\n/Users/test/frontend', '1,0', '2026-01-01 00:00:00');
        INSERT INTO workspaces (workspace_id, paths, paths_order, timestamp)
        VALUES (2, '/Users/test/solo-project', '0', '2026-01-02 00:00:00');",
    )
    .unwrap();

    let ws1 = find(&conn, "workspace_id = ?1", &1i64).unwrap();
    assert_eq!(ws1.paths.len(), 2);
    assert_eq!(ws1.paths[0], "/Users/test/backend");
    assert_eq!(ws1.paths[1], "/Users/test/frontend");
    assert_eq!(ws1.paths_order, vec![1, 0]);

    let ordered = ws1.ordered_paths();
    assert_eq!(ordered[0], "/Users/test/frontend");
    assert_eq!(ordered[1], "/Users/test/backend");

    let key = paths_key(&texts(&["/Users/test/frontend", "/Users/test/backend"]));
    let found = find(&conn, "paths = ?1", &key);
    assert!(found.is_some());
    assert_eq!(found.unwrap().workspace_id, 1);

    let key = paths_key(&texts(&["/Users/test/backend", "/Users/test/frontend"]));
    let found = find(&conn, "paths = ?1", &key);
    assert!(found.is_some());
    assert_eq!(found.unwrap().workspace_id, 1);

    let key = paths_key(&texts(&["/Users/test/nonexistent"]));
    assert!(find(&conn, "paths = ?1", &key).is_none());

    let found = find(&conn, "paths LIKE ?1", &like_pattern("/Users/test/frontend"));
    assert!(found.is_some());
}

#[test]
fn rows_without_order_show_their_paths() {
    let r = record_from_row(3, "/a\n/b\n", "", "2026-01-01");
    assert_eq!(r.paths_order, Vec::<usize>::new());
    assert_eq!(r.ordered_paths(), texts(&["/a", "/b"]));
    assert_eq!(r.timestamp, "2026-01-01");
    assert_eq!(r.workspace_file_path, None);
    let odd = record_from_row(3, "/a\n/b", "0,5", "");
    assert_eq!(odd.ordered_paths(), texts(&["/a", "/b"]));
}

/// The order of the folders does not change the key under which they are stored.
#[test]
fn key_does_not_depend_on_order() {
    let a = paths_key(&texts(&["/b", "/a", "/a-c"]));
    let b = paths_key(&texts(&["/a-c", "/b", "/a"]));
    assert_eq!(a, b);
    assert_eq!(a, "/a\n/a-c\n/b");
    assert_eq!(paths_key(&[]), "");
}

#[test]
fn database_places() {
    let dir = db_dir_of(Some("/Users/x")).unwrap();
    assert_eq!(dir, "/Users/x/Library/Application Support/Zed/db");
    assert_eq!(db_dir_of(None), Err(Error::NoDataDir));
    let names = texts(&["0-global", "0-nightly", "other", "0-preview"]);
    let places = db_candidates("/d", Some("dev"), Some("stable"), &names);
    assert_eq!(
        places,
        texts(&[
            "/d/0-dev/db.sqlite",
            "/d/0-stable/db.sqlite",
            "/d/0-preview/db.sqlite",
            "/d/0-stable/db.sqlite",
            "/d/0-nightly/db.sqlite",
            "/d/0-preview/db.sqlite",
        ])
    );
    let last = [false, false, false, false, true, true];
    assert_eq!(default_db_path("/d", &places, &last), Ok("/d/0-nightly/db.sqlite".to_string()));
    assert_eq!(default_db_path("/d", &places, &[]), Err(Error::NotFound("/d".to_string())));
}

#[test]
fn default_directory_is_below_home() {
    match (default_db_dir(), dirs::home_dir()) {
        (Ok(dir), Some(home)) => {
            let want = home.join("Library/Application Support/Zed/db");
            assert_eq!(dir, want.to_string_lossy());
        }
        (Err(e), None) => assert_eq!(e, Error::NoDataDir),
        other => panic!("{:?}", other),
    }
}

#[test]
fn lookups_in_order() {
    let folders = texts(&["/b", "/a"]);
    let by_folders = || {
        vec![
            Lookup::ByPaths("/a\n/b".to_string()),
            Lookup::ByFolder("/b".to_string()),
        ]
    };
    assert_eq!(lookups_for_folders(&folders), by_folders());
    assert_eq!(lookups_for_folders(&[]), vec![]);
    let mut with_latest = by_folders();
    with_latest.push(Lookup::Latest);
    assert_eq!(lookups_for_roots(&folders), with_latest);
    let mut with_id = by_folders();
    with_id.insert(0, Lookup::ById(4));
    assert_eq!(lookups_for_file(Some(4), Some(&folders)), with_id);
    assert_eq!(lookups_for_file(Some(4), None), vec![Lookup::ById(4)]);
    assert_eq!(lookups_for_file(None, None), vec![]);
}
