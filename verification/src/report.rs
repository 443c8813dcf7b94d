//! What the tools of the server answer: JSON texts for the one who called them.
use vstd::prelude::*;

use crate::discovery::DiscoveryResult;
use crate::hook_client;
use crate::json;
use crate::json::{Entry, Scalar};
use crate::mapping::WorkspaceMapping;
use crate::mcp::FolderStatus;
use crate::paths;
use crate::text;

verus! {

broadcast use vstd::string::group_string_axioms;

/// The folders that Zed has for a workspace file, and how they compare.
#[derive(Debug)]
pub struct DbFolders {
    pub workspace_id: i64,
    pub folders: Vec<String>,
    pub status: FolderStatus,
}

/// The answer of the list tool. Folders that only one side has are listed where
/// there are some.
pub open spec fn list_entries(
    workspace_file: Seq<char>,
    file_folders: Seq<Seq<char>>,
    db: Option<DbFolders>,
) -> json::Entries {
    let file = json::no_entries().insert("workspace_file"@, Entry::Text(workspace_file)).insert(
        "file_folders"@,
        json::texts(file_folders),
    );
    match db {
        Some(d) => {
            let both = file.insert("db_folders"@, json::texts(text::texts(d.folders@))).insert(
                "workspace_id"@,
                Entry::Whole(d.workspace_id as int),
            ).insert("in_sync"@, Entry::Flag(d.status.in_sync)).insert(
                "membership_match"@,
                Entry::Flag(d.status.membership_match),
            ).insert("order_match"@, Entry::Flag(d.status.order_match));
            if d.status.membership_match {
                both
            } else {
                both.insert(
                    "added_in_zed"@,
                    json::texts(text::texts(d.status.added_in_zed@)),
                ).insert("removed_in_zed"@, json::texts(text::texts(d.status.removed_in_zed@)))
            }
        },
        None => file,
    }
}

/// Answers the list tool.
pub fn list_report(workspace_file: &str, file_folders: &[String], db: Option<DbFolders>) -> (r:
    String)
    ensures
        r@ == json::pretty(list_entries(workspace_file@, text::texts(file_folders@), db)),
        json::object_in(r@) == Some(
            list_entries(workspace_file@, text::texts(file_folders@), db),
        ),
{
    let mut m = json::new_object();
    json::put(&mut m, "workspace_file", Scalar::Text(workspace_file.to_string()));
    json::put(&mut m, "file_folders", Scalar::Texts(paths::copy_texts(file_folders)));
    if let Some(d) = db {
        json::put(&mut m, "db_folders", Scalar::Texts(d.folders));
        json::put(&mut m, "workspace_id", Scalar::Number(d.workspace_id));
        json::put(&mut m, "in_sync", Scalar::Flag(d.status.in_sync));
        json::put(&mut m, "membership_match", Scalar::Flag(d.status.membership_match));
        json::put(&mut m, "order_match", Scalar::Flag(d.status.order_match));
        if !d.status.membership_match {
            json::put(&mut m, "added_in_zed", Scalar::Texts(d.status.added_in_zed));
            json::put(&mut m, "removed_in_zed", Scalar::Texts(d.status.removed_in_zed));
        }
    }
    proof {
        let all = json::entries(m);
        assert forall|k: Seq<char>| #[trigger] all.contains_key(k) implies json::is_shallow(
            all[k],
        ) by {
            assert(k == "workspace_file"@ || k == "file_folders"@ || k == "db_folders"@ || k
                == "workspace_id"@ || k == "in_sync"@ || k == "membership_match"@ || k
                == "order_match"@ || k == "added_in_zed"@ || k == "removed_in_zed"@);
        }
        json::lemma_shallow(all);
    }
    json::to_pretty(&m).unwrap()
}

/// The answer of the add tool: what came of adding the folder to Zed, or that
/// the folder was there.
pub open spec fn add_entries(folder: Seq<char>, zed_result: Option<Seq<char>>) -> json::Entries {
    match zed_result {
        Some(z) => json::no_entries().insert("added"@, Entry::Flag(true)).insert(
            "folder"@,
            Entry::Text(folder),
        ).insert("zed_add_result"@, Entry::Text(z)),
        None => json::no_entries().insert("added"@, Entry::Flag(false)).insert(
            "reason"@,
            Entry::Text("folder already in workspace"@),
        ),
    }
}

/// Answers the add tool.
pub fn add_report(folder: &str, zed_result: Option<&str>) -> (r: String)
    ensures
        r@ == json::pretty(add_entries(folder@, text::opt_str(zed_result))),
        json::object_in(r@) == Some(add_entries(folder@, text::opt_str(zed_result))),
{
    let mut m = json::new_object();
    match zed_result {
        Some(z) => {
            json::put(&mut m, "added", Scalar::Flag(true));
            json::put(&mut m, "folder", Scalar::Text(folder.to_string()));
            json::put(&mut m, "zed_add_result", Scalar::Text(z.to_string()));
        },
        None => {
            json::put(&mut m, "added", Scalar::Flag(false));
            json::put(&mut m, "reason", Scalar::Text("folder already in workspace".to_string()));
        },
    }
    proof {
        let all = json::entries(m);
        assert forall|k: Seq<char>| #[trigger] all.contains_key(k) implies json::is_shallow(
            all[k],
        ) by {
            assert(k == "added"@ || k == "folder"@ || k == "zed_add_result"@ || k == "reason"@);
        }
        json::lemma_shallow(all);
    }
    json::to_pretty(&m).unwrap()
}

/// The answer of the remove tool: the folders that are left, and what came of
/// applying that to Zed where it was asked for; or that the folder was not there.
pub open spec fn remove_entries(
    folder: Seq<char>,
    left: Option<Seq<Seq<char>>>,
    reconciled: Option<Seq<char>>,
) -> json::Entries {
    match left {
        Some(l) => {
            let removed = json::no_entries().insert("removed"@, Entry::Flag(true)).insert(
                "folder"@,
                Entry::Text(folder),
            ).insert("remaining_folders"@, json::texts(l));
            match reconciled {
                Some(z) => removed.insert("reconcile"@, Entry::Text(z)),
                None => removed.insert("pending_restart"@, Entry::Flag(true)).insert(
                    "hint"@,
                    Entry::Text(
                        "Folder removed from file. Use reconcile=true or restart Zed to apply."@,
                    ),
                ),
            }
        },
        None => json::no_entries().insert("removed"@, Entry::Flag(false)).insert(
            "reason"@,
            Entry::Text("folder not found in workspace"@),
        ),
    }
}

pub open spec fn texts_of(v: Option<Vec<String>>) -> Option<Seq<Seq<char>>> {
    match v {
        Some(l) => Some(text::texts(l@)),
        None => None,
    }
}

/// Answers the remove tool.
pub fn remove_report(folder: &str, left: Option<Vec<String>>, reconciled: Option<&str>) -> (r:
    String)
    ensures
        r@ == json::pretty(remove_entries(folder@, texts_of(left), text::opt_str(reconciled))),
        json::object_in(r@) == Some(
            remove_entries(folder@, texts_of(left), text::opt_str(reconciled)),
        ),
{
    let mut m = json::new_object();
    match left {
        Some(l) => {
            json::put(&mut m, "removed", Scalar::Flag(true));
            json::put(&mut m, "folder", Scalar::Text(folder.to_string()));
            json::put(&mut m, "remaining_folders", Scalar::Texts(l));
            match reconciled {
                Some(z) => {
                    json::put(&mut m, "reconcile", Scalar::Text(z.to_string()));
                },
                None => {
                    json::put(&mut m, "pending_restart", Scalar::Flag(true));
                    let hint =
                        "Folder removed from file. Use reconcile=true or restart Zed to apply.";
                    json::put(&mut m, "hint", Scalar::Text(hint.to_string()));
                },
            }
        },
        None => {
            json::put(&mut m, "removed", Scalar::Flag(false));
            json::put(&mut m, "reason", Scalar::Text("folder not found in workspace".to_string()));
        },
    }
    proof {
        let all = json::entries(m);
        assert forall|k: Seq<char>| #[trigger] all.contains_key(k) implies json::is_shallow(
            all[k],
        ) by {
            assert(k == "removed"@ || k == "folder"@ || k == "remaining_folders"@ || k
                == "reconcile"@ || k == "pending_restart"@ || k == "hint"@ || k == "reason"@);
        }
        json::lemma_shallow(all);
    }
    json::to_pretty(&m).unwrap()
}

/// The answer of the sync tool.
pub open spec fn sync_entries(
    direction: Seq<char>,
    actions: Seq<Seq<char>>,
    reordered: bool,
    pinned: bool,
    conflict: bool,
    file_folders_after: Seq<Seq<char>>,
    db_folders: Seq<Seq<char>>,
) -> json::Entries {
    json::no_entries().insert("direction"@, Entry::Text(direction)).insert(
        "actions_taken"@,
        json::texts(actions),
    ).insert("reordered"@, Entry::Flag(reordered)).insert("pinned"@, Entry::Flag(pinned)).insert(
        "conflict"@,
        Entry::Flag(conflict),
    ).insert("file_folders_after"@, json::texts(file_folders_after)).insert("db_folders"@, json::texts(db_folders))
}

/// Answers the sync tool, with whether both sides had changed.
pub fn sync_report(
    direction: &str,
    actions: Vec<String>,
    reordered: bool,
    pinned: bool,
    conflict: bool,
    file_folders_after: Vec<String>,
    db_folders: Vec<String>,
) -> (r: String)
    ensures
        ({
            let m = sync_entries(
                direction@,
                text::texts(actions@),
                reordered,
                pinned,
                conflict,
                text::texts(file_folders_after@),
                text::texts(db_folders@),
            );
            r@ == json::pretty(m) && json::object_in(r@) == Some(m)
        }),
{
    let mut m = json::new_object();
    json::put(&mut m, "direction", Scalar::Text(direction.to_string()));
    json::put(&mut m, "actions_taken", Scalar::Texts(actions));
    json::put(&mut m, "reordered", Scalar::Flag(reordered));
    json::put(&mut m, "pinned", Scalar::Flag(pinned));
    json::put(&mut m, "conflict", Scalar::Flag(conflict));
    json::put(&mut m, "file_folders_after", Scalar::Texts(file_folders_after));
    json::put(&mut m, "db_folders", Scalar::Texts(db_folders));
    proof {
        let all = json::entries(m);
        assert forall|k: Seq<char>| #[trigger] all.contains_key(k) implies json::is_shallow(
            all[k],
        ) by {
            assert(k == "direction"@ || k == "actions_taken"@ || k == "reordered"@ || k
                == "pinned"@ || k == "conflict"@ || k == "file_folders_after"@ || k == "db_folders"@);
        }
        json::lemma_shallow(all);
    }
    json::to_pretty(&m).unwrap()
}

/// The answer of the discovery tool.
pub open spec fn discovery_entries(d: DiscoveryResult, roots: Seq<Seq<char>>) -> json::Entries {
    let mapping = json::no_entries().insert(
        "workspace_file"@,
        Entry::Text(d.mapping.workspace_file@),
    ).insert("last_sync_ts"@, json::optional(text::opt(d.mapping.last_sync_ts)));
    json::no_entries().insert("workspace_id"@, Entry::Whole(d.workspace_id as int)).insert(
        "project_name"@,
        Entry::Text(d.project_name@),
    ).insert("workspace_file"@, Entry::Text(d.workspace_file@)).insert(
        "db_path"@,
        Entry::Text(d.db_path@),
    ).insert("zed_channel"@, json::optional(text::opt(d.zed_channel))).insert(
        "mapping"@,
        Entry::Object(mapping),
    ).insert("roots"@, json::texts(roots))
}

/// Answers the discovery tool.
pub fn discovery_report(d: &DiscoveryResult, roots: &[String]) -> (r: String)
    ensures
        r@ == json::pretty(discovery_entries(*d, text::texts(roots@))),
        json::object_in(r@) == Some(discovery_entries(*d, text::texts(roots@))),
{
    let mut mapping = json::new_object();
    json::put(
        &mut mapping,
        "workspace_file",
        Scalar::Text(d.mapping.workspace_file.clone()),
    );
    json::put(
        &mut mapping,
        "last_sync_ts",
        json::optional_text(text::borrow_opt(&d.mapping.last_sync_ts)),
    );
    let ghost inner = json::entries(mapping);
    let mut m = json::new_object();
    json::put(&mut m, "workspace_id", Scalar::Number(d.workspace_id));
    json::put(&mut m, "project_name", Scalar::Text(d.project_name.clone()));
    json::put(&mut m, "workspace_file", Scalar::Text(d.workspace_file.clone()));
    json::put(&mut m, "db_path", Scalar::Text(d.db_path.clone()));
    json::put(&mut m, "zed_channel", json::optional_text(text::borrow_opt(&d.zed_channel)));
    json::put(&mut m, "mapping", Scalar::Object(mapping));
    json::put(&mut m, "roots", Scalar::Texts(paths::copy_texts(roots)));
    proof {
        assert forall|k: Seq<char>| #[trigger] inner.contains_key(k) implies json::is_plain(
            inner[k],
        ) by {
            assert(k == "workspace_file"@ || k == "last_sync_ts"@);
        }
        assert(json::is_shallow(Entry::Object(inner)));
        let all = json::entries(m);
        assert forall|k: Seq<char>| #[trigger] all.contains_key(k) implies json::is_shallow(
            all[k],
        ) by {
            assert(k == "workspace_id"@ || k == "project_name"@ || k == "workspace_file"@ || k
                == "db_path"@ || k == "zed_channel"@ || k == "mapping"@ || k == "roots"@);
        }
        json::lemma_shallow(all);
    }
    json::to_pretty(&m).unwrap()
}

/// What is known of Zed's database.
#[derive(Debug)]
pub enum DbState {
    Found { path: String, channel: Option<String>, accessible: bool },
    Missing { error: String },
}

impl DbState {
    /// The channel of the database.
    pub open spec fn channel_text(self) -> Option<Seq<char>> {
        match self {
            DbState::Found { channel, .. } => text::opt(channel),
            DbState::Missing { .. } => None,
        }
    }

    /// The channel whose hook is asked whether Zed runs.
    pub fn hook_channel(&self) -> (r: String)
        ensures
            r@ == hook_client::asked_channel(self.channel_text()),
    {
        match self {
            DbState::Found { channel, .. } => hook_client::hook_channel(text::borrow_opt(channel)),
            DbState::Missing { .. } => hook_client::hook_channel(None),
        }
    }
}

/// What is known of a workspace file.
#[derive(Debug)]
pub struct FileState {
    pub path: String,
    pub exists: bool,
    pub mapping: Option<WorkspaceMapping>,
}

/// What the status tool says of a mapping.
pub open spec fn mapping_entries(m: WorkspaceMapping) -> json::Entries {
    json::no_entries().insert("workspace_id"@, Entry::Whole(m.workspace_id as int)).insert(
        "workspace_file"@,
        Entry::Text(m.workspace_file@),
    ).insert("zed_channel"@, json::optional(text::opt(m.zed_channel))).insert(
        "last_sync_ts"@,
        json::optional(text::opt(m.last_sync_ts)),
    )
}

/// The answer of the status tool.
pub open spec fn status_entries(
    db: DbState,
    zed_running: bool,
    hook_available: bool,
    file: Option<FileState>,
) -> json::Entries {
    let start = match db {
        DbState::Found { path, channel, accessible } => json::no_entries().insert(
            "db_path"@,
            Entry::Text(path@),
        ).insert("zed_channel"@, json::optional(text::opt(channel))).insert(
            "db_accessible"@,
            Entry::Flag(accessible),
        ),
        DbState::Missing { error } => json::no_entries().insert("db_error"@, Entry::Text(error@)),
    };
    let zed = start.insert("zed_running"@, Entry::Flag(zed_running)).insert(
        "hook_available"@,
        Entry::Flag(hook_available),
    );
    match file {
        Some(f) => zed.insert("workspace_file"@, Entry::Text(f.path@)).insert(
            "workspace_file_exists"@,
            Entry::Flag(f.exists),
        ).insert(
            "mapping"@,
            match f.mapping {
                Some(m) => Entry::Object(mapping_entries(m)),
                None => Entry::Null,
            },
        ),
        None => zed,
    }
}

/// Answers the status tool.
pub fn status_report(
    db: DbState,
    zed_running: bool,
    hook_available: bool,
    file: Option<FileState>,
) -> (r: String)
    ensures
        r@ == json::pretty(status_entries(db, zed_running, hook_available, file)),
        json::object_in(r@) == Some(status_entries(db, zed_running, hook_available, file)),
{
    let mut m = json::new_object();
    match db {
        DbState::Found { path, channel, accessible } => {
            json::put(&mut m, "db_path", Scalar::Text(path));
            json::put(&mut m, "zed_channel", json::optional_text(text::borrow_opt(&channel)));
            json::put(&mut m, "db_accessible", Scalar::Flag(accessible));
        },
        DbState::Missing { error } => {
            json::put(&mut m, "db_error", Scalar::Text(error));
        },
    }
    json::put(&mut m, "zed_running", Scalar::Flag(zed_running));
    json::put(&mut m, "hook_available", Scalar::Flag(hook_available));
    let ghost start = json::entries(m);
    proof {
        assert forall|k: Seq<char>| #[trigger] start.contains_key(k) implies json::is_plain(
            start[k],
        ) by {
            assert(k == "db_path"@ || k == "zed_channel"@ || k == "db_accessible"@ || k
                == "db_error"@ || k == "zed_running"@ || k == "hook_available"@);
        }
    }
    if let Some(f) = file {
        json::put(&mut m, "workspace_file", Scalar::Text(f.path));
        json::put(&mut m, "workspace_file_exists", Scalar::Flag(f.exists));
        let mapping = match f.mapping {
            Some(p) => {
                let mut o = json::new_object();
                json::put(&mut o, "workspace_id", Scalar::Number(p.workspace_id));
                json::put(&mut o, "workspace_file", Scalar::Text(p.workspace_file));
                json::put(
                    &mut o,
                    "zed_channel",
                    json::optional_text(text::borrow_opt(&p.zed_channel)),
                );
                json::put(
                    &mut o,
                    "last_sync_ts",
                    json::optional_text(text::borrow_opt(&p.last_sync_ts)),
                );
                proof {
                    let inner = json::entries(o);
                    assert forall|k: Seq<char>| #[trigger]
                        inner.contains_key(k) implies json::is_plain(inner[k]) by {
                        assert(k == "workspace_id"@ || k == "workspace_file"@ || k
                            == "zed_channel"@ || k == "last_sync_ts"@);
                    }
                    assert(json::is_shallow(Entry::Object(inner)));
                }
                Scalar::Object(o)
            },
            None => Scalar::Null,
        };
        assert(json::is_shallow(mapping.entry()));
        json::put(&mut m, "mapping", mapping);
    }
    proof {
        let all = json::entries(m);
        assert forall|k: Seq<char>| #[trigger] all.contains_key(k) implies json::is_shallow(
            all[k],
        ) by {
            assert(start.contains_key(k) || k == "workspace_file"@ || k
                == "workspace_file_exists"@ || k == "mapping"@);
        }
        json::lemma_shallow(all);
    }
    json::to_pretty(&m).unwrap()
}

/// The answer of the open tool; the exit code is missing where the program was
/// ended by a signal.
pub open spec fn open_entries(
    mode: Option<Seq<char>>,
    folders: Seq<Seq<char>>,
    success: bool,
    exit_code: Option<i32>,
) -> json::Entries {
    json::no_entries().insert(
        "mode"@,
        Entry::Text(
            match mode {
                Some(m) => m,
                None => "new_window"@,
            },
        ),
    ).insert("folders_opened"@, json::texts(folders)).insert(
        "success"@,
        Entry::Flag(success),
    ).insert(
        "exit_code"@,
        match exit_code {
            Some(c) => Entry::Whole(c as int),
            None => Entry::Null,
        },
    )
}

/// Answers the open tool.
pub fn open_report(
    mode: Option<&str>,
    folders: &[String],
    success: bool,
    exit_code: Option<i32>,
) -> (r: String)
    ensures
        r@ == json::pretty(
            open_entries(text::opt_str(mode), text::texts(folders@), success, exit_code),
        ),
        json::object_in(r@) == Some(
            open_entries(text::opt_str(mode), text::texts(folders@), success, exit_code),
        ),
{
    let mut m = json::new_object();
    let name = match mode {
        Some(n) => n.to_string(),
        None => "new_window".to_string(),
    };
    json::put(&mut m, "mode", Scalar::Text(name));
    json::put(&mut m, "folders_opened", Scalar::Texts(paths::copy_texts(folders)));
    json::put(&mut m, "success", Scalar::Flag(success));
    let code = match exit_code {
        Some(c) => Scalar::Number(c as i64),
        None => Scalar::Null,
    };
    json::put(&mut m, "exit_code", code);
    proof {
        let all = json::entries(m);
        assert forall|k: Seq<char>| #[trigger] all.contains_key(k) implies json::is_shallow(
            all[k],
        ) by {
            assert(k == "mode"@ || k == "folders_opened"@ || k == "success"@ || k == "exit_code"@);
        }
        json::lemma_shallow(all);
    }
    json::to_pretty(&m).unwrap()
}

/// The answer of the bootstrap tool, with the workspace of Zed that was found for
/// the new file.
pub open spec fn bootstrap_entries(
    path: Seq<char>,
    name: Seq<char>,
    folders: Seq<Seq<char>>,
    workspace_id: Option<i64>,
) -> json::Entries {
    json::no_entries().insert("workspace_file"@, Entry::Text(path)).insert(
        "workspace_name"@,
        Entry::Text(name),
    ).insert("folders"@, json::texts(folders)).insert(
        "mapping"@,
        match workspace_id {
            Some(id) => Entry::Object(
                json::no_entries().insert("workspace_id"@, Entry::Whole(id as int)).insert(
                    "mapping_created"@,
                    Entry::Flag(true),
                ),
            ),
            None => Entry::Null,
        },
    )
}

/// Answers the bootstrap tool.
pub fn bootstrap_report(path: &str, name: &str, folders: &[String], workspace_id: Option<i64>) -> (r:
    String)
    ensures
        r@ == json::pretty(
            bootstrap_entries(path@, name@, text::texts(folders@), workspace_id),
        ),
        json::object_in(r@) == Some(
            bootstrap_entries(path@, name@, text::texts(folders@), workspace_id),
        ),
{
    let mut m = json::new_object();
    json::put(&mut m, "workspace_file", Scalar::Text(path.to_string()));
    json::put(&mut m, "workspace_name", Scalar::Text(name.to_string()));
    json::put(&mut m, "folders", Scalar::Texts(paths::copy_texts(folders)));
    let mapping = match workspace_id {
        Some(id) => {
            let mut o = json::new_object();
            json::put(&mut o, "workspace_id", Scalar::Number(id));
            json::put(&mut o, "mapping_created", Scalar::Flag(true));
            proof {
                let inner = json::entries(o);
                assert forall|k: Seq<char>| #[trigger]
                    inner.contains_key(k) implies json::is_plain(inner[k]) by {
                    assert(k == "workspace_id"@ || k == "mapping_created"@);
                }
                assert(json::is_shallow(Entry::Object(inner)));
            }
            Scalar::Object(o)
        },
        None => Scalar::Null,
    };
    assert(json::is_shallow(mapping.entry()));
    json::put(&mut m, "mapping", mapping);
    proof {
        let all = json::entries(m);
        assert forall|k: Seq<char>| #[trigger] all.contains_key(k) implies json::is_shallow(
            all[k],
        ) by {
            assert(k == "workspace_file"@ || k == "workspace_name"@ || k == "folders"@ || k
                == "mapping"@);
        }
        json::lemma_shallow(all);
    }
    json::to_pretty(&m).unwrap()
}

/// The answer of the reorder tool.
pub open spec fn reorder_entries(order: Seq<Seq<char>>) -> json::Entries {
    json::no_entries().insert("reordered"@, Entry::Flag(true)).insert(
        "new_order"@,
        json::texts(order),
    )
}

/// Answers the reorder tool.
pub fn reorder_report(order: &[String]) -> (r: String)
    ensures
        r@ == json::pretty(reorder_entries(text::texts(order@))),
        json::object_in(r@) == Some(reorder_entries(text::texts(order@))),
{
    let mut m = json::new_object();
    json::put(&mut m, "reordered", Scalar::Flag(true));
    json::put(&mut m, "new_order", Scalar::Texts(paths::copy_texts(order)));
    proof {
        let all = json::entries(m);
        assert forall|k: Seq<char>| #[trigger] all.contains_key(k) implies json::is_shallow(
            all[k],
        ) by {
            assert(k == "reordered"@ || k == "new_order"@);
        }
        json::lemma_shallow(all);
    }
    json::to_pretty(&m).unwrap()
}

} // verus!
