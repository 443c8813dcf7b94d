//! Laws of the answers of the tools: what each holds under each of its keys.
use vstd::prelude::*;

use crate::discovery::DiscoveryResult;
use crate::hook::socket_server;
use crate::hook_client;
use crate::hook_client::HookResponse;
use crate::json;
use crate::json::Entry;
use crate::report;
use crate::report::{DbFolders, DbState, FileState};
use crate::text;

verus! {

broadcast use vstd::string::group_string_axioms;

/// The entry is an array of the given strings.
pub open spec fn is_row(e: Entry, row: Seq<Seq<char>>) -> bool {
    e matches Entry::List(v) && v.len() == row.len() && forall|i: int|
        0 <= i < row.len() ==> #[trigger] v[i] == Entry::Text(row[i])
}

/// The entry is the string, or null where there is none.
pub open spec fn is_optional(e: Entry, t: Option<Seq<char>>) -> bool {
    match t {
        Some(s) => e == Entry::Text(s),
        None => e is Null,
    }
}

proof fn lemma_list_keys()
    ensures
        "workspace_file"@ != "file_folders"@,
        "workspace_file"@ != "db_folders"@,
        "workspace_file"@ != "workspace_id"@,
        "workspace_file"@ != "in_sync"@,
        "workspace_file"@ != "membership_match"@,
        "workspace_file"@ != "order_match"@,
        "workspace_file"@ != "added_in_zed"@,
        "workspace_file"@ != "removed_in_zed"@,
        "file_folders"@ != "db_folders"@,
        "file_folders"@ != "workspace_id"@,
        "file_folders"@ != "in_sync"@,
        "file_folders"@ != "membership_match"@,
        "file_folders"@ != "order_match"@,
        "file_folders"@ != "added_in_zed"@,
        "file_folders"@ != "removed_in_zed"@,
        "db_folders"@ != "workspace_id"@,
        "db_folders"@ != "in_sync"@,
        "db_folders"@ != "membership_match"@,
        "db_folders"@ != "order_match"@,
        "db_folders"@ != "added_in_zed"@,
        "db_folders"@ != "removed_in_zed"@,
        "workspace_id"@ != "in_sync"@,
        "workspace_id"@ != "membership_match"@,
        "workspace_id"@ != "order_match"@,
        "workspace_id"@ != "added_in_zed"@,
        "workspace_id"@ != "removed_in_zed"@,
        "in_sync"@ != "membership_match"@,
        "in_sync"@ != "order_match"@,
        "in_sync"@ != "added_in_zed"@,
        "in_sync"@ != "removed_in_zed"@,
        "membership_match"@ != "order_match"@,
        "membership_match"@ != "added_in_zed"@,
        "membership_match"@ != "removed_in_zed"@,
        "order_match"@ != "added_in_zed"@,
        "order_match"@ != "removed_in_zed"@,
        "added_in_zed"@ != "removed_in_zed"@,
{
    reveal_strlit("workspace_file");
    reveal_strlit("file_folders");
    reveal_strlit("db_folders");
    reveal_strlit("workspace_id");
    reveal_strlit("in_sync");
    reveal_strlit("membership_match");
    reveal_strlit("order_match");
    reveal_strlit("added_in_zed");
    reveal_strlit("removed_in_zed");
    assert("workspace_file"@.len() == 14);
    assert("file_folders"@.len() == 12);
    assert("db_folders"@.len() == 10);
    assert("workspace_id"@.len() == 12);
    assert("in_sync"@.len() == 7);
    assert("membership_match"@.len() == 16);
    assert("order_match"@.len() == 11);
    assert("added_in_zed"@.len() == 12);
    assert("removed_in_zed"@.len() == 14);
    assert("workspace_file"@[0] == 'w' && "removed_in_zed"@[0] == 'r');
    assert("file_folders"@[0] == 'f' && "workspace_id"@[0] == 'w');
    assert("file_folders"@[0] == 'f' && "added_in_zed"@[0] == 'a');
    assert("workspace_id"@[0] == 'w' && "added_in_zed"@[0] == 'a');
}

/// The list tool tells the file and its folders; with a workspace of Zed's its folders, its
/// number and how the two compare; and the folders of one side alone exactly where the two
/// do not name the same.
pub proof fn law_list(w: Seq<char>, file: Seq<Seq<char>>, d: DbFolders)
    ensures
        ({
            let alone = report::list_entries(w, file, None);
            let m = report::list_entries(w, file, Some(d));
            &&& alone["workspace_file"@] == Entry::Text(w) && m["workspace_file"@] == Entry::Text(w)
            &&& is_row(alone["file_folders"@], file) && is_row(m["file_folders"@], file)
            &&& !alone.contains_key("db_folders"@) && !alone.contains_key("in_sync"@)
            &&& m.contains_key("db_folders"@) && is_row(m["db_folders"@], text::texts(d.folders@))
            &&& m["workspace_id"@] == Entry::Whole(d.workspace_id as int)
            &&& m["in_sync"@] == Entry::Flag(d.status.in_sync)
            &&& m["membership_match"@] == Entry::Flag(d.status.membership_match)
            &&& m["order_match"@] == Entry::Flag(d.status.order_match)
            &&& m.contains_key("added_in_zed"@) == !d.status.membership_match
            &&& m.contains_key("removed_in_zed"@) == !d.status.membership_match
            &&& !d.status.membership_match ==> is_row(
                m["added_in_zed"@],
                text::texts(d.status.added_in_zed@),
            ) && is_row(m["removed_in_zed"@], text::texts(d.status.removed_in_zed@))
        }),
{
    lemma_list_keys();
}

proof fn lemma_add_keys()
    ensures
        "added"@ != "folder"@,
        "added"@ != "zed_add_result"@,
        "added"@ != "reason"@,
        "folder"@ != "zed_add_result"@,
        "folder"@ != "reason"@,
        "zed_add_result"@ != "reason"@,
{
    reveal_strlit("added");
    reveal_strlit("folder");
    reveal_strlit("zed_add_result");
    reveal_strlit("reason");
    assert("added"@.len() == 5);
    assert("folder"@.len() == 6);
    assert("zed_add_result"@.len() == 14);
    assert("reason"@.len() == 6);
    assert("folder"@[0] == 'f' && "reason"@[0] == 'r');
}

proof fn lemma_remove_keys()
    ensures
        "removed"@ != "folder"@,
        "removed"@ != "remaining_folders"@,
        "removed"@ != "reconcile"@,
        "removed"@ != "pending_restart"@,
        "removed"@ != "hint"@,
        "removed"@ != "reason"@,
        "folder"@ != "remaining_folders"@,
        "folder"@ != "reconcile"@,
        "folder"@ != "pending_restart"@,
        "folder"@ != "hint"@,
        "folder"@ != "reason"@,
        "remaining_folders"@ != "reconcile"@,
        "remaining_folders"@ != "pending_restart"@,
        "remaining_folders"@ != "hint"@,
        "remaining_folders"@ != "reason"@,
        "reconcile"@ != "pending_restart"@,
        "reconcile"@ != "hint"@,
        "reconcile"@ != "reason"@,
        "pending_restart"@ != "hint"@,
        "pending_restart"@ != "reason"@,
        "hint"@ != "reason"@,
{
    reveal_strlit("removed");
    reveal_strlit("folder");
    reveal_strlit("remaining_folders");
    reveal_strlit("reconcile");
    reveal_strlit("pending_restart");
    reveal_strlit("hint");
    reveal_strlit("reason");
    assert("removed"@.len() == 7);
    assert("folder"@.len() == 6);
    assert("remaining_folders"@.len() == 17);
    assert("reconcile"@.len() == 9);
    assert("pending_restart"@.len() == 15);
    assert("hint"@.len() == 4);
    assert("reason"@.len() == 6);
    assert("folder"@[0] == 'f' && "reason"@[0] == 'r');
}

/// The add tool tells whether the folder was added, and then what came of it, or else why not.
pub proof fn law_add(folder: Seq<char>, z: Seq<char>)
    ensures
        ({
            let yes = report::add_entries(folder, Some(z));
            let no = report::add_entries(folder, None);
            &&& yes["added"@] == Entry::Flag(true) && no["added"@] == Entry::Flag(false)
            &&& yes["folder"@] == Entry::Text(folder) && yes["zed_add_result"@] == Entry::Text(z)
            &&& !yes.contains_key("reason"@) && no["reason"@] == Entry::Text(
                "folder already in workspace"@,
            )
        }),
{
    lemma_add_keys();
}

/// The remove tool tells whether the folder was removed, and then which are left and whether
/// Zed has yet to be told, or else why not.
pub proof fn law_remove(folder: Seq<char>, left: Seq<Seq<char>>, z: Seq<char>)
    ensures
        ({
            let told = report::remove_entries(folder, Some(left), Some(z));
            let waits = report::remove_entries(folder, Some(left), None);
            let no = report::remove_entries(folder, None, Some(z));
            &&& told["removed"@] == Entry::Flag(true) && waits["removed"@] == Entry::Flag(true)
            &&& no["removed"@] == Entry::Flag(false) && no["reason"@] == Entry::Text(
                "folder not found in workspace"@,
            )
            &&& told["folder"@] == Entry::Text(folder) && waits["folder"@] == Entry::Text(folder)
            &&& is_row(told["remaining_folders"@], left) && is_row(waits["remaining_folders"@], left)
            &&& told["reconcile"@] == Entry::Text(z) && !told.contains_key("pending_restart"@)
            &&& waits["pending_restart"@] == Entry::Flag(true) && waits.contains_key("hint"@)
            &&& !waits.contains_key("reconcile"@) && !no.contains_key("remaining_folders"@)
            &&& report::remove_entries(folder, None, None) == no
        }),
{
    lemma_remove_keys();
}

proof fn lemma_sync_keys()
    ensures
        "direction"@ != "actions_taken"@,
        "direction"@ != "reordered"@,
        "direction"@ != "pinned"@,
        "direction"@ != "conflict"@,
        "direction"@ != "file_folders_after"@,
        "direction"@ != "db_folders"@,
        "actions_taken"@ != "reordered"@,
        "actions_taken"@ != "pinned"@,
        "actions_taken"@ != "conflict"@,
        "actions_taken"@ != "file_folders_after"@,
        "actions_taken"@ != "db_folders"@,
        "reordered"@ != "pinned"@,
        "reordered"@ != "conflict"@,
        "reordered"@ != "file_folders_after"@,
        "reordered"@ != "db_folders"@,
        "pinned"@ != "conflict"@,
        "pinned"@ != "file_folders_after"@,
        "pinned"@ != "db_folders"@,
        "conflict"@ != "file_folders_after"@,
        "conflict"@ != "db_folders"@,
        "file_folders_after"@ != "db_folders"@,
{
    reveal_strlit("direction");
    reveal_strlit("actions_taken");
    reveal_strlit("reordered");
    reveal_strlit("pinned");
    reveal_strlit("conflict");
    reveal_strlit("file_folders_after");
    reveal_strlit("db_folders");
    assert("direction"@.len() == 9);
    assert("actions_taken"@.len() == 13);
    assert("reordered"@.len() == 9);
    assert("pinned"@.len() == 6);
    assert("conflict"@.len() == 8);
    assert("file_folders_after"@.len() == 18);
    assert("db_folders"@.len() == 10);
    assert("direction"@[0] == 'd' && "reordered"@[0] == 'r');
}

proof fn lemma_discovery_keys()
    ensures
        "workspace_id"@ != "project_name"@,
        "workspace_id"@ != "workspace_file"@,
        "workspace_id"@ != "db_path"@,
        "workspace_id"@ != "zed_channel"@,
        "workspace_id"@ != "mapping"@,
        "workspace_id"@ != "roots"@,
        "workspace_id"@ != "last_sync_ts"@,
        "project_name"@ != "workspace_file"@,
        "project_name"@ != "db_path"@,
        "project_name"@ != "zed_channel"@,
        "project_name"@ != "mapping"@,
        "project_name"@ != "roots"@,
        "project_name"@ != "last_sync_ts"@,
        "workspace_file"@ != "db_path"@,
        "workspace_file"@ != "zed_channel"@,
        "workspace_file"@ != "mapping"@,
        "workspace_file"@ != "roots"@,
        "workspace_file"@ != "last_sync_ts"@,
        "db_path"@ != "zed_channel"@,
        "db_path"@ != "mapping"@,
        "db_path"@ != "roots"@,
        "db_path"@ != "last_sync_ts"@,
        "zed_channel"@ != "mapping"@,
        "zed_channel"@ != "roots"@,
        "zed_channel"@ != "last_sync_ts"@,
        "mapping"@ != "roots"@,
        "mapping"@ != "last_sync_ts"@,
        "roots"@ != "last_sync_ts"@,
{
    reveal_strlit("workspace_id");
    reveal_strlit("project_name");
    reveal_strlit("workspace_file");
    reveal_strlit("db_path");
    reveal_strlit("zed_channel");
    reveal_strlit("mapping");
    reveal_strlit("roots");
    reveal_strlit("last_sync_ts");
    assert("workspace_id"@.len() == 12);
    assert("project_name"@.len() == 12);
    assert("workspace_file"@.len() == 14);
    assert("db_path"@.len() == 7);
    assert("zed_channel"@.len() == 11);
    assert("mapping"@.len() == 7);
    assert("roots"@.len() == 5);
    assert("last_sync_ts"@.len() == 12);
    assert("workspace_id"@[0] == 'w' && "project_name"@[0] == 'p');
    assert("workspace_id"@[0] == 'w' && "last_sync_ts"@[0] == 'l');
    assert("project_name"@[0] == 'p' && "last_sync_ts"@[0] == 'l');
    assert("db_path"@[0] == 'd' && "mapping"@[0] == 'm');
}

/// The sync tool tells the direction, the steps, and what they came to.
pub proof fn law_sync(
    direction: Seq<char>,
    actions: Seq<Seq<char>>,
    reordered: bool,
    pinned: bool,
    conflict: bool,
    file: Seq<Seq<char>>,
    db: Seq<Seq<char>>,
)
    ensures
        ({
            let m = report::sync_entries(direction, actions, reordered, pinned, conflict, file, db);
            &&& m["direction"@] == Entry::Text(direction)
            &&& is_row(m["actions_taken"@], actions)
            &&& m["reordered"@] == Entry::Flag(reordered)
            &&& m["pinned"@] == Entry::Flag(pinned)
            &&& m["conflict"@] == Entry::Flag(conflict)
            &&& is_row(m["file_folders_after"@], file)
            &&& is_row(m["db_folders"@], db)
        }),
{
    lemma_sync_keys();
}

/// The discovery tool tells all that was found.
pub proof fn law_discovery(d: DiscoveryResult, roots: Seq<Seq<char>>)
    ensures
        ({
            let m = report::discovery_entries(d, roots);
            &&& m["workspace_id"@] == Entry::Whole(d.workspace_id as int)
            &&& m["project_name"@] == Entry::Text(d.project_name@)
            &&& m["workspace_file"@] == Entry::Text(d.workspace_file@)
            &&& m["db_path"@] == Entry::Text(d.db_path@)
            &&& is_optional(m["zed_channel"@], text::opt(d.zed_channel))
            &&& is_row(m["roots"@], roots)
            &&& m["mapping"@] matches Entry::Object(o) && o["workspace_file"@] == Entry::Text(
                d.mapping.workspace_file@,
            ) && is_optional(o["last_sync_ts"@], text::opt(d.mapping.last_sync_ts))
        }),
{
    lemma_discovery_keys();
}

proof fn lemma_status_keys()
    ensures
        "db_path"@ != "zed_channel"@,
        "db_path"@ != "db_accessible"@,
        "db_path"@ != "db_error"@,
        "db_path"@ != "zed_running"@,
        "db_path"@ != "hook_available"@,
        "db_path"@ != "workspace_file"@,
        "db_path"@ != "workspace_file_exists"@,
        "db_path"@ != "mapping"@,
        "db_path"@ != "workspace_id"@,
        "db_path"@ != "last_sync_ts"@,
        "zed_channel"@ != "db_accessible"@,
        "zed_channel"@ != "db_error"@,
        "zed_channel"@ != "zed_running"@,
        "zed_channel"@ != "hook_available"@,
        "zed_channel"@ != "workspace_file"@,
        "zed_channel"@ != "workspace_file_exists"@,
        "zed_channel"@ != "mapping"@,
        "zed_channel"@ != "workspace_id"@,
        "zed_channel"@ != "last_sync_ts"@,
        "db_accessible"@ != "db_error"@,
        "db_accessible"@ != "zed_running"@,
        "db_accessible"@ != "hook_available"@,
        "db_accessible"@ != "workspace_file"@,
        "db_accessible"@ != "workspace_file_exists"@,
        "db_accessible"@ != "mapping"@,
        "db_accessible"@ != "workspace_id"@,
        "db_accessible"@ != "last_sync_ts"@,
        "db_error"@ != "zed_running"@,
        "db_error"@ != "hook_available"@,
        "db_error"@ != "workspace_file"@,
        "db_error"@ != "workspace_file_exists"@,
        "db_error"@ != "mapping"@,
        "db_error"@ != "workspace_id"@,
        "db_error"@ != "last_sync_ts"@,
        "zed_running"@ != "hook_available"@,
        "zed_running"@ != "workspace_file"@,
        "zed_running"@ != "workspace_file_exists"@,
        "zed_running"@ != "mapping"@,
        "zed_running"@ != "workspace_id"@,
        "zed_running"@ != "last_sync_ts"@,
        "hook_available"@ != "workspace_file"@,
        "hook_available"@ != "workspace_file_exists"@,
        "hook_available"@ != "mapping"@,
        "hook_available"@ != "workspace_id"@,
        "hook_available"@ != "last_sync_ts"@,
        "workspace_file"@ != "workspace_file_exists"@,
        "workspace_file"@ != "mapping"@,
        "workspace_file"@ != "workspace_id"@,
        "workspace_file"@ != "last_sync_ts"@,
        "workspace_file_exists"@ != "mapping"@,
        "workspace_file_exists"@ != "workspace_id"@,
        "workspace_file_exists"@ != "last_sync_ts"@,
        "mapping"@ != "workspace_id"@,
        "mapping"@ != "last_sync_ts"@,
        "workspace_id"@ != "last_sync_ts"@,
{
    reveal_strlit("db_path");
    reveal_strlit("zed_channel");
    reveal_strlit("db_accessible");
    reveal_strlit("db_error");
    reveal_strlit("zed_running");
    reveal_strlit("hook_available");
    reveal_strlit("workspace_file");
    reveal_strlit("workspace_file_exists");
    reveal_strlit("mapping");
    reveal_strlit("workspace_id");
    reveal_strlit("last_sync_ts");
    assert("db_path"@.len() == 7);
    assert("zed_channel"@.len() == 11);
    assert("db_accessible"@.len() == 13);
    assert("db_error"@.len() == 8);
    assert("zed_running"@.len() == 11);
    assert("hook_available"@.len() == 14);
    assert("workspace_file"@.len() == 14);
    assert("workspace_file_exists"@.len() == 21);
    assert("mapping"@.len() == 7);
    assert("workspace_id"@.len() == 12);
    assert("last_sync_ts"@.len() == 12);
    assert("db_path"@[0] == 'd' && "mapping"@[0] == 'm');
    assert("zed_channel"@[4] == 'c' && "zed_running"@[4] == 'r');
    assert("hook_available"@[0] == 'h' && "workspace_file"@[0] == 'w');
    assert("workspace_id"@[0] == 'w' && "last_sync_ts"@[0] == 'l');
}

/// The status tool tells where the database is and whether it can be read, or why it is not
/// there; whether Zed and its hook run; and of a file asked for whether it is there, and its
/// mapping.
pub proof fn law_status(
    path: String,
    channel: Option<String>,
    accessible: bool,
    error: String,
    running: bool,
    hook: bool,
    f: FileState,
)
    ensures
        ({
            let found = report::status_entries(
                DbState::Found { path, channel, accessible },
                running,
                hook,
                Some(f),
            );
            let missing = report::status_entries(DbState::Missing { error }, running, hook, None);
            &&& found["db_path"@] == Entry::Text(path@)
            &&& is_optional(found["zed_channel"@], text::opt(channel))
            &&& found["db_accessible"@] == Entry::Flag(accessible)
            &&& !found.contains_key("db_error"@) && !missing.contains_key("db_path"@)
            &&& missing["db_error"@] == Entry::Text(error@)
            &&& found["zed_running"@] == Entry::Flag(running) && missing["zed_running"@]
                == Entry::Flag(running)
            &&& found["hook_available"@] == Entry::Flag(hook) && missing["hook_available"@]
                == Entry::Flag(hook)
            &&& found["workspace_file"@] == Entry::Text(f.path@) && !missing.contains_key(
                "workspace_file"@,
            )
            &&& found["workspace_file_exists"@] == Entry::Flag(f.exists)
            &&& f.mapping is None ==> found["mapping"@] is Null
            &&& f.mapping matches Some(g) ==> (found["mapping"@] matches Entry::Object(o)
                && o["workspace_id"@] == Entry::Whole(g.workspace_id as int) && o["workspace_file"@]
                == Entry::Text(g.workspace_file@) && is_optional(
                o["zed_channel"@],
                text::opt(g.zed_channel),
            ) && is_optional(o["last_sync_ts"@], text::opt(g.last_sync_ts)))
        }),
{
    lemma_status_keys();
}

proof fn lemma_open_keys()
    ensures
        "mode"@ != "folders_opened"@,
        "mode"@ != "success"@,
        "mode"@ != "exit_code"@,
        "folders_opened"@ != "success"@,
        "folders_opened"@ != "exit_code"@,
        "success"@ != "exit_code"@,
{
    reveal_strlit("mode");
    reveal_strlit("folders_opened");
    reveal_strlit("success");
    reveal_strlit("exit_code");
    assert("mode"@.len() == 4);
    assert("folders_opened"@.len() == 14);
    assert("success"@.len() == 7);
    assert("exit_code"@.len() == 9);
}

proof fn lemma_bootstrap_keys()
    ensures
        "workspace_file"@ != "workspace_name"@,
        "workspace_file"@ != "folders"@,
        "workspace_file"@ != "mapping"@,
        "workspace_file"@ != "workspace_id"@,
        "workspace_file"@ != "mapping_created"@,
        "workspace_name"@ != "folders"@,
        "workspace_name"@ != "mapping"@,
        "workspace_name"@ != "workspace_id"@,
        "workspace_name"@ != "mapping_created"@,
        "folders"@ != "mapping"@,
        "folders"@ != "workspace_id"@,
        "folders"@ != "mapping_created"@,
        "mapping"@ != "workspace_id"@,
        "mapping"@ != "mapping_created"@,
        "workspace_id"@ != "mapping_created"@,
{
    reveal_strlit("workspace_file");
    reveal_strlit("workspace_name");
    reveal_strlit("folders");
    reveal_strlit("mapping");
    reveal_strlit("workspace_id");
    reveal_strlit("mapping_created");
    assert("workspace_file"@.len() == 14);
    assert("workspace_name"@.len() == 14);
    assert("folders"@.len() == 7);
    assert("mapping"@.len() == 7);
    assert("workspace_id"@.len() == 12);
    assert("mapping_created"@.len() == 15);
    assert("workspace_file"@[10] == 'f' && "workspace_name"@[10] == 'n');
    assert("folders"@[0] == 'f' && "mapping"@[0] == 'm');
}

/// The open tool tells the mode, the folders, and how the program ended.
pub proof fn law_open(
    mode: Option<Seq<char>>,
    folders: Seq<Seq<char>>,
    success: bool,
    code: Option<i32>,
)
    ensures
        ({
            let m = report::open_entries(mode, folders, success, code);
            &&& m["mode"@] == Entry::Text(
                if mode is Some {
                    mode->0
                } else {
                    "new_window"@
                },
            )
            &&& is_row(m["folders_opened"@], folders)
            &&& m["success"@] == Entry::Flag(success)
            &&& code is None ==> m["exit_code"@] is Null
            &&& code matches Some(c) ==> m["exit_code"@] == Entry::Whole(c as int)
        }),
{
    lemma_open_keys();
}

/// The bootstrap tool tells the new file, and the workspace of Zed's that goes with it.
pub proof fn law_bootstrap(path: Seq<char>, name: Seq<char>, folders: Seq<Seq<char>>, id: i64)
    ensures
        ({
            let m = report::bootstrap_entries(path, name, folders, Some(id));
            let none = report::bootstrap_entries(path, name, folders, None);
            &&& m["workspace_file"@] == Entry::Text(path) && none["workspace_file"@] == Entry::Text(
                path,
            )
            &&& m["workspace_name"@] == Entry::Text(name) && none["workspace_name"@] == Entry::Text(
                name,
            )
            &&& is_row(m["folders"@], folders) && is_row(none["folders"@], folders)
            &&& none["mapping"@] is Null
            &&& m["mapping"@] matches Entry::Object(o) && o["workspace_id"@] == Entry::Whole(
                id as int,
            ) && o["mapping_created"@] == Entry::Flag(true)
        }),
{
    lemma_bootstrap_keys();
}

/// The reorder tool tells the new order.
pub proof fn law_reorder(order: Seq<Seq<char>>)
    ensures
        report::reorder_entries(order)["reordered"@] == Entry::Flag(true),
        is_row(report::reorder_entries(order)["new_order"@], order),
{
    reveal_strlit("reordered");
    reveal_strlit("new_order");
    assert("reordered"@[0] == 'r' && "new_order"@[0] == 'n');
}

/// A request for the hook names its command, and its paths as an array of strings.
pub proof fn law_request(cmd: Seq<char>, paths: Seq<Seq<char>>)
    ensures
        hook_client::bare_request(cmd)["cmd"@] == Entry::Text(cmd),
        !hook_client::bare_request(cmd).contains_key("paths"@),
        hook_client::paths_request(cmd, paths)["cmd"@] == Entry::Text(cmd),
        is_row(hook_client::paths_request(cmd, paths)["paths"@], paths),
{
    reveal_strlit("cmd");
    reveal_strlit("paths");
    assert("cmd"@.len() == 3 && "paths"@.len() == 5);
}

/// What is read from a line under a key: `true` alone is a yes, and a string alone is one.
pub proof fn law_under_key(line: Seq<char>, o: json::Entries, k: Seq<char>)
    ensures
        json::parsed(line) == Ok::<Entry, Seq<char>>(Entry::Object(o)) ==> {
            &&& hook_client::flag_in(line, k) <==> o.contains_key(k) && o[k] == Entry::Flag(true)
            &&& hook_client::string_in(line, k) is Some <==> o.contains_key(k) && o[k] is Text
            &&& o.contains_key(k) && o[k] is Text ==> hook_client::string_in(line, k) == Some(
                o[k]->Text_0,
            )
        },
        !(json::parsed(line) matches Ok(Entry::Object(_))) ==> !hook_client::flag_in(line, k)
            && hook_client::string_in(line, k) is None,
{
}

/// A line from the hook is an answer unless it is blank: one that is no JSON says why, and
/// of any other the whole value is kept, with a yes where it holds `true` under `ok`.
pub proof fn law_reply(line: Seq<char>, r: Option<Result<HookResponse, String>>)
    requires
        hook_client::is_reply(line, r),
    ensures
        r is None <==> text::trim(line).len() == 0,
        r is Some ==> (r->0 is Err <==> json::parsed(line) is Err),
        r is Some && r->0 is Ok ==> {
            let h = r->0->Ok_0;
            &&& json::parsed(line) == Ok::<Entry, Seq<char>>(json::held(h.raw))
            &&& h.ok <==> hook_client::flag_in(line, "ok"@)
            &&& text::opt(h.error) == hook_client::string_in(line, "error"@)
        },
{
}

/// What the hook answers: yes, with its number and its channel; no, with the reason; or yes
/// alone.
pub proof fn law_hook_answers(channel: Seq<char>, pid: u32, msg: Seq<char>)
    ensures
        socket_server::status_entries(channel, pid)["ok"@] == Entry::Flag(true),
        socket_server::status_entries(channel, pid)["pid"@] == Entry::Whole(pid as int),
        socket_server::status_entries(channel, pid)["channel"@] == Entry::Text(channel),
        socket_server::status_entries(channel, pid)["version"@] is Text,
        socket_server::error_entries(msg)["ok"@] == Entry::Flag(false),
        socket_server::error_entries(msg)["error"@] == Entry::Text(msg),
        socket_server::ok_entries()["ok"@] == Entry::Flag(true),
        socket_server::ok_entries().dom() == set!["ok"@],
{
    reveal_strlit("ok");
    reveal_strlit("pid");
    reveal_strlit("channel");
    reveal_strlit("version");
    reveal_strlit("error");
    assert("ok"@.len() == 2 && "pid"@.len() == 3 && "channel"@.len() == 7 && "version"@.len() == 7
        && "error"@.len() == 5);
    assert("channel"@[0] == 'c' && "version"@[0] == 'v');
    assert(socket_server::ok_entries().dom() =~= set!["ok"@]);
}

} // verus!
