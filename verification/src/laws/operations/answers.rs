//! Laws of the tools' answers: what is read under each key of what a tool says.
use vstd::prelude::*;

use crate::discovery::DiscoveryResult;
use crate::json;
use crate::json::Entry;
use crate::laws::answers;
use crate::laws::answers::{is_optional, is_row};
use crate::report;
use crate::report::{DbFolders, DbState, FileState};
use crate::text;

verus! {

/// `list_report` holds the folders of the file, and those of Zed with how they compare where
/// Zed has some.
pub proof fn law_list(w: &str, file: &[String], d: DbFolders, r: String, alone: String)
    requires
        call_ensures(report::list_report, (w, file, Some(d)), r),
        call_ensures(report::list_report, (w, file, None), alone),
    ensures
        json::object_in(r@) matches Some(m) && {
            &&& m["workspace_file"@] == Entry::Text(w@)
            &&& is_row(m["file_folders"@], text::texts(file@))
            &&& is_row(m["db_folders"@], text::texts(d.folders@))
            &&& m["workspace_id"@] == Entry::Whole(d.workspace_id as int)
            &&& m["in_sync"@] == Entry::Flag(d.status.in_sync)
            &&& m["membership_match"@] == Entry::Flag(d.status.membership_match)
            &&& m["order_match"@] == Entry::Flag(d.status.order_match)
        },
        json::object_in(alone@) matches Some(m) && is_row(m["file_folders"@], text::texts(file@))
            && !m.contains_key("db_folders"@),
{
    answers::law_list(w@, text::texts(file@), d);
}

/// `add_report` says whether the folder was added, and what came of it or why it was not.
pub proof fn law_add(folder: &str, z: &str, yes: String, no: String)
    requires
        call_ensures(report::add_report, (folder, Some(z)), yes),
        call_ensures(report::add_report, (folder, None), no),
    ensures
        json::object_in(yes@) matches Some(m) && m["added"@] == Entry::Flag(true) && m["folder"@]
            == Entry::Text(folder@) && m["zed_add_result"@] == Entry::Text(z@),
        json::object_in(no@) matches Some(m) && m["added"@] == Entry::Flag(false) && m.contains_key(
            "reason"@,
        ),
{
    answers::law_add(folder@, z@);
    reveal_strlit("added");
    reveal_strlit("reason");
    assert(report::add_entries(folder@, None).contains_key("reason"@));
}

/// `remove_report` says whether the folder was removed, which folders are left, and whether
/// Zed shows them already.
pub proof fn law_remove(
    folder: &str,
    left: Vec<String>,
    z: &str,
    told: String,
    waits: String,
    no: String,
)
    requires
        call_ensures(report::remove_report, (folder, Some(left), Some(z)), told),
        call_ensures(report::remove_report, (folder, Some(left), None), waits),
        call_ensures(report::remove_report, (folder, None, Some(z)), no),
    ensures
        json::object_in(told@) matches Some(m) && m["removed"@] == Entry::Flag(true) && is_row(
            m["remaining_folders"@],
            text::texts(left@),
        ) && m["reconcile"@] == Entry::Text(z@) && !m.contains_key("pending_restart"@),
        json::object_in(waits@) matches Some(m) && m["removed"@] == Entry::Flag(true) && is_row(
            m["remaining_folders"@],
            text::texts(left@),
        ) && m["pending_restart"@] == Entry::Flag(true),
        json::object_in(no@) matches Some(m) && m["removed"@] == Entry::Flag(false),
{
    answers::law_remove(folder@, text::texts(left@), z@);
}

/// `sync_report` holds what was done and the folders of both sides.
pub proof fn law_sync(
    direction: &str,
    actions: Vec<String>,
    reordered: bool,
    pinned: bool,
    conflict: bool,
    file: Vec<String>,
    db: Vec<String>,
    r: String,
)
    requires
        call_ensures(
            report::sync_report,
            (direction, actions, reordered, pinned, conflict, file, db),
            r,
        ),
    ensures
        json::object_in(r@) matches Some(m) && {
            &&& m["direction"@] == Entry::Text(direction@)
            &&& is_row(m["actions_taken"@], text::texts(actions@))
            &&& m["reordered"@] == Entry::Flag(reordered)
            &&& m["pinned"@] == Entry::Flag(pinned)
            &&& m["conflict"@] == Entry::Flag(conflict)
            &&& is_row(m["file_folders_after"@], text::texts(file@))
            &&& is_row(m["db_folders"@], text::texts(db@))
        },
{
    answers::law_sync(
        direction@,
        text::texts(actions@),
        reordered,
        pinned,
        conflict,
        text::texts(file@),
        text::texts(db@),
    );
}

/// `discovery_report` holds what was found and the roots.
pub proof fn law_discovery(d: &DiscoveryResult, roots: &[String], r: String)
    requires
        call_ensures(report::discovery_report, (d, roots), r),
    ensures
        json::object_in(r@) matches Some(m) && {
            &&& m["workspace_id"@] == Entry::Whole(d.workspace_id as int)
            &&& m["project_name"@] == Entry::Text(d.project_name@)
            &&& m["workspace_file"@] == Entry::Text(d.workspace_file@)
            &&& m["db_path"@] == Entry::Text(d.db_path@)
            &&& is_optional(m["zed_channel"@], text::opt(d.zed_channel))
            &&& is_row(m["roots"@], text::texts(roots@))
        },
{
    answers::law_discovery(*d, text::texts(roots@));
}

/// `status_report` of a database that was found, with a workspace file, and of one that was
/// not.
pub proof fn law_status(
    path: String,
    channel: Option<String>,
    accessible: bool,
    error: String,
    running: bool,
    hook: bool,
    f: FileState,
    found: String,
    missing: String,
)
    requires
        call_ensures(
            report::status_report,
            (DbState::Found { path, channel, accessible }, running, hook, Some(f)),
            found,
        ),
        call_ensures(
            report::status_report,
            (DbState::Missing { error }, running, hook, None),
            missing,
        ),
    ensures
        json::object_in(found@) matches Some(m) && {
            &&& m["db_path"@] == Entry::Text(path@)
            &&& is_optional(m["zed_channel"@], text::opt(channel))
            &&& m["db_accessible"@] == Entry::Flag(accessible)
            &&& m["zed_running"@] == Entry::Flag(running)
            &&& m["hook_available"@] == Entry::Flag(hook)
            &&& m["workspace_file"@] == Entry::Text(f.path@)
            &&& m["workspace_file_exists"@] == Entry::Flag(f.exists)
        },
        json::object_in(missing@) matches Some(m) && {
            &&& m["db_error"@] == Entry::Text(error@) && !m.contains_key("db_path"@)
            &&& m["zed_running"@] == Entry::Flag(running)
            &&& m["hook_available"@] == Entry::Flag(hook)
        },
{
    answers::law_status(path, channel, accessible, error, running, hook, f);
}

/// `open_report`, `bootstrap_report` and `reorder_report` hold the folders that they were
/// handed, in their order, and what came of them.
pub proof fn law_folders_told(
    mode: Option<&str>,
    list: &[String],
    success: bool,
    code: Option<i32>,
    path: &str,
    name: &str,
    id: i64,
    o: String,
    b: String,
    r: String,
)
    requires
        call_ensures(report::open_report, (mode, list, success, code), o),
        call_ensures(report::bootstrap_report, (path, name, list, Some(id)), b),
        call_ensures(report::reorder_report, (list,), r),
    ensures
        json::object_in(o@) matches Some(m) && {
            &&& is_row(m["folders_opened"@], text::texts(list@))
            &&& m["success"@] == Entry::Flag(success)
            &&& code matches Some(c) ==> m["exit_code"@] == Entry::Whole(c as int)
        },
        json::object_in(b@) matches Some(m) && {
            &&& m["workspace_file"@] == Entry::Text(path@)
            &&& m["workspace_name"@] == Entry::Text(name@)
            &&& is_row(m["folders"@], text::texts(list@))
        },
        json::object_in(r@) matches Some(m) && m["reordered"@] == Entry::Flag(true) && is_row(
            m["new_order"@],
            text::texts(list@),
        ),
{
    answers::law_open(text::opt_str(mode), text::texts(list@), success, code);
    answers::law_bootstrap(path@, name@, text::texts(list@), id);
    answers::law_reorder(text::texts(list@));
}

} // verus!
