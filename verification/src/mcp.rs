//! What the tool server decides: editing a workspace file on request, comparing
//! it with Zed, opening it, and minding its own processes.
use vstd::prelude::*;
use vstd::slice::slice_subrange;

use crate::components;
use crate::decimal;
use crate::discovery;
use crate::hook_client;
use crate::hook_client::{FolderCommand, Invocation};
use crate::mapping;
use crate::mapping::WorkspaceMapping;
use crate::paths;
use crate::pinning;
use crate::settings;
use crate::sync_engine;
use crate::text;
use crate::workspace_db;
use crate::workspace_db::{Lookup, Query};
use crate::workspace_file;
use crate::workspace_file::{CodeWorkspaceFile, Error, Folder, WorkspaceFolder};

verus! {

broadcast use vstd::string::group_string_axioms;

/// The folders with one for `path` at a position, or at the end where the
/// position lies behind it, where none stands for the path yet.
pub open spec fn with_folder_at(
    base: Seq<char>,
    fs: Seq<Folder>,
    path: Seq<char>,
    position: int,
) -> Seq<Folder> {
    if workspace_file::targets(base, fs).contains(paths::normal(path)) {
        fs
    } else {
        fs.insert(
            clamped(position, fs.len()),
            workspace_file::unnamed(paths::relative(base, path)),
        )
    }
}

/// The index at which a folder asked for at a position stands.
pub open spec fn clamped(position: int, len: nat) -> int {
    if position < len {
        position
    } else {
        len as int
    }
}

/// Adding a folder at a position puts one that stands for the path there, and
/// leaves the others in their order, provided that what is written for the path
/// stands for it.
pub proof fn lemma_with_folder_at(
    base: Seq<char>,
    fs: Seq<Folder>,
    path: Seq<char>,
    position: int,
)
    requires
        0 <= position,
        workspace_file::faithful(base, path),
        !workspace_file::targets(base, fs).contains(paths::normal(path)),
    ensures
        ({
            let out = with_folder_at(base, fs, path, position);
            let at = clamped(position, fs.len());
            &&& workspace_file::targets(base, out)[at] == paths::normal(path)
            &&& out.remove(at) == fs
            &&& with_folder_at(base, out, path, position) == out
        }),
{
    let out = with_folder_at(base, fs, path, position);
    let at = clamped(position, fs.len());
    assert(out.remove(at) == fs);
    assert(workspace_file::targets(base, out)[at] == paths::normal(path));
}

/// Adds a folder to a workspace file, at a position or at the end, unless one
/// stands for it already; says whether it was added.
pub fn workspace_folders_add(
    ws: &mut CodeWorkspaceFile,
    workspace_file_path: &str,
    folder: &str,
    position: Option<usize>,
) -> (r: Result<bool, Error>)
    ensures
        final(ws).extra == old(ws).extra,
        match components::parent(workspace_file_path@) {
            Some(base) => {
                &&& r == Ok::<bool, Error>(
                    !workspace_file::targets(base, old(ws).list()).contains(paths::normal(folder@)),
                )
                &&& final(ws).list() == (match position {
                    Some(p) => with_folder_at(base, old(ws).list(), folder@, p as int),
                    None => workspace_file::with_folder(base, old(ws).list(), folder@),
                })
                &&& r == Ok::<bool, Error>(true) && paths::leads_back(base, folder@)
                    ==> workspace_file::faithful(base, folder@)
            },
            None => r matches Err(Error::NoParentDir) && final(ws).folders == old(ws).folders,
        },
{
    let added = match ws.add_folder(workspace_file_path, folder) {
        Ok(added) => added,
        Err(e) => {
            return Err(e);
        },
    };
    if let Some(p) = position {
        if added {
            let ghost base = components::parent(workspace_file_path@)->0;
            let ghost before = old(ws).list();
            let ghost all = ws.list();
            proof {
                assert(all == before.push(
                    workspace_file::unnamed(paths::relative(base, folder@)),
                ));
                assert(all.len() == ws.folders@.len());
            }
            let n: usize = ws.folders.len() - 1;
            let at: usize = if p < n {
                p
            } else {
                n
            };
            let f = ws.folders.remove(n);
            proof {
                assert(f@ == all[n as int]);
                assert(ws.list() == all.remove(n as int));
                assert(all.remove(n as int) == before);
            }
            ws.folders.insert(at, f);
            assert(ws.list() == before.insert(at as int, f@));
        }
    }
    Ok(added)
}

/// How the folders of a workspace file compare with Zed's.
#[derive(Debug)]
pub struct FolderStatus {
    pub membership_match: bool,
    pub order_match: bool,
    pub in_sync: bool,
    /// The folders that only Zed has.
    pub added_in_zed: Vec<String>,
    /// The folders that only the file has.
    pub removed_in_zed: Vec<String>,
}

/// Compares the folders of a workspace file with Zed's.
pub fn workspace_folders_list(file_folders: &[String], db_folders: &[String]) -> (r: FolderStatus)
    ensures
        ({
            let (file, db) = (text::texts(file_folders@), text::texts(db_folders@));
            &&& r.membership_match == workspace_file::same_members(file, db)
            &&& r.order_match == workspace_file::same_order(file, db)
            &&& r.in_sync == workspace_file::same_order(file, db)
            &&& text::texts(r.added_in_zed@) == workspace_file::added(file, db)
            &&& text::texts(r.removed_in_zed@) == workspace_file::added(db, file)
        }),
{
    let membership_match = workspace_file::folders_match_set(file_folders, db_folders);
    let order_match = workspace_file::folders_match_ordered(file_folders, db_folders);
    let diff = workspace_file::diff_folders(file_folders, db_folders);
    proof {
        workspace_file::lemma_no_diff(text::texts(file_folders@), text::texts(db_folders@));
    }
    FolderStatus {
        membership_match,
        order_match,
        in_sync: membership_match && order_match,
        added_in_zed: diff.added,
        removed_in_zed: diff.removed,
    }
}

/// Why folders are not put in another order.
#[derive(Debug, Clone, Copy, PartialEq, Eq, Structural)]
pub enum ReorderError {
    NoParentDir,
    /// The order does not name exactly the folders of the file.
    OtherFolders,
}

impl ReorderError {
    /// The reason in words.
    pub fn message(self) -> (r: &'static str)
        ensures
            r@ == (match self {
                ReorderError::NoParentDir => "workspace file has no parent directory"@,
                ReorderError::OtherFolders =>
                    "new order must contain exactly the same folders as the current workspace"@,
            }),
    {
        match self {
            ReorderError::NoParentDir => "workspace file has no parent directory",
            ReorderError::OtherFolders =>
                "new order must contain exactly the same folders as the current workspace",
        }
    }
}

/// Puts the folders of a workspace file in another order, which has to name
/// exactly the folders of the file.
///
/// The file then has its folders in that order, where its directory leads back to them.
pub fn workspace_folders_reorder(
    ws: &mut CodeWorkspaceFile,
    workspace_file_path: &str,
    new_order: &[String],
) -> (r: Result<(), ReorderError>)
    ensures
        final(ws).extra == old(ws).extra,
        match components::parent(workspace_file_path@) {
            Some(base) => {
                let file = workspace_file::targets(base, old(ws).list());
                let order = text::texts(new_order@);
                if workspace_file::same_members(file, order) {
                    &&& r is Ok
                    &&& final(ws).list() == workspace_file::written_folders(base, order)
                    &&& (forall|i: int|
                        0 <= i < order.len() ==> paths::leads_back(base, #[trigger] order[i]))
                        ==> workspace_file::targets(base, final(ws).list())
                        == workspace_file::normals(order)
                } else {
                    r == Err::<(), ReorderError>(ReorderError::OtherFolders) && final(ws).folders
                        == old(ws).folders
                }
            },
            None => r == Err::<(), ReorderError>(ReorderError::NoParentDir) && final(ws).folders
                == old(ws).folders,
        },
{
    let resolved = match ws.resolve(workspace_file_path) {
        Ok(resolved) => resolved,
        Err(_) => {
            return Err(ReorderError::NoParentDir);
        },
    };
    if !workspace_file::folders_match_set(resolved.folders.as_slice(), new_order) {
        return Err(ReorderError::OtherFolders);
    }
    match ws.set_folders_from_absolute(workspace_file_path, new_order) {
        Ok(()) => {
            proof {
                let base = components::parent(workspace_file_path@)->0;
                let order = text::texts(new_order@);
                if forall|i: int|
                    0 <= i < order.len() ==> paths::leads_back(base, #[trigger] order[i]) {
                    let after = workspace_file::targets(base, ws.list());
                    assert forall|i: int| 0 <= i < order.len() implies #[trigger] after[i]
                        == workspace_file::normals(order)[i] by {
                        assert(paths::leads_back(base, order[i]));
                        assert(workspace_file::faithful(base, new_order@[i]@));
                    }
                    assert(after == workspace_file::normals(order));
                }
            }
            Ok(())
        },
        Err(_) => Err(ReorderError::NoParentDir),
    }
}

/// Removes a folder from a workspace file; gives the folders that are left where
/// there was one to remove.
pub fn workspace_folders_remove(
    ws: &mut CodeWorkspaceFile,
    workspace_file_path: &str,
    folder: &str,
) -> (r: Result<Option<Vec<String>>, Error>)
    ensures
        final(ws).extra == old(ws).extra,
        match components::parent(workspace_file_path@) {
            Some(base) => {
                let after = workspace_file::without_folder(base, old(ws).list(), folder@);
                &&& final(ws).list() == after
                &&& r is Ok
                &&& r->Ok_0 is Some <==> workspace_file::targets(base, old(ws).list()).contains(
                    paths::normal(folder@),
                )
                &&& r->Ok_0 matches Some(left) ==> text::texts(left@) == workspace_file::targets(
                    base,
                    after,
                )
            },
            None => r matches Err(Error::NoParentDir) && final(ws).folders == old(ws).folders,
        },
{
    match ws.remove_folder(workspace_file_path, folder) {
        Ok(true) => match ws.resolve(workspace_file_path) {
            Ok(left) => Ok(Some(left.folders)),
            Err(e) => Err(e),
        },
        Ok(false) => Ok(None),
        Err(e) => Err(e),
    }
}

/// The questions that look for the workspace of a workspace file, in the order
/// in which they are asked until one is answered: by the project name beside the
/// file, by the mapping beside it, by its folders.
pub fn try_db_lookup(
    project_name: Option<&str>,
    mapping_id: Option<i64>,
    file_folders: &[String],
) -> (r: Vec<Lookup>)
    ensures
        ({
            let named = match text::opt_str(project_name) {
                Some(raw) => match settings::id_of(raw) {
                    Some(id) => seq![Query::ById(id)],
                    None => Seq::<Query>::empty(),
                },
                None => Seq::<Query>::empty(),
            };
            let mapped = match mapping_id {
                Some(id) => seq![Query::ById(id)],
                None => Seq::<Query>::empty(),
            };
            workspace_db::queries(r@) == named + (mapped + workspace_db::folder_queries(
                text::texts(file_folders@),
            ))
        }),
{
    let mut r = workspace_db::lookups_for_file(mapping_id, Some(file_folders));
    let ghost later = workspace_db::queries(r@);
    if let Some(raw) = project_name {
        let (id, _) = settings::parse_project_name(raw);
        if let Some(id) = id {
            r.insert(0, Lookup::ById(id));
            assert(workspace_db::queries(r@) == seq![Query::ById(id)] + later);
            return r;
        }
    }
    assert(Seq::<Query>::empty() + later == later);
    r
}

/// The command that pins the target root of a project among folders.
pub fn try_pin_target_root(
    folders: &[String],
    project_name: &str,
    holds_workspace_file: &[bool],
    channel: Option<&str>,
) -> (r: Option<Invocation>)
    ensures
        ({
            let all = text::texts(folders@);
            let row = match pinning::target_root(
                all,
                settings::name_of(project_name@),
                holds_workspace_file@,
            ) {
                Some(t) => pinning::pinned(all, t),
                None => None,
            };
            match row {
                Some(row) => r matches Some(i) && i.command == FolderCommand::Reuse
                    && text::texts(i.paths@) == row && text::opt(i.channel) == text::opt_str(
                    channel,
                ),
                None => r is None,
            }
        }),
{
    match pinning::determine_target_root(folders, project_name, holds_workspace_file) {
        Some(target) => pinning::pin_target_root(folders, target.as_str(), channel),
        None => None,
    }
}

/// Resolves the channel of the Zed that has a workspace file open: from the
/// mapping beside it, else from the database in use.
pub fn resolve_channel(mapping: Option<&WorkspaceMapping>, db_path: Option<&str>) -> (r: Option<
    String,
>)
    ensures
        text::opt(r) == sync_engine::channel_near(mapping, None, text::opt_str(db_path)),
{
    sync_engine::resolve_channel_for_path(mapping, None, db_path)
}

/// What came of a command for Zed, in words.
pub fn invocation_status(by_hook: Option<bool>, error: &str) -> (r: String)
    ensures
        r@ == (match by_hook {
            Some(true) => "ok (hook)"@,
            Some(false) => "ok (cli)"@,
            None => "failed: "@ + error@,
        }),
{
    match by_hook {
        Some(true) => "ok (hook)".to_string(),
        Some(false) => "ok (cli)".to_string(),
        None => text::concat("failed: ", error),
    }
}

/// How a workspace file is opened.
#[derive(Debug)]
pub enum OpenPlan {
    /// By a command for a running Zed.
    Invoke(Invocation),
    /// In a new window, by running the program with the folders.
    NewWindow { program: String, args: Vec<String> },
}

/// Decides how the folders of a workspace file are opened: `add` adds them to a
/// running Zed, `reuse` replaces its folders, and anything else opens a
/// new window. There must be folders.
pub fn workspace_open(mode: Option<&str>, folders: &[String], channel: Option<&str>) -> (r: Result<
    OpenPlan,
    String,
>)
    ensures
        if folders@.len() == 0 {
            r matches Err(e) && e@ == "workspace file has no folders"@
        } else if text::opt_str(mode) == Some("add"@) {
            r matches Ok(OpenPlan::Invoke(i)) && i.command == FolderCommand::Add && i.paths@
                == folders@ && text::opt(i.channel) == text::opt_str(channel)
        } else if text::opt_str(mode) == Some("reuse"@) {
            r matches Ok(OpenPlan::Invoke(i)) && i.command == FolderCommand::Reuse && i.paths@
                == folders@ && text::opt(i.channel) == text::opt_str(channel)
        } else {
            r matches Ok(OpenPlan::NewWindow { program, args }) && program@ == mapping::cli_of(
                text::opt_str(channel),
            ) && args@ == folders@
        },
{
    if folders.len() == 0 {
        return Err("workspace file has no folders".to_string());
    }
    proof {
        reveal_strlit("add");
        reveal_strlit("reuse");
        assert("add"@.len() != "reuse"@.len());
    }
    if let Some(m) = mode {
        if text::text_eq(m, "add") {
            return Ok(
                OpenPlan::Invoke(
                    Invocation {
                        command: FolderCommand::Add,
                        paths: paths::copy_texts(folders),
                        channel: text::own_opt(channel),
                    },
                ),
            );
        }
        if text::text_eq(m, "reuse") {
            return match hook_client::invoke_zed_reuse(folders, channel) {
                Ok(i) => Ok(OpenPlan::Invoke(i)),
                Err(e) => Err(e),
            };
        }
    }
    let program = mapping::zed_cli_command(channel).to_string();
    Ok(OpenPlan::NewWindow { program, args: paths::copy_texts(folders) })
}

/// A new workspace file.
#[derive(Debug)]
pub struct BootstrapPlan {
    pub name: String,
    pub path: String,
    pub folders: Vec<WorkspaceFolder>,
}

/// The name of a new workspace file: the one asked for, else that of the first folder.
pub open spec fn bootstrap_name(asked: Option<Seq<char>>, first: Seq<char>) -> Seq<char> {
    match asked {
        Some(n) => n,
        None => discovery::last_name(first),
    }
}

/// Plans a new workspace file in the first of the given folders; there must be some.
pub fn workspace_bootstrap(folder_paths: &[String], workspace_name: Option<&str>) -> (r: Result<
    BootstrapPlan,
    String,
>)
    ensures
        if folder_paths@.len() == 0 {
            r matches Err(e) && e@ == "folder_paths cannot be empty"@
        } else {
            let first = folder_paths@[0]@;
            let name = bootstrap_name(text::opt_str(workspace_name), first);
            r matches Ok(p) && p.name@ == name && p.path@ == settings::workspace_file(first, name)
                && workspace_file::folders_of(p.folders@) == workspace_file::written_folders(
                first,
                text::texts(folder_paths@),
            )
        },
{
    if folder_paths.len() == 0 {
        return Err("folder_paths cannot be empty".to_string());
    }
    let first = folder_paths[0].as_str();
    let name = match workspace_name {
        Some(n) => n.to_string(),
        None => discovery::last_name_of(first),
    };
    let path = settings::workspace_file_for_name(first, name.as_str());
    let folders = discovery::new_folders(first, folder_paths);
    Ok(BootstrapPlan { name, path, folders })
}

/// Picks the roots of a discovery: the folders of the workspace file given, else
/// the folder given.
pub fn discover_roots(file_folders: Option<Vec<String>>, folder_path: Option<&str>) -> (r: Option<
    Vec<String>,
>)
    ensures
        match (file_folders, folder_path) {
            (Some(f), _) => r == Some(f),
            (None, Some(p)) => r matches Some(v) && text::texts(v@) == seq![p@],
            (None, None) => r is None,
        },
{
    match file_folders {
        Some(f) => Some(f),
        None => match folder_path {
            Some(p) => {
                let mut v: Vec<String> = Vec::new();
                v.push(p.to_string());
                assert(text::texts(v@) =~= seq![p@]);
                Some(v)
            },
            None => None,
        },
    }
}

/// Whether Zed runs, and whether its hook answers: a socket that takes
/// connections is that of a running Zed, and without one its process is looked for.
pub fn workspace_status(connected: bool, ping_ok: bool, process_found: bool) -> (r: (bool, bool))
    ensures
        r == (if connected {
            (true, ping_ok)
        } else {
            (process_found, false)
        }),
{
    if connected {
        (true, ping_ok)
    } else {
        (process_found, false)
    }
}

/// The numbers among the given lines, but for one's own.
pub open spec fn other_pids(lines: Seq<Seq<char>>, own: u32) -> Seq<u32>
    decreases lines.len(),
{
    if lines.len() == 0 {
        Seq::<u32>::empty()
    } else {
        let before = other_pids(lines.drop_last(), own);
        match decimal::u32_of(text::trim(lines.last())) {
            Some(pid) => if pid != own {
                before.push(pid)
            } else {
                before
            },
            None => before,
        }
    }
}

/// Reads the numbers of other processes from a list, one in a line.
pub fn parse_pids(output: &str, my_pid: u32) -> (r: Vec<u32>)
    ensures
        r@ == other_pids(text::lines(output@), my_pid),
{
    let lines = text::lines_of(output);
    let ghost all = text::texts(lines@);
    let mut r: Vec<u32> = Vec::new();
    let mut i: usize = 0;
    assert(all.take(0) == Seq::<Seq<char>>::empty());
    while i < lines.len()
        invariant
            i <= lines.len(),
            all == text::texts(lines@),
            r@ == other_pids(all.take(i as int), my_pid),
        decreases lines.len() - i,
    {
        proof {
            assert(all.take(i + 1).drop_last() == all.take(i as int));
            assert(all.take(i + 1).last() == lines@[i as int]@);
        }
        let line = text::trim_text(lines[i].as_str());
        if let Some(pid) = decimal::parse_u32(line.as_str()) {
            if pid != my_pid {
                r.push(pid);
            }
        }
        i = i + 1;
    }
    assert(all.take(all.len() as int) == all);
    r
}

/// The position of the first white space of a text, or its length where it has none.
pub open spec fn first_white(s: Seq<char>) -> int
    decreases s.len(),
{
    if s.len() == 0 || text::is_white(s[0]) {
        0
    } else {
        1 + first_white(s.skip(1))
    }
}

/// The line about a process, its parent's number and then a command, is that of
/// a process whose parent is Zed.
pub open spec fn tells_zed(output: Seq<char>) -> bool {
    let line = text::trim(output);
    let at = first_white(line);
    let parent = line.take(at);
    let command = text::trim(line.skip(at + 1));
    &&& at < line.len()
    &&& parent != "1"@ && parent != "0"@
    &&& text::occurs_in("zed"@, command) || text::occurs_in("Zed"@, command)
}

/// Whether a process has a Zed as its parent, by the line about it.
pub fn is_parent_zed(output: &str) -> (r: bool)
    ensures
        r == tells_zed(output@),
{
    let line = text::trim_text(output);
    let v = text::chars_of(line.as_str());
    let n: usize = v.len();
    let mut at: usize = 0;
    assert(v@.skip(0) == v@);
    while at < n && !text::white(v[at])
        invariant
            at <= n == v.len(),
            first_white(v@) == at + first_white(v@.skip(at as int)),
        decreases n - at,
    {
        assert(v@.skip(at as int).skip(1) == v@.skip(at + 1));
        at = at + 1;
    }
    assert(first_white(v@.skip(at as int)) == 0);
    if at == n {
        return false;
    }
    proof {
        assert(v@.subrange(0, at as int) == v@.take(at as int));
        assert(v@.subrange(at + 1, n as int) == v@.skip(at + 1));
    }
    let parent = text::text_of(slice_subrange(v.as_slice(), 0, at));
    if text::text_eq(parent.as_str(), "1") || text::text_eq(parent.as_str(), "0") {
        return false;
    }
    let rest = text::text_of(slice_subrange(v.as_slice(), at + 1, n));
    let command = text::trim_text(rest.as_str());
    text::contains_text(command.as_str(), "zed") || text::contains_text(command.as_str(), "Zed")
}

/// Whether the process that started this one is gone: this one then has another
/// parent, or the first process of the system.
pub fn parent_is_gone(initial: i32, current: i32) -> (r: bool)
    ensures
        r == (current != initial || current <= 1),
{
    current != initial || current <= 1
}

} // verus!
