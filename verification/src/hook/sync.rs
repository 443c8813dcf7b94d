//! Keeping the workspace file in step with what Zed writes: when a sync runs,
//! what it does, and when the target root has to be pinned again.
use std::collections::HashMap;
use vstd::prelude::*;

use crate::components;
use crate::hook::sqlite3_prepare::TARGET_PENDING;
use crate::hook_client::{FolderCommand, Invocation};
use crate::order;
use crate::paths;
use crate::pinning;
use crate::settings;
use crate::sync_engine;
use crate::sync_engine::{SyncDirection, SyncStamps};
use crate::text;
use crate::workspace_db;
use crate::workspace_db::WorkspaceRecord;
use crate::workspace_file;
use crate::workspace_file::{CodeWorkspaceFile, Error};

verus! {

broadcast use {vstd::string::group_string_axioms, vstd::std_specs::hash::group_hash_axioms};

/// The workspaces that wait for a sync, in the order in which they were written.
/// One thread at a time takes them out.
#[derive(Debug)]
pub struct SyncQueue {
    waiting: Vec<i64>,
    draining: bool,
}

impl SyncQueue {
    /// The workspaces that wait.
    pub closed spec fn waits(self) -> Seq<i64> {
        self.waiting@
    }

    /// A thread is taking workspaces out.
    pub closed spec fn is_draining(self) -> bool {
        self.draining
    }

    /// No workspace waits twice, and none waits without a thread that takes it out.
    pub open spec fn wf(self) -> bool {
        self.waits().no_duplicates() && (self.waits().len() > 0 ==> self.is_draining())
    }

    /// An empty queue.
    pub fn new() -> (r: Self)
        ensures
            r.wf(),
            r.waits() == Seq::<i64>::empty(),
            !r.is_draining(),
    {
        SyncQueue { waiting: Vec::new(), draining: false }
    }

    /// Lets a workspace wait, unless it does already; says whether a thread has
    /// to be started that takes workspaces out.
    pub fn enqueue_workspace_sync(&mut self, workspace_id: i64) -> (r: bool)
        requires
            old(self).wf(),
        ensures
            final(self).wf(),
            final(self).waits() == (if old(self).waits().contains(workspace_id) {
                old(self).waits()
            } else {
                old(self).waits().push(workspace_id)
            }),
            final(self).waits().contains(workspace_id),
            r == !old(self).is_draining(),
            final(self).is_draining(),
    {
        let mut held = false;
        let mut i: usize = 0;
        while i < self.waiting.len()
            invariant
                i <= self.waiting.len(),
                self == old(self),
                held == (exists|k: int| 0 <= k < i && self.waiting@[k] == workspace_id),
            decreases self.waiting.len() - i,
        {
            if self.waiting[i] == workspace_id {
                held = true;
            }
            i = i + 1;
        }
        if !held {
            let ghost before = self.waiting@;
            self.waiting.push(workspace_id);
            assert(self.waiting@[before.len() as int] == workspace_id);
        }
        let start = !self.draining;
        self.draining = true;
        start
    }

    /// Takes out the workspace that has waited longest. Where none waits, the
    /// thread that asks is done.
    pub fn take_next(&mut self) -> (r: Option<i64>)
        requires
            old(self).wf(),
        ensures
            final(self).wf(),
            match r {
                Some(id) => {
                    &&& old(self).waits().len() > 0
                    &&& id == old(self).waits()[0]
                    &&& final(self).waits() == old(self).waits().skip(1)
                    &&& final(self).is_draining()
                    &&& !final(self).waits().contains(id)
                },
                None => {
                    &&& old(self).waits().len() == 0
                    &&& final(self).waits().len() == 0
                    &&& !final(self).is_draining()
                },
            },
    {
        if self.waiting.len() == 0 {
            self.draining = false;
            return None;
        }
        let ghost before = self.waiting@;
        let id = self.waiting.remove(0);
        proof {
            assert(before.remove(0) == before.skip(1));
            assert forall|k: int| 0 <= k < self.waiting@.len() implies self.waiting@[k] != id by {
                assert(self.waiting@[k] == before[k + 1]);
            }
        }
        Some(id)
    }
}

/// When each workspace was last brought in step, in milliseconds.
#[derive(Debug)]
pub struct Debounce {
    times: HashMap<i64, u64>,
}

/// So little time has passed that the workspace is left alone.
pub open spec fn within(last: u64, now_ms: u64, cooldown_ms: u64) -> bool {
    (if now_ms > last {
        now_ms - last
    } else {
        0
    }) < cooldown_ms
}

impl Debounce {
    /// The times by workspace.
    pub closed spec fn last(self) -> Map<i64, u64> {
        self.times@
    }

    /// No workspace has been brought in step yet.
    pub fn new() -> (r: Self)
        ensures
            r.last() == Map::<i64, u64>::empty(),
    {
        Debounce { times: HashMap::new() }
    }

    /// The workspace was brought in step a short time ago.
    pub open spec fn is_cooling(self, workspace_id: i64, now_ms: u64, cooldown_ms: u64) -> bool {
        self.last().contains_key(workspace_id) && within(
            self.last()[workspace_id],
            now_ms,
            cooldown_ms,
        )
    }

    /// Whether the workspace was brought in step a short time ago.
    pub fn cooling(&self, workspace_id: i64, now_ms: u64, cooldown_ms: u64) -> (r: bool)
        ensures
            r == self.is_cooling(workspace_id, now_ms, cooldown_ms),
    {
        match self.times.get(&workspace_id) {
            Some(last) => elapsed(*last, now_ms) < cooldown_ms,
            None => false,
        }
    }

    /// The workspace is in step now; this says nothing of other workspaces.
    pub fn record(&mut self, workspace_id: i64, now_ms: u64)
        ensures
            final(self).last() == old(self).last().insert(workspace_id, now_ms),
    {
        self.times.insert(workspace_id, now_ms);
    }
}

/// The time since `last`; none where the clock was set back.
fn elapsed(last: u64, now_ms: u64) -> (r: u64)
    ensures
        r == (if now_ms > last {
            now_ms - last
        } else {
            0
        }),
{
    if now_ms > last {
        now_ms - last
    } else {
        0
    }
}

/// Bringing one workspace in step never holds back another one.
pub proof fn lemma_cooldown_is_per_workspace(
    before: Debounce,
    after: Debounce,
    synced: i64,
    other: i64,
    at: u64,
    now_ms: u64,
    cooldown_ms: u64,
)
    requires
        after.last() == before.last().insert(synced, at),
        other != synced,
    ensures
        after.is_cooling(other, now_ms, cooldown_ms) == before.is_cooling(
            other,
            now_ms,
            cooldown_ms,
        ),
        after.is_cooling(synced, now_ms, cooldown_ms) == within(at, now_ms, cooldown_ms),
{
}

/// Whether a discovery may run, given when the last one ran; 0 stands for none.
pub fn run_discovery_due(last_ms: u64, now_ms: u64, cooldown_ms: u64) -> (r: bool)
    ensures
        r == (last_ms == 0 || !within(last_ms, now_ms, cooldown_ms)),
{
    last_ms == 0 || elapsed(last_ms, now_ms) >= cooldown_ms
}

/// What a thread does that is started for a write of Zed's.
#[derive(Debug, Clone, Copy, PartialEq, Eq, Structural)]
pub struct WriteTask {
    /// Whether it looks for the workspace file first.
    pub discover: bool,
}

/// Decides about a write of Zed's: while a sync waits, the write is part of it;
/// else a thread is started, which looks for the workspace file where that has
/// not been tried.
pub fn on_workspace_write_detected(sync_pending: bool, state: u8) -> (r: Option<WriteTask>)
    ensures
        r == (if sync_pending {
            None
        } else {
            Some(WriteTask { discover: state == TARGET_PENDING })
        }),
{
    if sync_pending {
        None
    } else {
        Some(WriteTask { discover: state == TARGET_PENDING })
    }
}

/// What is done about a sync.
#[derive(Debug, Clone, Copy, PartialEq, Eq, Structural)]
pub enum Gate {
    /// There is no workspace file to keep in step.
    NoTarget,
    /// The workspace was brought in step a short time ago.
    Cooling,
    /// The workspace file is gone: it has to be discovered again.
    Lost,
    /// The sync runs.
    Sync,
}

/// Decides on a sync.
pub fn run_sync(
    target: Option<i64>,
    debounce: &Debounce,
    now_ms: u64,
    cooldown_ms: u64,
    file_exists: bool,
) -> (r: Gate)
    ensures
        r == (match target {
            None => Gate::NoTarget,
            Some(id) => if debounce.is_cooling(id, now_ms, cooldown_ms) {
                Gate::Cooling
            } else if !file_exists {
                Gate::Lost
            } else {
                Gate::Sync
            },
        }),
{
    match target {
        None => Gate::NoTarget,
        Some(id) => if debounce.cooling(id, now_ms, cooldown_ms) {
            Gate::Cooling
        } else if !file_exists {
            Gate::Lost
        } else {
            Gate::Sync
        },
    }
}

/// What a sync makes of a workspace file, with whether the file has to be written.
///
/// That is the case unless the file names Zed's folders in Zed's order. It then
/// names Zed's folders, and where only the order was different it has them in
/// Zed's order; both hold where the file's directory leads back to Zed's folders.
pub open spec fn is_event_sync(
    before: CodeWorkspaceFile,
    ws_file_path: Seq<char>,
    db: Seq<Seq<char>>,
    ws: CodeWorkspaceFile,
    r: Result<bool, Error>,
) -> bool {
    &&& ws.extra == before.extra
    &&& match components::parent(ws_file_path) {
        None => r matches Err(Error::NoParentDir) && ws.folders == before.folders,
        Some(base) => {
            let file = workspace_file::targets(base, before.list());
            let acts = sync_engine::plan(file, db, SyncDirection::ZedToFile);
            let e = sync_engine::edited(base, before.list(), db, acts);
            let after = workspace_file::targets(base, ws.list());
            &&& r == Ok::<bool, Error>(!workspace_file::same_order(file, db))
            &&& ws.list() == e.folders
            &&& workspace_file::same_order(file, db) ==> ws.list() == before.list()
            &&& sync_engine::all_lead_back(base, db) ==> forall|p: Seq<char>| #[trigger]
                after.contains(p) <==> workspace_file::normals(db).contains(p)
            &&& sync_engine::all_lead_back(base, db) && workspace_file::same_members(file, db)
                ==> after == workspace_file::normals(db)
        },
    }
}

/// Brings the folders of a workspace file in step with Zed's; says whether the
/// file has to be written.
pub fn do_event_driven_sync(
    ws: &mut CodeWorkspaceFile,
    ws_file_path: &str,
    db_paths: &[String],
) -> (r: Result<bool, Error>)
    ensures
        is_event_sync(*old(ws), ws_file_path@, text::texts(db_paths@), *final(ws), r),
{
    let stamps = SyncStamps { db: None, file: None, last_sync: None };
    match sync_engine::execute_sync(ws, ws_file_path, db_paths, SyncDirection::ZedToFile, stamps) {
        Ok(outcome) => {
            proof {
                let base = components::parent(ws_file_path@)->0;
                let file = workspace_file::targets(base, old(ws).list());
                let db = text::texts(db_paths@);
                sync_engine::lemma_targets_normal(base, old(ws).list());
                sync_engine::lemma_zed_to_file_modifies(base, old(ws).list(), db);
                sync_engine::lemma_in_sync(file, db, SyncDirection::ZedToFile);
                workspace_file::lemma_no_diff(file, db);
                if workspace_file::same_members(file, db) {
                    sync_engine::lemma_zed_to_file_settles(file, db);
                    let acts = sync_engine::plan(file, db, SyncDirection::ZedToFile);
                    if !workspace_file::same_order(file, db) {
                        assert(acts.last() is ReorderFile);
                    }
                }
            }
            Ok(outcome.file_modified)
        },
        Err(e) => Err(e),
    }
}

/// The first project name that the roots give, else that of the directory of
/// the workspace file.
pub open spec fn name_given(
    names: Seq<Option<String>>,
    dir_name: Option<Seq<char>>,
) -> Option<Seq<char>>
    decreases names.len(),
{
    if names.len() == 0 {
        dir_name
    } else if names[0] is Some {
        text::opt(names[0])
    } else {
        name_given(names.skip(1), dir_name)
    }
}

/// Picks the project name that tells the target root.
pub fn find_project_name(names: &[Option<String>], dir_name: Option<&str>) -> (r: Option<String>)
    ensures
        text::opt(r) == name_given(names@, text::opt_str(dir_name)),
{
    let mut i: usize = 0;
    assert(names@.skip(0) == names@);
    while i < names.len()
        invariant
            i <= names.len(),
            name_given(names@.skip(i as int), text::opt_str(dir_name)) == name_given(
                names@,
                text::opt_str(dir_name),
            ),
        decreases names.len() - i,
    {
        proof {
            assert(names@.skip(i as int).skip(1) == names@.skip(i + 1));
        }
        if let Some(n) = &names[i] {
            return Some(n.clone());
        }
        i = i + 1;
    }
    text::own_opt(dir_name)
}

/// The target root of a project has to be pinned: it is displayed, but not first.
pub open spec fn pin_due(
    shown: Seq<Seq<char>>,
    project_name: Seq<char>,
    holds_workspace_file: Seq<bool>,
) -> bool {
    pinning::target_root(shown, settings::name_of(project_name), holds_workspace_file) matches Some(
        t,
    ) && pinning::pinned(shown, t) is Some
}

/// Whether the target root of a project has to be pinned.
pub fn check_pinning_needed(
    db_paths: &[String],
    project_name: &str,
    holds_workspace_file: &[bool],
) -> (r: bool)
    ensures
        r == pin_due(text::texts(db_paths@), project_name@, holds_workspace_file@),
{
    match pinning::determine_target_root(db_paths, project_name, holds_workspace_file) {
        Some(target) => pinning::ensure_target_root_first(db_paths, target.as_str()).is_some(),
        None => false,
    }
}

/// What came of a sync.
#[derive(Debug, Clone, Copy, PartialEq, Eq, Structural)]
pub struct Synced {
    /// Whether the workspace file has to be written.
    pub modified: bool,
    /// Whether the target root has to be pinned.
    pub repin: bool,
}

/// Brings the folders of a workspace file in step with Zed's, and says whether the
/// target root has to be pinned, which does not hang on whether the file was in step.
/// Without a project name no root is the target.
pub fn sync_and_check(
    ws: &mut CodeWorkspaceFile,
    ws_file_path: &str,
    db_paths: &[String],
    project_name: Option<&str>,
    holds_workspace_file: &[bool],
) -> (r: Result<Synced, Error>)
    ensures
        is_event_sync(
            *old(ws),
            ws_file_path@,
            text::texts(db_paths@),
            *final(ws),
            match r {
                Ok(s) => Ok(s.modified),
                Err(e) => Err(e),
            },
        ),
        r matches Ok(s) ==> s.repin == (match text::opt_str(project_name) {
            Some(name) => pin_due(text::texts(db_paths@), name, holds_workspace_file@),
            None => false,
        }),
{
    let modified = match do_event_driven_sync(ws, ws_file_path, db_paths) {
        Ok(modified) => modified,
        Err(e) => {
            return Err(e);
        },
    };
    let repin = match project_name {
        Some(name) => check_pinning_needed(db_paths, name, holds_workspace_file),
        None => false,
    };
    Ok(Synced { modified, repin })
}

/// What Zed's database has for the target of a sync.
#[derive(Debug)]
pub enum Lookup {
    /// What it has under the workspace's number.
    ById(Option<WorkspaceRecord>),
    /// What it has under the folders of the workspace file.
    ByFolders(Option<WorkspaceRecord>),
}

/// How a sync goes on.
#[derive(Debug)]
pub enum Course {
    /// The database is asked by the folders of the workspace file.
    AskByFolders,
    /// The sync runs with the workspace.
    Sync(WorkspaceRecord),
    /// The workspace has a new number, which is written down before the sync runs.
    Retarget(WorkspaceRecord),
    /// The target is dropped, and the hook is in the given state: the workspace file
    /// has to be discovered again.
    Drop { state: u8 },
}

/// Decides how a sync goes on. Zed gives a workspace a new number when its folders
/// change: what is not found under the old one is looked for by the folders, and
/// what is not found then is no target any more.
pub fn follow_workspace(found: Lookup) -> (r: Course)
    ensures
        r == (match found {
            Lookup::ById(Some(record)) => Course::Sync(record),
            Lookup::ById(None) => Course::AskByFolders,
            Lookup::ByFolders(Some(record)) => Course::Retarget(record),
            Lookup::ByFolders(None) => Course::Drop { state: TARGET_PENDING },
        }),
{
    match found {
        Lookup::ById(Some(record)) => Course::Sync(record),
        Lookup::ById(None) => Course::AskByFolders,
        Lookup::ByFolders(Some(record)) => Course::Retarget(record),
        Lookup::ByFolders(None) => Course::Drop { state: TARGET_PENDING },
    }
}

/// What pins the target root of a workspace.
#[derive(Debug)]
pub struct PinPlan {
    pub target: String,
    /// The list of positions for the database, where its own has to be corrected.
    pub new_order: Option<String>,
    /// The command for the running Zed, where it does not display the root first.
    pub reuse: Option<Invocation>,
}

/// Plans how the target root of a workspace is pinned; there is no plan where no
/// root is the target.
///
/// Stored in the database, the new list of positions displays the target first.
pub fn run_pinning(
    record: &WorkspaceRecord,
    project_name: &str,
    holds_workspace_file: &[bool],
    channel: Option<&str>,
) -> (r: Option<PinPlan>)
    ensures
        ({
            let lex = text::texts(record.paths@);
            let shown = workspace_db::displayed(lex, record.paths_order@);
            let list = order::written_positions(record.paths_order@);
            match pinning::target_root(
                shown,
                settings::name_of(project_name@),
                holds_workspace_file@,
            ) {
                None => r is None,
                Some(t) => r matches Some(p) && {
                    &&& p.target@ == t
                    &&& text::opt(p.new_order) == pinning::corrected(lex, list, t)
                    &&& p.new_order matches Some(o) ==> paths::equal(
                        paths::ordered(lex, o@)[0],
                        t,
                    )
                    &&& match pinning::pinned(shown, t) {
                        Some(row) => p.reuse matches Some(i) && i.command == FolderCommand::Reuse
                            && text::texts(i.paths@) == row && text::opt(i.channel)
                            == text::opt_str(channel),
                        None => p.reuse is None,
                    }
                },
            }
        }),
{
    let db_paths = record.ordered_paths();
    let target = match pinning::determine_target_root(
        db_paths.as_slice(),
        project_name,
        holds_workspace_file,
    ) {
        Some(target) => target,
        None => {
            return None;
        },
    };
    let list = order::write_positions(record.paths_order.as_slice());
    let new_order = pinning::correct_paths_order(
        record.paths.as_slice(),
        list.as_str(),
        target.as_str(),
    );
    let n: usize = record.paths.len();
    proof {
        assert(text::texts(record.paths@).len() == n);
        pinning::lemma_correction_displays(text::texts(record.paths@), list@, target@);
    }
    let reuse = pinning::pin_target_root(db_paths.as_slice(), target.as_str(), channel);
    Some(PinPlan { target, new_order, reuse })
}

/// The project name with the workspace replaced by the one that Zed has now.
pub fn update_workspace_target(raw: &str, new_workspace_id: i64) -> (r: String)
    ensures
        r@ == settings::project_name(new_workspace_id, settings::name_of(raw@)),
{
    let (_, name) = settings::parse_project_name(raw);
    settings::format_project_name(new_workspace_id, name.as_str())
}

/// Replacing the workspace of a project name keeps its name, but for the suffix
/// of workspace files.
pub proof fn lemma_updated_name(raw: Seq<char>, new_workspace_id: i64)
    ensures
        ({
            let updated = settings::project_name(new_workspace_id, settings::name_of(raw));
            &&& settings::id_of(updated) == Some(new_workspace_id)
            &&& settings::name_of(updated) == settings::bare_name(settings::name_of(raw))
        }),
{
    settings::lemma_project_name_round_trip(new_workspace_id, settings::name_of(raw));
}

/// The folder that the project picker shows first.
pub open spec fn picker_target(
    target_file: Option<Seq<char>>,
    project_name: Option<Seq<char>>,
) -> Option<Seq<char>> {
    let by_file = match target_file {
        Some(f) => components::file_stem(f),
        None => None,
    };
    if by_file is Some {
        by_file
    } else {
        match project_name {
            Some(raw) => if settings::name_of(raw).len() > 0 {
                Some(settings::name_of(raw))
            } else {
                None
            },
            None => None,
        }
    }
}

/// Resolves the folder that the project picker shows first: by the workspace
/// file kept in step, else by the project name of the working directory.
pub fn resolve_picker_target_name(target_file: Option<&str>, project_name: Option<&str>) -> (r:
    Option<String>)
    ensures
        text::opt(r) == picker_target(text::opt_str(target_file), text::opt_str(project_name)),
{
    if let Some(f) = target_file {
        if let Some(name) = components::file_stem_of(f) {
            return Some(name);
        }
    }
    match project_name {
        Some(raw) => {
            let (_, name) = settings::parse_project_name(raw);
            if name.as_str().is_empty() {
                None
            } else {
                Some(name)
            }
        },
        None => None,
    }
}

} // verus!
