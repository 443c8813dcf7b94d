//! Keeping a workspace file and Zed's folders in step: what has to be done, and
//! what it makes of the file.
use vstd::prelude::*;

use crate::components;
use crate::hook_client;
use crate::hook_client::{FolderCommand, Invocation};
use crate::mapping;
use crate::mapping::WorkspaceMapping;
use crate::paths;
use crate::text;
use crate::workspace_file;
use crate::workspace_file::{CodeWorkspaceFile, Error, Folder};

verus! {

broadcast use vstd::string::group_string_axioms;

/// Which side a sync takes as the truth.
#[derive(Debug, Clone, Copy, PartialEq, Eq, Structural)]
pub enum SyncDirection {
    /// The workspace file: Zed follows it.
    FileToZed,
    /// Zed: the workspace file follows it.
    ZedToFile,
    /// Both: each side gets what only the other has.
    Bidirectional,
}

/// One step of a sync.
#[derive(Debug, Clone, PartialEq, Eq)]
pub enum SyncAction {
    /// Add a folder to the workspace file.
    AddToFile(String),
    /// Remove a folder from the workspace file.
    RemoveFromFile(String),
    /// Put the folders of the workspace file in Zed's order.
    ReorderFile,
    /// Add a folder to the running Zed.
    InvokeCliAdd(String),
    /// A folder that Zed has and the file lacks; it cannot be removed from a running Zed.
    PendingRemoval(String),
}

/// What a sync did.
#[derive(Debug, Clone)]
pub struct SyncResult {
    pub actions_taken: Vec<SyncAction>,
    pub file_folders_after: Vec<String>,
    pub db_folders: Vec<String>,
    pub reordered: bool,
    pub conflict: bool,
}

/// When the two sides last changed and when they were last in step, as far as
/// it is known, on one scale of time.
#[derive(Debug, Clone, Copy, PartialEq, Eq, Structural)]
pub struct SyncStamps {
    pub db: Option<i64>,
    pub file: Option<i64>,
    pub last_sync: Option<i64>,
}

/// A step as the contracts see it.
pub enum Action {
    AddToFile(Seq<char>),
    RemoveFromFile(Seq<char>),
    ReorderFile,
    InvokeCliAdd(Seq<char>),
    PendingRemoval(Seq<char>),
}

impl View for SyncAction {
    type V = Action;

    open spec fn view(&self) -> Action {
        match self {
            SyncAction::AddToFile(p) => Action::AddToFile(p@),
            SyncAction::RemoveFromFile(p) => Action::RemoveFromFile(p@),
            SyncAction::ReorderFile => Action::ReorderFile,
            SyncAction::InvokeCliAdd(p) => Action::InvokeCliAdd(p@),
            SyncAction::PendingRemoval(p) => Action::PendingRemoval(p@),
        }
    }
}

pub open spec fn steps(v: Seq<SyncAction>) -> Seq<Action> {
    v.map_values(|a: SyncAction| a@)
}

pub open spec fn direction_named(s: Seq<char>) -> Option<SyncDirection> {
    if s == "file_to_zed"@ {
        Some(SyncDirection::FileToZed)
    } else if s == "zed_to_file"@ {
        Some(SyncDirection::ZedToFile)
    } else if s == "bidirectional"@ {
        Some(SyncDirection::Bidirectional)
    } else {
        None
    }
}

impl SyncDirection {
    /// The direction of the given name.
    pub fn parse(s: &str) -> (r: Result<SyncDirection, String>)
        ensures
            match direction_named(s@) {
                Some(d) => r == Ok::<SyncDirection, String>(d),
                None => r matches Err(e) && e@ == "unknown sync direction: "@ + s@,
            },
    {
        if text::text_eq(s, "file_to_zed") {
            Ok(SyncDirection::FileToZed)
        } else if text::text_eq(s, "zed_to_file") {
            Ok(SyncDirection::ZedToFile)
        } else if text::text_eq(s, "bidirectional") {
            Ok(SyncDirection::Bidirectional)
        } else {
            let mut e = "unknown sync direction: ".to_string();
            e.append(s);
            Err(e)
        }
    }
}

impl std::str::FromStr for SyncDirection {
    type Err = String;

    fn from_str(s: &str) -> (r: Result<Self, Self::Err>)
        ensures
            match direction_named(s@) {
                Some(d) => r == Ok::<SyncDirection, String>(d),
                None => r matches Err(e) && e@ == "unknown sync direction: "@ + s@,
            },
    {
        SyncDirection::parse(s)
    }
}

/// What `chrono::DateTime::parse_from_rfc3339` reads from a text, in
/// milliseconds since 1970.
pub uninterp spec fn rfc3339_millis(s: Seq<char>) -> Option<i64>;

/// What `chrono::NaiveDateTime::parse_from_str` reads from a text with a date and
/// a time of day in the given format, in milliseconds since 1970.
pub uninterp spec fn db_millis(s: Seq<char>, format: Seq<char>) -> Option<i64>;

/// The format in which SQLite writes a date and a time of day.
pub open spec fn db_format() -> Seq<char> {
    "%Y-%m-%d %H:%M:%S"@
}

/// `chrono::DateTime::parse_from_rfc3339`: the time that a text tells.
///
/// Which texts are read, and as which time, is not said beyond that it depends on
/// the text alone.
#[verifier::external_body]
fn read_rfc3339(s: &str) -> (r: Option<i64>)
    ensures
        r == rfc3339_millis(s@),
{
    chrono::DateTime::parse_from_rfc3339(s).ok().map(|t| t.timestamp_millis())
}

/// `chrono::NaiveDateTime::parse_from_str`: the time that a text in the given
/// format tells, which is in UTC.
///
/// Which texts are read, and as which time, is not said beyond that it depends on
/// the text and the format alone.
#[verifier::external_body]
fn read_db_time(s: &str, format: &str) -> (r: Option<i64>)
    ensures
        r == db_millis(s@, format@),
{
    let time = chrono::NaiveDateTime::parse_from_str(s, format).ok();
    time.map(|t| t.and_utc().timestamp_millis())
}

impl SyncStamps {
    /// Both sides changed since they were last in step.
    pub open spec fn in_conflict(self) -> bool {
        self.db is Some && self.file is Some && self.last_sync is Some && self.db->0
            > self.last_sync->0 && self.file->0 > self.last_sync->0
    }

    /// The stamps, in milliseconds since 1970: that of Zed's database and that of
    /// the last sync by their texts, where they can be read.
    pub fn read(db: Option<&str>, file: Option<i64>, last_sync: Option<&str>) -> (r: Self)
        ensures
            r.db == (match text::opt_str(db) {
                Some(t) => db_millis(t, db_format()),
                None => None,
            }),
            r.file == file,
            r.last_sync == (match text::opt_str(last_sync) {
                Some(t) => rfc3339_millis(t),
                None => None,
            }),
    {
        let db = match db {
            Some(t) => read_db_time(t, "%Y-%m-%d %H:%M:%S"),
            None => None,
        };
        let last_sync = match last_sync {
            Some(t) => read_rfc3339(t),
            None => None,
        };
        SyncStamps { db, file, last_sync }
    }

    /// Whether both sides changed since they were last in step.
    pub fn conflict(&self) -> (r: bool)
        ensures
            r == self.in_conflict(),
    {
        match (self.db, self.file, self.last_sync) {
            (Some(db), Some(file), Some(last)) => db > last && file > last,
            _ => false,
        }
    }
}

pub open spec fn adds(row: Seq<Seq<char>>) -> Seq<Action> {
    row.map_values(|p: Seq<char>| Action::AddToFile(p))
}

pub open spec fn removes(row: Seq<Seq<char>>) -> Seq<Action> {
    row.map_values(|p: Seq<char>| Action::RemoveFromFile(p))
}

pub open spec fn invokes(row: Seq<Seq<char>>) -> Seq<Action> {
    row.map_values(|p: Seq<char>| Action::InvokeCliAdd(p))
}

pub open spec fn pendings(row: Seq<Seq<char>>) -> Seq<Action> {
    row.map_values(|p: Seq<char>| Action::PendingRemoval(p))
}

/// The steps of a sync between the folders of a file and those of Zed.
pub open spec fn plan(
    file: Seq<Seq<char>>,
    db: Seq<Seq<char>>,
    direction: SyncDirection,
) -> Seq<Action> {
    let only_db = workspace_file::added(file, db);
    let only_file = workspace_file::added(db, file);
    match direction {
        SyncDirection::ZedToFile => adds(only_db) + removes(only_file) + (if only_db.len() == 0
            && only_file.len() == 0 && !workspace_file::same_order(file, db) {
            seq![Action::ReorderFile]
        } else {
            Seq::<Action>::empty()
        }),
        SyncDirection::FileToZed => invokes(only_file) + pendings(only_db),
        SyncDirection::Bidirectional => adds(only_db) + invokes(only_file),
    }
}

/// Computes the steps of a sync.
pub fn compute_sync_actions(
    file_folders: &[String],
    db_folders: &[String],
    direction: SyncDirection,
) -> (r: Vec<SyncAction>)
    ensures
        steps(r@) == plan(text::texts(file_folders@), text::texts(db_folders@), direction),
{
    let diff = workspace_file::diff_folders(file_folders, db_folders);
    let ghost only_db = text::texts(diff.added@);
    let ghost only_file = text::texts(diff.removed@);
    let mut actions: Vec<SyncAction> = Vec::new();
    assert(steps(actions@) == Seq::<Action>::empty());
    match direction {
        SyncDirection::ZedToFile => {
            push_all(&mut actions, diff.added.as_slice(), Kind::AddToFile);
            push_all(&mut actions, diff.removed.as_slice(), Kind::RemoveFromFile);
            let ghost before = steps(actions@);
            assert(before == adds(only_db) + removes(only_file));
            if diff.added.len() == 0 && diff.removed.len() == 0
                && !workspace_file::folders_match_ordered(file_folders, db_folders) {
                actions.push(SyncAction::ReorderFile);
                assert(steps(actions@) == before.push(Action::ReorderFile));
            }
            assert(only_db.len() == diff.added@.len() && only_file.len() == diff.removed@.len());
        },
        SyncDirection::FileToZed => {
            push_all(&mut actions, diff.removed.as_slice(), Kind::InvokeCliAdd);
            push_all(&mut actions, diff.added.as_slice(), Kind::PendingRemoval);
        },
        SyncDirection::Bidirectional => {
            push_all(&mut actions, diff.added.as_slice(), Kind::AddToFile);
            push_all(&mut actions, diff.removed.as_slice(), Kind::InvokeCliAdd);
        },
    }
    assert(steps(actions@) == plan(
        text::texts(file_folders@),
        text::texts(db_folders@),
        direction,
    ));
    actions
}

/// The steps that concern one folder each.
#[derive(Clone, Copy)]
enum Kind {
    AddToFile,
    RemoveFromFile,
    InvokeCliAdd,
    PendingRemoval,
}

spec fn of_kind(kind: Kind, row: Seq<Seq<char>>) -> Seq<Action> {
    match kind {
        Kind::AddToFile => adds(row),
        Kind::RemoveFromFile => removes(row),
        Kind::InvokeCliAdd => invokes(row),
        Kind::PendingRemoval => pendings(row),
    }
}

fn push_all(actions: &mut Vec<SyncAction>, row: &[String], kind: Kind)
    ensures
        steps(final(actions)@) == steps(old(actions)@) + of_kind(kind, text::texts(row@)),
{
    let ghost all = text::texts(row@);
    let ghost start = steps(actions@);
    let mut i: usize = 0;
    assert(start + of_kind(kind, all.take(0)) == start);
    while i < row.len()
        invariant
            i <= row.len(),
            all == text::texts(row@),
            start == steps(old(actions)@),
            steps(actions@) == start + of_kind(kind, all.take(i as int)),
        decreases row.len() - i,
    {
        let p = row[i].clone();
        let a = match kind {
            Kind::AddToFile => SyncAction::AddToFile(p),
            Kind::RemoveFromFile => SyncAction::RemoveFromFile(p),
            Kind::InvokeCliAdd => SyncAction::InvokeCliAdd(p),
            Kind::PendingRemoval => SyncAction::PendingRemoval(p),
        };
        let ghost before = steps(actions@);
        actions.push(a);
        i = i + 1;
        proof {
            assert(steps(actions@) == before.push(a@));
            assert(all.take(i as int) == all.take(i - 1).push(all[i - 1]));
            assert(of_kind(kind, all.take(i as int)) == of_kind(kind, all.take(i - 1)).push(a@));
        }
    }
    assert(all.take(all.len() as int) == all);
}

/// What steps have made of a file's folders.
pub struct Edit {
    pub folders: Seq<Folder>,
    pub modified: bool,
    pub reordered: bool,
}

/// The file after one step.
pub open spec fn edit_step(base: Seq<char>, e: Edit, db: Seq<Seq<char>>, a: Action) -> Edit {
    match a {
        Action::AddToFile(p) => Edit {
            folders: workspace_file::with_folder(base, e.folders, p),
            modified: e.modified || !workspace_file::targets(base, e.folders).contains(
                paths::normal(p),
            ),
            ..e
        },
        Action::RemoveFromFile(p) => Edit {
            folders: workspace_file::without_folder(base, e.folders, p),
            modified: e.modified || workspace_file::targets(base, e.folders).contains(
                paths::normal(p),
            ),
            ..e
        },
        Action::ReorderFile => Edit {
            folders: workspace_file::written_folders(base, db),
            modified: true,
            reordered: true,
        },
        Action::InvokeCliAdd(_) => e,
        Action::PendingRemoval(_) => e,
    }
}

/// The file after a row of steps.
pub open spec fn edited(
    base: Seq<char>,
    fs: Seq<Folder>,
    db: Seq<Seq<char>>,
    acts: Seq<Action>,
) -> Edit
    decreases acts.len(),
{
    if acts.len() == 0 {
        Edit { folders: fs, modified: false, reordered: false }
    } else {
        edit_step(base, edited(base, fs, db, acts.drop_last()), db, acts.last())
    }
}

/// Whether a path is among the folders after a row of steps, given those before.
pub open spec fn member_after(
    p: Seq<char>,
    before: Seq<Seq<char>>,
    db: Seq<Seq<char>>,
    acts: Seq<Action>,
) -> bool
    decreases acts.len(),
{
    if acts.len() == 0 {
        before.contains(p)
    } else {
        let held = member_after(p, before, db, acts.drop_last());
        match acts.last() {
            Action::AddToFile(q) => held || p == paths::normal(q),
            Action::RemoveFromFile(q) => held && p != paths::normal(q),
            Action::ReorderFile => workspace_file::normals(db).contains(p),
            Action::InvokeCliAdd(_) => held,
            Action::PendingRemoval(_) => held,
        }
    }
}

/// The directory of the file leads back to Zed's folders, as Zed has them and normalized.
pub open spec fn all_lead_back(base: Seq<char>, db: Seq<Seq<char>>) -> bool {
    forall|i: int|
        0 <= i < db.len() ==> paths::leads_back(base, #[trigger] db[i]) && paths::leads_back(
            base,
            paths::normal(db[i]),
        )
}

/// A path to be added is one of Zed's, normalized.
pub open spec fn adds_from(db: Seq<Seq<char>>, acts: Seq<Action>) -> bool {
    forall|i: int|
        0 <= i < acts.len() ==> (#[trigger] acts[i] matches Action::AddToFile(p)
            ==> workspace_file::normals(db).contains(p))
}

/// The folders are put in Zed's order in a last step only.
pub open spec fn reorders_last(acts: Seq<Action>) -> bool {
    forall|i: int|
        0 <= i < acts.len() && #[trigger] acts[i] is ReorderFile ==> i == acts.len() - 1
}

proof fn lemma_plan_adds(file: Seq<Seq<char>>, db: Seq<Seq<char>>, direction: SyncDirection)
    ensures
        adds_from(db, plan(file, db, direction)),
        reorders_last(plan(file, db, direction)),
{
    workspace_file::lemma_diff(file, db);
    let only_db = workspace_file::added(file, db);
    let acts = plan(file, db, direction);
    assert forall|i: int| 0 <= i < acts.len() implies (#[trigger] acts[i] matches Action::AddToFile(
        p,
    ) ==> workspace_file::normals(db).contains(p)) by {
        if acts[i] is AddToFile {
            assert(i < only_db.len());
            assert(acts[i] == Action::AddToFile(only_db[i]));
            assert(only_db.contains(only_db[i]));
        }
    }
}

proof fn lemma_member_concat(
    p: Seq<char>,
    before: Seq<Seq<char>>,
    db: Seq<Seq<char>>,
    a: Seq<Action>,
    row: Seq<Seq<char>>,
    b: Seq<Action>,
)
    requires
        workspace_file::all_normal(row),
        b == adds(row) || b == removes(row) || b == invokes(row) || b == pendings(row),
    ensures
        b == adds(row) ==> member_after(p, before, db, a + b) == (member_after(p, before, db, a)
            || row.contains(p)),
        b == removes(row) ==> member_after(p, before, db, a + b) == (member_after(p, before, db, a)
            && !row.contains(p)),
        b == invokes(row) ==> member_after(p, before, db, a + b) == member_after(p, before, db, a),
        b == pendings(row) ==> member_after(p, before, db, a + b) == member_after(p, before, db, a),
    decreases row.len(),
{
    if row.len() == 0 {
        assert(a + b == a);
    } else {
        let d = row.drop_last();
        let c = b.drop_last();
        assert(adds(d) == adds(row).drop_last());
        assert(removes(d) == removes(row).drop_last());
        assert(invokes(d) == invokes(row).drop_last());
        assert(pendings(d) == pendings(row).drop_last());
        assert(workspace_file::all_normal(d)) by {
            assert forall|i: int| 0 <= i < d.len() implies paths::normal(#[trigger] d[i]) == d[i] by {
                assert(row[i] == d[i]);
            }
        }
        lemma_member_concat(p, before, db, a, d, c);
        assert((a + b).drop_last() == a + c);
        assert((a + b).last() == b.last());
        let last = row[row.len() - 1];
        assert(paths::normal(last) == last);
        assert(row.contains(p) <==> d.contains(p) || p == last) by {
            if row.contains(p) {
                let k = choose|k: int| 0 <= k < row.len() && row[k] == p;
                if k < d.len() {
                    assert(d[k] == p);
                }
            }
            if d.contains(p) {
                let k = choose|k: int| 0 <= k < d.len() && d[k] == p;
                assert(row[k] == p);
            }
        }
        assert(b.len() == row.len());
        assert(adds(row).last() == Action::AddToFile(last));
        assert(removes(row).last() == Action::RemoveFromFile(last));
        assert(invokes(row).last() == Action::InvokeCliAdd(last));
        assert(pendings(row).last() == Action::PendingRemoval(last));
        if b == adds(row) {
            assert(c == adds(d));
        } else if b == removes(row) {
            assert(c == removes(d));
        } else if b == invokes(row) {
            assert(c == invokes(d));
        } else {
            assert(c == pendings(d));
        }
        // Rows of different kinds are never the same, since this one is not empty.
        assert(adds(row)[0] is AddToFile && removes(row)[0] is RemoveFromFile && invokes(
            row,
        )[0] is InvokeCliAdd && pendings(row)[0] is PendingRemoval);
    }
}

/// Where the planned steps lead: with Zed as the truth, to Zed's folders; with
/// the file as the truth, nowhere; with both, to the folders of either side.
pub proof fn lemma_plan_members(
    p: Seq<char>,
    file: Seq<Seq<char>>,
    db: Seq<Seq<char>>,
    direction: SyncDirection,
)
    requires
        workspace_file::all_normal(file),
    ensures
        member_after(p, file, db, plan(file, db, direction)) == (match direction {
            SyncDirection::ZedToFile => workspace_file::normals(db).contains(p),
            SyncDirection::FileToZed => file.contains(p),
            SyncDirection::Bidirectional => file.contains(p) || workspace_file::normals(
                db,
            ).contains(p),
        }),
{
    let only_db = workspace_file::added(file, db);
    let only_file = workspace_file::added(db, file);
    let none = Seq::<Action>::empty();
    workspace_file::lemma_diff(file, db);
    workspace_file::lemma_diff(db, file);
    assert(workspace_file::normals(file) == file) by {
        assert forall|i: int| 0 <= i < file.len() implies workspace_file::normals(file)[i]
            == file[i] by {
            assert(paths::normal(file[i]) == file[i]);
        }
    }
    workspace_file::lemma_normals(db);
    assert(workspace_file::all_normal(only_db)) by {
        assert forall|i: int| 0 <= i < only_db.len() implies paths::normal(#[trigger] only_db[i])
            == only_db[i] by {
            assert(only_db.contains(only_db[i]));
            let all = workspace_file::normals(db);
            let k = choose|k: int| 0 <= k < all.len() && all[k] == only_db[i];
            assert(paths::normal(all[k]) == all[k]);
        }
    }
    assert(workspace_file::all_normal(only_file)) by {
        assert forall|i: int| 0 <= i < only_file.len() implies paths::normal(
            #[trigger] only_file[i],
        ) == only_file[i] by {
            assert(only_file.contains(only_file[i]));
            let k = choose|k: int| 0 <= k < file.len() && file[k] == only_file[i];
            assert(paths::normal(file[k]) == file[k]);
        }
    }
    assert(only_db.contains(p) <==> workspace_file::normals(db).contains(p) && !file.contains(p));
    assert(only_file.contains(p) <==> file.contains(p) && !workspace_file::normals(db).contains(p));
    match direction {
        SyncDirection::ZedToFile => {
            lemma_member_concat(p, file, db, none, only_db, adds(only_db));
            assert(none + adds(only_db) == adds(only_db));
            lemma_member_concat(p, file, db, adds(only_db), only_file, removes(only_file));
            let first = adds(only_db) + removes(only_file);
            let acts = plan(file, db, direction);
            if acts.len() > first.len() {
                assert(acts.drop_last() == first);
            } else {
                assert(acts == first);
            }
        },
        SyncDirection::FileToZed => {
            lemma_member_concat(p, file, db, none, only_file, invokes(only_file));
            assert(none + invokes(only_file) == invokes(only_file));
            lemma_member_concat(p, file, db, invokes(only_file), only_db, pendings(only_db));
        },
        SyncDirection::Bidirectional => {
            lemma_member_concat(p, file, db, none, only_db, adds(only_db));
            assert(none + adds(only_db) == adds(only_db));
            lemma_member_concat(p, file, db, adds(only_db), only_file, invokes(only_file));
        },
    }
}

/// There is nothing to do, in any direction, exactly where the two sides name
/// the same folders and, with Zed as the truth, name them in the same order.
pub proof fn lemma_in_sync(
    file: Seq<Seq<char>>,
    db: Seq<Seq<char>>,
    direction: SyncDirection,
)
    ensures
        plan(file, db, direction).len() == 0 <==> (workspace_file::same_members(file, db) && (
        direction == SyncDirection::ZedToFile ==> workspace_file::same_order(file, db))),
        workspace_file::same_order(file, db) ==> plan(file, db, direction).len() == 0,
{
    workspace_file::lemma_no_diff(file, db);
}

/// With Zed as the truth, a file that names Zed's folders is at most put in
/// Zed's order, and one that has them in Zed's order is left alone.
pub proof fn lemma_zed_to_file_settles(file: Seq<Seq<char>>, db: Seq<Seq<char>>)
    requires
        workspace_file::same_members(file, db),
    ensures
        plan(file, db, SyncDirection::ZedToFile) == (if workspace_file::same_order(file, db) {
            Seq::<Action>::empty()
        } else {
            seq![Action::ReorderFile]
        }),
        plan(workspace_file::normals(db), db, SyncDirection::ZedToFile).len() == 0,
{
    workspace_file::lemma_no_diff(file, db);
    let none = Seq::<Action>::empty();
    assert(adds(workspace_file::added(file, db)) == none);
    assert(removes(workspace_file::added(db, file)) == none);
    assert(none + none + seq![Action::ReorderFile] == seq![Action::ReorderFile]);
    assert(none + none + none == none);
    let n = workspace_file::normals(db);
    assert(workspace_file::same_order(n, db)) by {
        assert forall|i: int| 0 <= i < db.len() implies workspace_file::normals(n)[i] == n[i] by {
            paths::lemma_normal_idempotent(db[i]);
        }
        assert(workspace_file::normals(n) == n);
    }
    lemma_in_sync(n, db, SyncDirection::ZedToFile);
}

/// With Zed as the truth, the file is modified exactly where there is a step to take.
pub proof fn lemma_zed_to_file_modifies(base: Seq<char>, fs: Seq<Folder>, db: Seq<Seq<char>>)
    ensures
        ({
            let acts = plan(workspace_file::targets(base, fs), db, SyncDirection::ZedToFile);
            edited(base, fs, db, acts).modified == (acts.len() > 0)
        }),
{
    let file = workspace_file::targets(base, fs);
    let acts = plan(file, db, SyncDirection::ZedToFile);
    if acts.len() > 0 {
        let only_db = workspace_file::added(file, db);
        let only_file = workspace_file::added(db, file);
        lemma_targets_normal(base, fs);
        workspace_file::lemma_diff(file, db);
        workspace_file::lemma_diff(db, file);
        workspace_file::lemma_normals(db);
        let one = acts.take(1);
        assert(one.drop_last() == Seq::<Action>::empty());
        assert(one.last() == acts[0]);
        if only_db.len() > 0 {
            let p = only_db[0];
            assert(acts[0] == Action::AddToFile(p));
            assert(only_db.contains(p));
            let all = workspace_file::normals(db);
            let k = choose|k: int| 0 <= k < all.len() && all[k] == p;
            assert(paths::normal(all[k]) == all[k]);
        } else if only_file.len() > 0 {
            let p = only_file[0];
            assert(acts[0] == Action::RemoveFromFile(p));
            assert(only_file.contains(p));
            let k = choose|k: int| 0 <= k < file.len() && file[k] == p;
            assert(paths::normal(file[k]) == file[k]);
        } else {
            assert(acts[0] == Action::ReorderFile);
        }
        assert(edited(base, fs, db, one.drop_last()).folders == fs);
        assert(edited(base, fs, db, one).modified);
        lemma_modified_stays(base, fs, db, acts, 1, acts.len() as int);
        assert(acts.take(acts.len() as int) == acts);
    }
}

proof fn lemma_modified_stays(
    base: Seq<char>,
    fs: Seq<Folder>,
    db: Seq<Seq<char>>,
    acts: Seq<Action>,
    m: int,
    n: int,
)
    requires
        0 <= m <= n <= acts.len(),
        edited(base, fs, db, acts.take(m)).modified,
    ensures
        edited(base, fs, db, acts.take(n)).modified,
    decreases n - m,
{
    if m < n {
        lemma_modified_stays(base, fs, db, acts, m, n - 1);
        assert(acts.take(n).drop_last() == acts.take(n - 1));
    }
}

/// The outcome of a sync on the file's side.
#[derive(Debug)]
pub struct SyncOutcome {
    pub result: SyncResult,
    /// Whether the workspace file has to be written.
    pub file_modified: bool,
}

/// Runs a sync on the workspace file: computes the steps, carries out those that
/// concern the file, and lists those that concern Zed for the caller.
///
/// With Zed as the truth the file then names exactly Zed's folders; with both,
/// the folders of either side; with the file as the truth it is left as it is.
/// The first two hold where the file's directory leads back to Zed's folders.
#[verifier::rlimit(40)]
pub fn execute_sync(
    ws: &mut CodeWorkspaceFile,
    workspace_file_path: &str,
    db_folders: &[String],
    direction: SyncDirection,
    stamps: SyncStamps,
) -> (r: Result<SyncOutcome, Error>)
    ensures
        final(ws).extra == old(ws).extra,
        match components::parent(workspace_file_path@) {
            None => r matches Err(Error::NoParentDir) && final(ws).folders == old(ws).folders,
            Some(base) => {
                let file = workspace_file::targets(base, old(ws).list());
                let db = text::texts(db_folders@);
                let acts = plan(file, db, direction);
                let e = edited(base, old(ws).list(), db, acts);
                let after = workspace_file::targets(base, final(ws).list());
                &&& r is Ok
                &&& steps(r->Ok_0.result.actions_taken@) == acts
                &&& final(ws).list() == e.folders
                &&& r->Ok_0.file_modified == e.modified
                &&& r->Ok_0.result.reordered == e.reordered
                &&& text::texts(r->Ok_0.result.file_folders_after@) == after
                &&& r->Ok_0.result.db_folders@ == db_folders@
                &&& r->Ok_0.result.conflict == stamps.in_conflict()
                &&& direction == SyncDirection::FileToZed ==> final(ws).list() == old(ws).list()
                    && !e.modified
                &&& e.reordered && all_lead_back(base, db) ==> after == workspace_file::normals(db)
                &&& direction == SyncDirection::ZedToFile && all_lead_back(base, db) ==> forall|
                    p: Seq<char>,
                | #[trigger]
                    after.contains(p) <==> workspace_file::normals(db).contains(p)
                &&& direction == SyncDirection::Bidirectional && all_lead_back(base, db) ==> forall|
                    p: Seq<char>,
                | #[trigger]
                    after.contains(p) <==> (file.contains(p) || workspace_file::normals(
                        db,
                    ).contains(p))
            },
        },
{
    let resolved = match ws.resolve(workspace_file_path) {
        Ok(resolved) => resolved,
        Err(e) => {
            return Err(e);
        },
    };
    let ghost base = components::parent(workspace_file_path@)->0;
    let ghost start = ws.list();
    let ghost file = workspace_file::targets(base, start);
    let ghost db = text::texts(db_folders@);
    let actions = compute_sync_actions(resolved.folders.as_slice(), db_folders, direction);
    let ghost acts = plan(file, db, direction);
    proof {
        lemma_plan_adds(file, db, direction);
        lemma_targets_normal(base, start);
    }
    let mut file_modified = false;
    let mut reordered = false;
    let mut i: usize = 0;
    assert(acts.take(0) == Seq::<Action>::empty());
    while i < actions.len()
        invariant
            i <= actions.len(),
            components::parent(workspace_file_path@) == Some(base),
            file == workspace_file::targets(base, start),
            db == text::texts(db_folders@),
            acts == steps(actions@),
            adds_from(db, acts),
            reorders_last(acts),
            reordered ==> i == actions.len(),
            reordered && all_lead_back(base, db) ==> workspace_file::targets(base, ws.list())
                == workspace_file::normals(db),
            ws.extra == old(ws).extra,
            ws.list() == edited(base, start, db, acts.take(i as int)).folders,
            file_modified == edited(base, start, db, acts.take(i as int)).modified,
            reordered == edited(base, start, db, acts.take(i as int)).reordered,
            all_lead_back(base, db) ==> forall|p: Seq<char>| #[trigger]
                workspace_file::targets(base, ws.list()).contains(p) <==> member_after(
                    p,
                    file,
                    db,
                    acts.take(i as int),
                ),
        decreases actions.len() - i,
    {
        let ghost before = ws.list();
        proof {
            assert(acts.take(i + 1).drop_last() == acts.take(i as int));
            assert(acts.take(i + 1).last() == actions@[i as int]@);
            assert(acts[i as int] == actions@[i as int]@);
        }
        match &actions[i] {
            SyncAction::AddToFile(path) => {
                match ws.add_folder(workspace_file_path, path.as_str()) {
                    Ok(added) => {
                        if added {
                            file_modified = true;
                        }
                    },
                    Err(e) => {
                        return Err(e);
                    },
                }
                proof {
                    if all_lead_back(base, db) {
                        let all = workspace_file::normals(db);
                        let k = choose|k: int| 0 <= k < all.len() && all[k] == path@;
                        assert(paths::leads_back(base, db[k]));
                        paths::lemma_normal_idempotent(db[k]);
                        workspace_file::lemma_with_folder(base, before, path@);
                    }
                }
            },
            SyncAction::RemoveFromFile(path) => {
                match ws.remove_folder(workspace_file_path, path.as_str()) {
                    Ok(removed) => {
                        if removed {
                            file_modified = true;
                        }
                    },
                    Err(e) => {
                        return Err(e);
                    },
                }
                proof {
                    workspace_file::lemma_without_folder(base, before, path@);
                }
            },
            SyncAction::ReorderFile => {
                match ws.set_folders_from_absolute(workspace_file_path, db_folders) {
                    Ok(()) => {},
                    Err(e) => {
                        return Err(e);
                    },
                }
                file_modified = true;
                reordered = true;
                proof {
                    if all_lead_back(base, db) {
                        let now = workspace_file::targets(base, ws.list());
                        assert(now == workspace_file::normals(db)) by {
                            assert forall|k: int| 0 <= k < db.len() implies now[k]
                                == workspace_file::normals(db)[k] by {
                                assert(db[k] == db_folders@[k]@);
                                assert(paths::leads_back(base, db[k]));
                            }
                        }
                    }
                }
            },
            SyncAction::InvokeCliAdd(_) => {},
            SyncAction::PendingRemoval(_) => {},
        }
        i = i + 1;
    }
    proof {
        assert(acts.take(acts.len() as int) == acts);
        if direction == SyncDirection::FileToZed {
            lemma_file_to_zed(base, start, file, db, acts.len() as int);
        }
        if all_lead_back(base, db) {
            let after = workspace_file::targets(base, ws.list());
            assert forall|p: Seq<char>| #[trigger] after.contains(p) <==> member_after(
                p,
                file,
                db,
                acts,
            ) by {}
            assert forall|p: Seq<char>| direction == SyncDirection::ZedToFile implies (
            #[trigger] after.contains(p) <==> workspace_file::normals(db).contains(p)) by {
                lemma_plan_members(p, file, db, direction);
            }
            assert forall|p: Seq<char>| direction == SyncDirection::Bidirectional implies (
            #[trigger] after.contains(p) <==> (file.contains(p) || workspace_file::normals(
                db,
            ).contains(p))) by {
                lemma_plan_members(p, file, db, direction);
            }
        }
    }
    let after = match ws.resolve(workspace_file_path) {
        Ok(after) => after,
        Err(e) => {
            return Err(e);
        },
    };
    let result = SyncResult {
        actions_taken: actions,
        file_folders_after: after.folders,
        db_folders: paths::copy_texts(db_folders),
        reordered,
        conflict: stamps.conflict(),
    };
    Ok(SyncOutcome { result, file_modified })
}

/// The paths that folders stand for are normalized.
pub proof fn lemma_targets_normal(base: Seq<char>, fs: Seq<Folder>)
    ensures
        workspace_file::all_normal(workspace_file::targets(base, fs)),
        workspace_file::normals(workspace_file::targets(base, fs)) == workspace_file::targets(
            base,
            fs,
        ),
{
    let all = workspace_file::targets(base, fs);
    assert forall|i: int| 0 <= i < all.len() implies paths::normal(#[trigger] all[i]) == all[i] by {
        paths::lemma_normal_idempotent(components::join(base, fs[i].path));
    }
    assert forall|i: int| 0 <= i < all.len() implies workspace_file::normals(all)[i] == all[i] by {
        assert(paths::normal(all[i]) == all[i]);
    }
    assert(workspace_file::normals(all) == all);
}

proof fn lemma_file_to_zed(
    base: Seq<char>,
    fs: Seq<Folder>,
    file: Seq<Seq<char>>,
    db: Seq<Seq<char>>,
    n: int,
)
    requires
        0 <= n <= plan(file, db, SyncDirection::FileToZed).len(),
    ensures
        edited(base, fs, db, plan(file, db, SyncDirection::FileToZed).take(n)) == (Edit {
            folders: fs,
            modified: false,
            reordered: false,
        }),
    decreases n,
{
    let acts = plan(file, db, SyncDirection::FileToZed);
    if n > 0 {
        lemma_file_to_zed(base, fs, file, db, n - 1);
        assert(acts.take(n).drop_last() == acts.take(n - 1));
        assert(acts.take(n).last() == acts[n - 1]);
        assert(acts[n - 1] is InvokeCliAdd || acts[n - 1] is PendingRemoval);
    }
}

/// The channel of the Zed that has a path open.
pub open spec fn channel_near(
    own: Option<&WorkspaceMapping>,
    parent: Option<&WorkspaceMapping>,
    db_path: Option<Seq<char>>,
) -> Option<Seq<char>> {
    if own is Some {
        text::opt(own->0.zed_channel)
    } else if parent is Some {
        text::opt(parent->0.zed_channel)
    } else {
        match db_path {
            Some(p) => mapping::channel_of_db(p),
            None => None,
        }
    }
}

/// Resolves the channel of the Zed that has a path open: from the mapping at the
/// path, else from the one at its parent, else from the database in use.
pub fn resolve_channel_for_path(
    own: Option<&WorkspaceMapping>,
    parent: Option<&WorkspaceMapping>,
    db_path: Option<&str>,
) -> (r: Option<String>)
    ensures
        text::opt(r) == channel_near(own, parent, text::opt_str(db_path)),
{
    if let Some(m) = own {
        return text::copy_opt(&m.zed_channel);
    }
    if let Some(m) = parent {
        return text::copy_opt(&m.zed_channel);
    }
    match db_path {
        Some(p) => mapping::channel_from_db_path(p),
        None => None,
    }
}

/// The command that adds a folder to the Zed of a channel.
pub fn invoke_zed_add(path: &str, channel: Option<&str>) -> (r: Invocation)
    ensures
        r.command == FolderCommand::Add,
        text::opt(r.channel) == text::opt_str(channel),
        text::texts(r.paths@) == seq![path@],
{
    hook_client::invoke_zed_add(path, channel, None)
}

/// The command that replaces the folders of the Zed of a channel.
pub fn invoke_zed_reuse(paths: &[String], channel: Option<&str>) -> (r: Result<
    Invocation,
    String,
>)
    ensures
        match r {
            Ok(i) => paths@.len() > 0 && i.command == FolderCommand::Reuse && text::opt(i.channel)
                == text::opt_str(channel) && i.paths@ == paths@,
            Err(e) => paths@.len() == 0 && e@ == "no paths for reuse"@,
        },
{
    hook_client::invoke_zed_reuse(paths, channel)
}

/// The mapping beside a workspace file once the two sides are in step at the given
/// time: the same, with that time.
pub fn stamp_mapping(mapping: Option<WorkspaceMapping>, ts: String) -> (r: Option<
    WorkspaceMapping,
>)
    ensures
        r == (match mapping {
            Some(m) => Some(WorkspaceMapping { last_sync_ts: Some(ts), ..m }),
            None => None,
        }),
{
    match mapping {
        Some(m) => {
            let mut m = m;
            m.set_sync_ts(ts);
            Some(m)
        },
        None => None,
    }
}

/// The mapping beside a workspace file once the two sides are in step: the same,
/// with the current time.
pub fn update_mapping_sync_ts(mapping: Option<WorkspaceMapping>) -> (r: Option<WorkspaceMapping>)
    ensures
        match mapping {
            Some(m) => r matches Some(stamped) && stamped == (WorkspaceMapping {
                last_sync_ts: stamped.last_sync_ts,
                ..m
            }) && (stamped.last_sync_ts matches Some(t) && mapping::is_stamp(t@)),
            None => r is None,
        },
{
    stamp_mapping(mapping, mapping::now_rfc3339())
}

} // verus!
