//! Laws of the operations on folders: a plan to bring two lists together, and the edits of
//! a workspace file.
use vstd::prelude::*;

use crate::components;
use crate::laws::folders;
use crate::laws::folders::{names, stands_for};
use crate::laws::tools;
use crate::mcp;
use crate::mcp::{FolderStatus, ReorderError};
use crate::paths;
use crate::sync_engine;
use crate::sync_engine::{Action, SyncAction, SyncDirection, SyncOutcome, SyncStamps};
use crate::text;
use crate::workspace_file;
use crate::workspace_file::{CodeWorkspaceFile, Error, Folder, FolderDiff, ResolvedWorkspace};

verus! {

/// The steps of a plan hold a step.
pub open spec fn holds(steps: Seq<SyncAction>, a: Action) -> bool {
    exists|i: int| 0 <= i < steps.len() && #[trigger] steps[i]@ == a
}

/// `compute_sync_actions`: a folder that the file alone names is sent to Zed, unless the
/// file follows Zed, which takes it out of the file. A folder that Zed alone shows is
/// written to the file, unless Zed follows the file, which leaves it pending.
pub proof fn law_compute_sync_actions(
    file: &[String],
    db: &[String],
    direction: SyncDirection,
    r: Vec<SyncAction>,
    p: Seq<char>,
)
    requires
        call_ensures(sync_engine::compute_sync_actions, (file, db, direction), r),
    ensures
        ({
            let (f, d) = (text::texts(file@), text::texts(db@));
            let only_file = names(f, p) && !names(d, p);
            let only_db = names(d, p) && !names(f, p);
            &&& holds(r@, Action::InvokeCliAdd(p)) <==> only_file && direction
                != SyncDirection::ZedToFile
            &&& holds(r@, Action::RemoveFromFile(p)) <==> only_file && direction
                == SyncDirection::ZedToFile
            &&& holds(r@, Action::AddToFile(p)) <==> only_db && direction
                != SyncDirection::FileToZed
            &&& holds(r@, Action::PendingRemoval(p)) <==> only_db && direction
                == SyncDirection::FileToZed
            &&& holds(r@, Action::ReorderFile) <==> direction == SyncDirection::ZedToFile && (
            forall|q: Seq<char>| #[trigger] names(f, q) <==> names(d, q)) && !(f.len() == d.len()
                && forall|i: int|
                #![trigger f[i]]
                0 <= i < f.len() ==> paths::normal(f[i]) == paths::normal(d[i]))
        }),
{
    let acts = sync_engine::steps(r@);
    folders::law_plan(text::texts(file@), text::texts(db@), direction, p);
    lemma_holds(r@, Action::InvokeCliAdd(p));
    lemma_holds(r@, Action::RemoveFromFile(p));
    lemma_holds(r@, Action::AddToFile(p));
    lemma_holds(r@, Action::PendingRemoval(p));
    lemma_holds(r@, Action::ReorderFile);
}

/// `compute_sync_actions`: no step comes twice, what is added comes first, and within a
/// kind the steps go by path.
pub proof fn law_compute_sync_actions_order(
    file: &[String],
    db: &[String],
    direction: SyncDirection,
    r: Vec<SyncAction>,
    i: int,
    j: int,
)
    requires
        call_ensures(sync_engine::compute_sync_actions, (file, db, direction), r),
        0 <= i < j < r@.len(),
    ensures
        r@[i]@ != r@[j]@,
        folders::turn(r@[i]@) <= folders::turn(r@[j]@),
        folders::turn(r@[i]@) == folders::turn(r@[j]@) ==> folders::path_of(r@[i]@) is Some
            && folders::path_of(r@[j]@) is Some && components::path_less(
            folders::path_of(r@[i]@)->0,
            folders::path_of(r@[j]@)->0,
        ),
{
    folders::law_plan_order(text::texts(file@), text::texts(db@), direction, i, j);
}

proof fn lemma_holds(steps: Seq<SyncAction>, a: Action)
    ensures
        holds(steps, a) <==> sync_engine::steps(steps).contains(a),
{
    let acts = sync_engine::steps(steps);
    if holds(steps, a) {
        let i = choose|i: int| 0 <= i < steps.len() && #[trigger] steps[i]@ == a;
        assert(acts[i] == a);
    }
    if acts.contains(a) {
        let i = choose|i: int| 0 <= i < acts.len() && acts[i] == a;
        assert(steps[i]@ == a);
    }
}

/// `execute_sync`: the file is edited by the steps of the plan for its folders and those of
/// Zed, and no more; a file that Zed follows stays as it is.
pub proof fn law_execute_sync(
    ws: &mut CodeWorkspaceFile,
    path: &str,
    db: &[String],
    direction: SyncDirection,
    stamps: SyncStamps,
    r: Result<SyncOutcome, Error>,
    base: Seq<char>,
    p: Seq<char>,
)
    requires
        call_ensures(sync_engine::execute_sync, (ws, path, db, direction, stamps), r),
        components::parent(path@) == Some(base),
    ensures
        r is Ok,
        ({
            let o = r->Ok_0.result;
            let acts = sync_engine::steps(o.actions_taken@);
            let before = workspace_file::targets(base, old(ws).list());
            let after = workspace_file::targets(base, final(ws).list());
            let d = text::texts(db@);
            let only_file = names(before, p) && !names(d, p);
            let only_db = names(d, p) && !names(before, p);
            let e = sync_engine::edited(base, old(ws).list(), d, acts);
            &&& acts.contains(Action::InvokeCliAdd(p)) <==> only_file && direction
                != SyncDirection::ZedToFile
            &&& acts.contains(Action::RemoveFromFile(p)) <==> only_file && direction
                == SyncDirection::ZedToFile
            &&& acts.contains(Action::AddToFile(p)) <==> only_db && direction
                != SyncDirection::FileToZed
            &&& acts.contains(Action::PendingRemoval(p)) <==> only_db && direction
                == SyncDirection::FileToZed
            &&& final(ws).list() == e.folders && r->Ok_0.file_modified == e.modified && o.reordered
                == e.reordered
            &&& direction == SyncDirection::FileToZed ==> final(ws).list() == old(ws).list()
                && !r->Ok_0.file_modified
            &&& text::texts(o.file_folders_after@) == after && o.db_folders@ == db@
            &&& o.conflict == stamps.in_conflict()
            &&& final(ws).extra == old(ws).extra
        }),
{
    folders::law_plan(workspace_file::targets(base, ws.list()), text::texts(db@), direction, p);
}

/// `CodeWorkspaceFile::remove_folder`: what does not stand for the path stays, in its
/// order, and a removal is told exactly where something did.
pub proof fn law_remove_folder(
    ws: &mut CodeWorkspaceFile,
    path: &str,
    abs: &str,
    r: Result<bool, Error>,
    base: Seq<char>,
)
    requires
        call_ensures(CodeWorkspaceFile::remove_folder, (ws, path, abs), r),
        components::parent(path@) == Some(base),
    ensures
        final(ws).list() == old(ws).list().filter(|f: Folder| !stands_for(base, f, abs@)),
        r is Ok,
        r->Ok_0 <==> exists|i: int|
            0 <= i < old(ws).list().len() && #[trigger] stands_for(base, old(ws).list()[i], abs@),
        final(ws).extra == old(ws).extra,
{
    folders::law_remove(base, ws.list(), abs@);
    lemma_stands(base, ws.list(), abs@);
}

/// `CodeWorkspaceFile::remove_folder`: from folders of which one stands for the path, those
/// in front of it and those behind it are left.
pub proof fn law_remove_one_folder(
    ws: &mut CodeWorkspaceFile,
    path: &str,
    abs: &str,
    r: Result<bool, Error>,
    base: Seq<char>,
    a: Seq<Folder>,
    f: Folder,
    b: Seq<Folder>,
)
    requires
        call_ensures(CodeWorkspaceFile::remove_folder, (ws, path, abs), r),
        components::parent(path@) == Some(base),
        old(ws).list() == a.push(f) + b,
        stands_for(base, f, abs@),
        forall|i: int| 0 <= i < a.len() ==> !stands_for(base, #[trigger] a[i], abs@),
        forall|i: int| 0 <= i < b.len() ==> !stands_for(base, #[trigger] b[i], abs@),
    ensures
        final(ws).list() == a + b,
        r == Ok::<bool, Error>(true),
{
    folders::law_remove_one(base, a, f, b, abs@);
    lemma_stands(base, ws.list(), abs@);
    assert(ws.list()[a.len() as int] == f);
    assert(stands_for(base, ws.list()[a.len() as int], abs@));
}

/// `CodeWorkspaceFile::add_folder`: a folder that is there already is left as it is, and any
/// other comes behind the rest, without a name.
pub proof fn law_add_folder(
    ws: &mut CodeWorkspaceFile,
    path: &str,
    abs: &str,
    r: Result<bool, Error>,
    base: Seq<char>,
)
    requires
        call_ensures(CodeWorkspaceFile::add_folder, (ws, path, abs), r),
        components::parent(path@) == Some(base),
    ensures
        r is Ok,
        r->Ok_0 <==> !exists|i: int|
            0 <= i < old(ws).list().len() && #[trigger] stands_for(base, old(ws).list()[i], abs@),
        !r->Ok_0 ==> final(ws).list() == old(ws).list(),
        r->Ok_0 ==> final(ws).list() == old(ws).list().push(
            Folder { path: paths::relative(base, abs@), name: None },
        ),
        r->Ok_0 && paths::leads_back(base, abs@) ==> paths::normal(
            components::join(base, paths::relative(base, abs@)),
        ) == paths::normal(abs@),
        final(ws).extra == old(ws).extra,
{
    folders::law_add(base, ws.list(), abs@);
    lemma_stands(base, ws.list(), abs@);
    let after = workspace_file::with_folder(base, ws.list(), abs@);
    if after.len() == ws.list().len() + 1 {
        assert(after == after.drop_last().push(after.last()));
    }
}

/// A path is one of those that folders stand for exactly where a folder stands for it.
proof fn lemma_stands(base: Seq<char>, fs: Seq<Folder>, path: Seq<char>)
    ensures
        workspace_file::targets(base, fs).contains(paths::normal(path)) <==> exists|i: int|
            0 <= i < fs.len() && #[trigger] stands_for(base, fs[i], path),
{
    let all = workspace_file::targets(base, fs);
    folders::law_resolve(base, fs, Seq::empty());
    if all.contains(paths::normal(path)) {
        let i = choose|i: int| 0 <= i < all.len() && all[i] == paths::normal(path);
        assert(stands_for(base, fs[i], path));
    }
    if exists|i: int| 0 <= i < fs.len() && #[trigger] stands_for(base, fs[i], path) {
        let i = choose|i: int| 0 <= i < fs.len() && #[trigger] stands_for(base, fs[i], path);
        assert(all[i] == paths::normal(path));
    }
}

/// `CodeWorkspaceFile::set_folders_from_absolute`: one folder for each path, in their
/// order, without names; and `CodeWorkspaceFile::resolve` tells where each leads.
pub proof fn law_set_folders(
    ws: &mut CodeWorkspaceFile,
    path: &str,
    list: &[String],
    r: Result<(), Error>,
    base: Seq<char>,
    i: int,
)
    requires
        call_ensures(CodeWorkspaceFile::set_folders_from_absolute, (ws, path, list), r),
        components::parent(path@) == Some(base),
        0 <= i < list@.len(),
    ensures
        r is Ok,
        final(ws).list().len() == list@.len(),
        final(ws).list()[i].name is None,
        final(ws).list()[i].path == paths::relative(base, list@[i]@),
        paths::leads_back(base, list@[i]@) ==> stands_for(base, final(ws).list()[i], list@[i]@),
        final(ws).extra == old(ws).extra,
{
    folders::law_resolve(base, Seq::empty(), text::texts(list@));
    let _ = workspace_file::written_folders(base, text::texts(list@))[i];
    if paths::leads_back(base, list@[i]@) {
        assert(workspace_file::faithful(base, list@[i]@));
    }
}

/// `CodeWorkspaceFile::resolve`: the normalized path that each folder stands for, in order.
pub proof fn law_resolve(
    ws: &CodeWorkspaceFile,
    path: &str,
    r: Result<ResolvedWorkspace, Error>,
    base: Seq<char>,
    i: int,
)
    requires
        call_ensures(CodeWorkspaceFile::resolve, (ws, path), r),
        components::parent(path@) == Some(base),
    ensures
        r is Ok,
        r->Ok_0.file_path@ == path@,
        r->Ok_0.folders@.len() == ws.folders@.len(),
        0 <= i < ws.folders@.len() ==> r->Ok_0.folders@[i]@ == paths::normal(
            components::join(base, ws.folders@[i].path@),
        ),
{
    folders::law_resolve(base, ws.list(), Seq::empty());
    if 0 <= i < ws.folders@.len() {
        assert(text::texts(r->Ok_0.folders@)[i] == workspace_file::targets(base, ws.list())[i]);
    }
}

/// `diff_folders`: what one list names and the other does not, and what both name.
pub proof fn law_diff_folders(a: &[String], b: &[String], r: FolderDiff, p: Seq<char>)
    requires
        call_ensures(workspace_file::diff_folders, (a, b), r),
    ensures
        ({
            let (x, y) = (text::texts(a@), text::texts(b@));
            &&& text::texts(r.added@).contains(p) <==> names(y, p) && !names(x, p)
            &&& text::texts(r.removed@).contains(p) <==> names(x, p) && !names(y, p)
            &&& text::texts(r.unchanged@).contains(p) <==> names(x, p) && names(y, p)
            &&& text::texts(r.added@).no_duplicates()
            &&& text::texts(r.removed@).no_duplicates()
            &&& text::texts(r.unchanged@).no_duplicates()
        }),
{
    folders::law_diff(text::texts(a@), text::texts(b@), p);
    folders::law_diff(text::texts(b@), text::texts(a@), p);
}

/// `folders_match_set`: the lists name the same folders.
pub proof fn law_folders_match_set(a: &[String], b: &[String], r: bool)
    requires
        call_ensures(workspace_file::folders_match_set, (a, b), r),
    ensures
        r <==> (forall|p: Seq<char>| #[trigger]
            names(text::texts(a@), p) <==> names(text::texts(b@), p)),
{
    folders::law_matches(text::texts(a@), text::texts(b@));
}

/// `folders_match_ordered`: the lists name the same folders at the same places.
pub proof fn law_folders_match_ordered(a: &[String], b: &[String], r: bool)
    requires
        call_ensures(workspace_file::folders_match_ordered, (a, b), r),
    ensures
        r <==> a@.len() == b@.len() && forall|i: int|
            #![trigger a@[i]]
            0 <= i < a@.len() ==> paths::normal(a@[i]@) == paths::normal(b@[i]@),
{
    let (x, y) = (text::texts(a@), text::texts(b@));
    folders::law_matches(x, y);
    if r {
        assert forall|i: int| 0 <= i < a@.len() implies paths::normal((#[trigger] a@[i])@)
            == paths::normal(b@[i]@) by {
            assert(x[i] == a@[i]@);
        }
    } else if a@.len() == b@.len() {
        let i = choose|i: int|
            #![trigger x[i]]
            0 <= i < x.len() && paths::normal(x[i]) != paths::normal(y[i]);
        assert(x[i] == a@[i]@);
    }
}

/// `workspace_folders_list`: the folders are in sync exactly where the lists name the same
/// folders at the same places.
pub proof fn law_workspace_folders_list(file: &[String], db: &[String], r: FolderStatus, p: Seq<char>)
    requires
        call_ensures(mcp::workspace_folders_list, (file, db), r),
    ensures
        ({
            let (f, d) = (text::texts(file@), text::texts(db@));
            &&& r.membership_match <==> (forall|q: Seq<char>| #[trigger] names(f, q) <==> names(d, q))
            &&& r.order_match <==> f.len() == d.len() && forall|i: int|
                #![trigger f[i]]
                0 <= i < f.len() ==> paths::normal(f[i]) == paths::normal(d[i])
            &&& r.in_sync == r.order_match
            &&& text::texts(r.added_in_zed@).contains(p) <==> names(d, p) && !names(f, p)
            &&& text::texts(r.removed_in_zed@).contains(p) <==> names(f, p) && !names(d, p)
        }),
{
    folders::law_matches(text::texts(file@), text::texts(db@));
    folders::law_diff(text::texts(file@), text::texts(db@), p);
}

/// `workspace_folders_add`: a new folder comes in at the place that was asked for, or behind
/// the rest, and the others keep their order.
pub proof fn law_workspace_folders_add(
    ws: &mut CodeWorkspaceFile,
    path: &str,
    folder: &str,
    position: Option<usize>,
    r: Result<bool, Error>,
    base: Seq<char>,
    a: Seq<Folder>,
    b: Seq<Folder>,
)
    requires
        call_ensures(mcp::workspace_folders_add, (ws, path, folder, position), r),
        components::parent(path@) == Some(base),
        old(ws).list() == a + b,
        position == Some(a.len() as usize) && a.len() <= usize::MAX || b.len() == 0 && (position
            is None || position->0 >= a.len()),
    ensures
        r is Ok,
        r->Ok_0 <==> !exists|i: int|
            0 <= i < old(ws).list().len() && #[trigger] stands_for(base, old(ws).list()[i], folder@),
        !r->Ok_0 ==> final(ws).list() == old(ws).list(),
        r->Ok_0 ==> final(ws).list() == a.push(
            Folder { path: paths::relative(base, folder@), name: None },
        ) + b,
        final(ws).extra == old(ws).extra,
{
    let fs = ws.list();
    lemma_stands(base, fs, folder@);
    folders::law_add(base, fs, folder@);
    let new = Folder { path: paths::relative(base, folder@), name: None };
    if r->Ok_0 {
        assert forall|i: int| 0 <= i < (a + b).len() implies !stands_for(
            base,
            #[trigger] (a + b)[i],
            folder@,
        ) by {
            assert(fs[i] == (a + b)[i]);
        }
        let more: nat = if b.len() == 0 && position is Some {
            (position->0 - a.len()) as nat
        } else {
            0
        };
        tools::law_add_at(base, a, b, folder@, more);
        if b.len() == 0 {
            assert(a + b == a);
            assert(a.push(new) + b == a.push(new));
            let after = workspace_file::with_folder(base, fs, folder@);
            if position is None {
                assert(after == after.drop_last().push(after.last()));
            } else {
                tools::law_add_at(base, a, Seq::empty(), folder@, more);
            }
        }
    } else {
        let i = choose|i: int| 0 <= i < fs.len() && #[trigger] stands_for(base, fs[i], folder@);
        if let Some(p) = position {
            tools::law_add_at_again(base, fs, folder@, i, p as int);
        }
    }
}

/// `workspace_folders_remove`: what does not stand for the folder stays, in its order, and
/// what is left is told where something went.
pub proof fn law_workspace_folders_remove(
    ws: &mut CodeWorkspaceFile,
    path: &str,
    folder: &str,
    r: Result<Option<Vec<String>>, Error>,
    base: Seq<char>,
)
    requires
        call_ensures(mcp::workspace_folders_remove, (ws, path, folder), r),
        components::parent(path@) == Some(base),
    ensures
        final(ws).list() == old(ws).list().filter(|f: Folder| !stands_for(base, f, folder@)),
        r is Ok,
        r->Ok_0 is Some <==> exists|i: int|
            0 <= i < old(ws).list().len() && #[trigger] stands_for(base, old(ws).list()[i], folder@),
        r->Ok_0 matches Some(left) ==> text::texts(left@) == workspace_file::targets(
            base,
            final(ws).list(),
        ),
        final(ws).extra == old(ws).extra,
{
    folders::law_remove(base, ws.list(), folder@);
    lemma_stands(base, ws.list(), folder@);
}

/// `workspace_folders_reorder`: an order that names the folders of the file and no others
/// becomes the order of the file; any other is refused and changes nothing.
pub proof fn law_workspace_folders_reorder(
    ws: &mut CodeWorkspaceFile,
    path: &str,
    order: &[String],
    r: Result<(), ReorderError>,
    base: Seq<char>,
    i: int,
)
    requires
        call_ensures(mcp::workspace_folders_reorder, (ws, path, order), r),
        components::parent(path@) == Some(base),
    ensures
        r is Ok <==> (forall|q: Seq<char>| #[trigger]
            names(workspace_file::targets(base, old(ws).list()), q) <==> names(
                text::texts(order@),
                q,
            )),
        r is Err ==> r == Err::<(), ReorderError>(ReorderError::OtherFolders) && final(ws).folders
            == old(ws).folders,
        r is Ok ==> final(ws).list().len() == order@.len(),
        r is Ok && 0 <= i < order@.len() ==> final(ws).list()[i] == (Folder {
            path: paths::relative(base, order@[i]@),
            name: None,
        }),
        final(ws).extra == old(ws).extra,
{
    let o = text::texts(order@);
    folders::law_matches(workspace_file::targets(base, ws.list()), o);
    folders::law_resolve(base, Seq::empty(), o);
    if 0 <= i < o.len() {
        let _ = workspace_file::written_folders(base, o)[i];
        assert(o[i] == order@[i]@);
    }
}

/// A workspace file with no directory is refused, and nothing changes.
pub proof fn law_no_directory(
    ws: &mut CodeWorkspaceFile,
    path: &str,
    abs: &str,
    removed: Result<bool, Error>,
    resolved: Result<ResolvedWorkspace, Error>,
)
    requires
        components::parent(path@) is None,
    ensures
        call_ensures(CodeWorkspaceFile::remove_folder, (ws, path, abs), removed) ==> removed is Err
            && final(ws).folders == old(ws).folders,
        call_ensures(CodeWorkspaceFile::add_folder, (ws, path, abs), removed) ==> removed is Err
            && final(ws).folders == old(ws).folders,
        call_ensures(CodeWorkspaceFile::resolve, (&*old(ws), path), resolved) ==> resolved is Err,
{
}

} // verus!
