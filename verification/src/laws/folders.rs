//! Laws of the folders of a workspace file, and of syncing them with Zed's.
use vstd::prelude::*;

use crate::components;
use crate::paths;
use crate::sync_engine;
use crate::sync_engine::{Action, SyncDirection};
use crate::workspace_file;
use crate::workspace_file::Folder;

verus! {

/// A list of paths names a path: one of them is that path once normalized.
pub open spec fn names(list: Seq<Seq<char>>, p: Seq<char>) -> bool {
    exists|i: int| 0 <= i < list.len() && paths::normal(#[trigger] list[i]) == p
}

/// A folder of a file in the directory `base` stands for a path: it leads there from
/// the directory.
pub open spec fn stands_for(base: Seq<char>, f: Folder, path: Seq<char>) -> bool {
    paths::normal(components::join(base, f.path)) == paths::normal(path)
}

proof fn lemma_names(list: Seq<Seq<char>>, p: Seq<char>)
    ensures
        workspace_file::normals(list).contains(p) <==> names(list, p),
{
    let all = workspace_file::normals(list);
    if all.contains(p) {
        let i = choose|i: int| 0 <= i < all.len() && all[i] == p;
        assert(paths::normal(list[i]) == p);
    }
    if names(list, p) {
        let i = choose|i: int| 0 <= i < list.len() && paths::normal(#[trigger] list[i]) == p;
        assert(all[i] == p);
    }
}

/// Paths that the order of paths puts behind one another are not the same.
proof fn lemma_sorted_differs(row: Seq<Seq<char>>)
    requires
        workspace_file::is_sorted(row),
    ensures
        row.no_duplicates(),
{
    assert forall|i: int, j: int| 0 <= i < row.len() && 0 <= j < row.len() && i != j implies row[i]
        != row[j] by {
        if i < j {
            assert(components::path_less(row[i], row[j]));
            components::lemma_path_less(row[i], row[j]);
        } else {
            assert(components::path_less(row[j], row[i]));
            components::lemma_path_less(row[j], row[i]);
        }
    }
}

/// What differs between two lists of folders: a path is among those added exactly
/// where only the new list names it, among those removed exactly where only the old
/// one does, among those unchanged exactly where both do. None is there twice, and
/// each comes before those that are greater.
pub proof fn law_diff(old_list: Seq<Seq<char>>, new_list: Seq<Seq<char>>, p: Seq<char>)
    ensures
        workspace_file::added(old_list, new_list).contains(p) <==> names(new_list, p) && !names(
            old_list,
            p,
        ),
        workspace_file::added(new_list, old_list).contains(p) <==> names(old_list, p) && !names(
            new_list,
            p,
        ),
        workspace_file::unchanged(old_list, new_list).contains(p) <==> names(old_list, p) && names(
            new_list,
            p,
        ),
        workspace_file::added(old_list, new_list).no_duplicates(),
        workspace_file::unchanged(old_list, new_list).no_duplicates(),
        forall|i: int, j: int|
            0 <= i < j < workspace_file::added(old_list, new_list).len() ==> components::path_less(
                #[trigger] workspace_file::added(old_list, new_list)[i],
                #[trigger] workspace_file::added(old_list, new_list)[j],
            ),
        forall|i: int, j: int|
            0 <= i < j < workspace_file::unchanged(old_list, new_list).len()
                ==> components::path_less(
                #[trigger] workspace_file::unchanged(old_list, new_list)[i],
                #[trigger] workspace_file::unchanged(old_list, new_list)[j],
            ),
{
    workspace_file::lemma_diff(old_list, new_list);
    workspace_file::lemma_diff(new_list, old_list);
    lemma_names(old_list, p);
    lemma_names(new_list, p);
    lemma_sorted_differs(workspace_file::added(old_list, new_list));
    lemma_sorted_differs(workspace_file::unchanged(old_list, new_list));
}

/// Two lists match as sets exactly where each path of one is, once normalized, a path
/// of the other, and in order exactly where they are as long and the paths at each
/// place are the same once normalized.
pub proof fn law_matches(a: Seq<Seq<char>>, b: Seq<Seq<char>>)
    ensures
        workspace_file::same_members(a, b) <==> (forall|p: Seq<char>| #[trigger]
            names(a, p) <==> names(b, p)),
        workspace_file::same_order(a, b) <==> (a.len() == b.len() && forall|i: int|
            #![trigger a[i]]
            0 <= i < a.len() ==> paths::normal(a[i]) == paths::normal(b[i])),
{
    if workspace_file::same_members(a, b) {
        assert forall|p: Seq<char>| #[trigger] names(a, p) <==> names(b, p) by {
            lemma_names(a, p);
            lemma_names(b, p);
            assert(workspace_file::normals(b).contains(p) || !workspace_file::normals(b).contains(
                p,
            ));
        }
    }
    if forall|p: Seq<char>| #[trigger] names(a, p) <==> names(b, p) {
        assert forall|p: Seq<char>| workspace_file::normals(a).contains(p)
            <==> #[trigger] workspace_file::normals(b).contains(p) by {
            lemma_names(a, p);
            lemma_names(b, p);
            assert(names(a, p) <==> names(b, p));
        }
    }
    let (na, nb) = (workspace_file::normals(a), workspace_file::normals(b));
    if workspace_file::same_order(a, b) {
        assert(na.len() == nb.len());
        assert forall|i: int| #![trigger a[i]] 0 <= i < a.len() implies paths::normal(a[i])
            == paths::normal(b[i]) by {
            assert(na[i] == nb[i]);
        }
    }
    if a.len() == b.len() && forall|i: int|
        #![trigger a[i]]
        0 <= i < a.len() ==> paths::normal(a[i]) == paths::normal(b[i]) {
        assert forall|i: int| 0 <= i < na.len() implies na[i] == nb[i] by {
            assert(paths::normal(a[i]) == paths::normal(b[i]));
        }
        assert(na =~= nb);
    }
}

/// The folder that a step concerns.
pub open spec fn path_of(a: Action) -> Option<Seq<char>> {
    match a {
        Action::AddToFile(p) => Some(p),
        Action::RemoveFromFile(p) => Some(p),
        Action::InvokeCliAdd(p) => Some(p),
        Action::PendingRemoval(p) => Some(p),
        Action::ReorderFile => None,
    }
}

/// The place of a kind of step in a plan: what adds comes before what takes away.
pub open spec fn turn(a: Action) -> int {
    match a {
        Action::AddToFile(_) => 0,
        Action::InvokeCliAdd(_) => 1,
        Action::RemoveFromFile(_) => 2,
        Action::PendingRemoval(_) => 2,
        Action::ReorderFile => 3,
    }
}

/// Which steps a plan holds. A folder that only the file names goes to Zed in both
/// directions in which the file counts, and leaves the file where Zed alone does; one
/// that only Zed names goes to the file in both directions in which Zed counts, and
/// is left for removal where the file alone does. The file is put in Zed's order
/// exactly where Zed alone counts and the two name the same folders in another order.
pub proof fn law_plan(
    file: Seq<Seq<char>>,
    db: Seq<Seq<char>>,
    direction: SyncDirection,
    p: Seq<char>,
)
    ensures
        ({
            let acts = sync_engine::plan(file, db, direction);
            let only_file = names(file, p) && !names(db, p);
            let only_db = names(db, p) && !names(file, p);
            &&& acts.contains(Action::InvokeCliAdd(p)) <==> only_file && direction
                != SyncDirection::ZedToFile
            &&& acts.contains(Action::RemoveFromFile(p)) <==> only_file && direction
                == SyncDirection::ZedToFile
            &&& acts.contains(Action::AddToFile(p)) <==> only_db && direction
                != SyncDirection::FileToZed
            &&& acts.contains(Action::PendingRemoval(p)) <==> only_db && direction
                == SyncDirection::FileToZed
            &&& acts.contains(Action::ReorderFile) <==> direction == SyncDirection::ZedToFile && (
            forall|q: Seq<char>| #[trigger] names(file, q) <==> names(db, q)) && !(file.len()
                == db.len() && forall|i: int|
                #![trigger file[i]]
                0 <= i < file.len() ==> paths::normal(file[i]) == paths::normal(db[i]))
        }),
{
    let acts = sync_engine::plan(file, db, direction);
    let only_db = workspace_file::added(file, db);
    let only_file = workspace_file::added(db, file);
    law_diff(file, db, p);
    law_matches(file, db);
    workspace_file::lemma_no_diff(file, db);
    lemma_rows(only_db, p);
    lemma_rows(only_file, p);
    let tail = if only_db.len() == 0 && only_file.len() == 0 && !workspace_file::same_order(
        file,
        db,
    ) {
        seq![Action::ReorderFile]
    } else {
        Seq::<Action>::empty()
    };
    let adds = sync_engine::adds(only_db);
    let removes = sync_engine::removes(only_file);
    let invokes = sync_engine::invokes(only_file);
    let pendings = sync_engine::pendings(only_db);
    let all = seq![
        Action::InvokeCliAdd(p),
        Action::RemoveFromFile(p),
        Action::AddToFile(p),
        Action::PendingRemoval(p),
        Action::ReorderFile,
    ];
    assert forall|k: int| 0 <= k < 5 implies acts.contains(#[trigger] all[k]) == (match direction {
        SyncDirection::ZedToFile => adds.contains(all[k]) || removes.contains(all[k])
            || tail.contains(all[k]),
        SyncDirection::FileToZed => invokes.contains(all[k]) || pendings.contains(all[k]),
        SyncDirection::Bidirectional => adds.contains(all[k]) || invokes.contains(all[k]),
    }) by {
        match direction {
            SyncDirection::ZedToFile => {
                lemma_concat_contains(adds, removes, all[k]);
                lemma_concat_contains(adds + removes, tail, all[k]);
            },
            SyncDirection::FileToZed => {
                lemma_concat_contains(invokes, pendings, all[k]);
            },
            SyncDirection::Bidirectional => {
                lemma_concat_contains(adds, invokes, all[k]);
            },
        }
    }
    assert(all[0] is InvokeCliAdd && all[1] is RemoveFromFile && all[2] is AddToFile && all[3]
        is PendingRemoval && all[4] is ReorderFile);
    if tail.len() > 0 {
        assert(tail[0] == Action::ReorderFile);
    }
}

proof fn lemma_concat_contains<A>(a: Seq<A>, b: Seq<A>, x: A)
    ensures
        (a + b).contains(x) <==> a.contains(x) || b.contains(x),
{
    let all = a + b;
    if a.contains(x) {
        let i = choose|i: int| 0 <= i < a.len() && a[i] == x;
        assert(all[i] == x);
    }
    if b.contains(x) {
        let i = choose|i: int| 0 <= i < b.len() && b[i] == x;
        assert(all[a.len() + i] == x);
    }
    if all.contains(x) {
        let i = choose|i: int| 0 <= i < all.len() && all[i] == x;
        if i < a.len() {
            assert(a[i] == x);
        } else {
            assert(b[i - a.len()] == x);
        }
    }
}

proof fn lemma_rows(row: Seq<Seq<char>>, p: Seq<char>)
    ensures
        sync_engine::adds(row).contains(Action::AddToFile(p)) <==> row.contains(p),
        sync_engine::removes(row).contains(Action::RemoveFromFile(p)) <==> row.contains(p),
        sync_engine::invokes(row).contains(Action::InvokeCliAdd(p)) <==> row.contains(p),
        sync_engine::pendings(row).contains(Action::PendingRemoval(p)) <==> row.contains(p),
{
    let (a, r) = (sync_engine::adds(row), sync_engine::removes(row));
    let (i, d) = (sync_engine::invokes(row), sync_engine::pendings(row));
    if row.contains(p) {
        let k = choose|k: int| 0 <= k < row.len() && row[k] == p;
        assert(a[k] == Action::AddToFile(p) && r[k] == Action::RemoveFromFile(p));
        assert(i[k] == Action::InvokeCliAdd(p) && d[k] == Action::PendingRemoval(p));
    }
    if a.contains(Action::AddToFile(p)) {
        let k = choose|k: int| 0 <= k < a.len() && a[k] == Action::AddToFile(p);
        assert(row[k] == p);
    }
    if r.contains(Action::RemoveFromFile(p)) {
        let k = choose|k: int| 0 <= k < r.len() && r[k] == Action::RemoveFromFile(p);
        assert(row[k] == p);
    }
    if i.contains(Action::InvokeCliAdd(p)) {
        let k = choose|k: int| 0 <= k < i.len() && i[k] == Action::InvokeCliAdd(p);
        assert(row[k] == p);
    }
    if d.contains(Action::PendingRemoval(p)) {
        let k = choose|k: int| 0 <= k < d.len() && d[k] == Action::PendingRemoval(p);
        assert(row[k] == p);
    }
}

/// How the steps of a plan follow one another: none comes twice, what adds comes
/// before what takes away, and steps of one kind are in the order of their paths.
pub proof fn law_plan_order(
    file: Seq<Seq<char>>,
    db: Seq<Seq<char>>,
    direction: SyncDirection,
    i: int,
    j: int,
)
    requires
        0 <= i < j < sync_engine::plan(file, db, direction).len(),
    ensures
        ({
            let acts = sync_engine::plan(file, db, direction);
            &&& acts[i] != acts[j]
            &&& turn(acts[i]) <= turn(acts[j])
            &&& turn(acts[i]) == turn(acts[j]) ==> path_of(acts[i]) is Some && path_of(acts[j])
                is Some && components::path_less(path_of(acts[i])->0, path_of(acts[j])->0)
        }),
{
    let only_db = workspace_file::added(file, db);
    let only_file = workspace_file::added(db, file);
    workspace_file::lemma_diff(file, db);
    workspace_file::lemma_diff(db, file);
    let n = only_db.len();
    let m = only_file.len();
    match direction {
        SyncDirection::ZedToFile => {
            if j < n {
                lemma_step_less(only_db, i, j);
            } else if i >= n && j < n + m {
                lemma_step_less(only_file, i - n, j - n);
            }
        },
        SyncDirection::FileToZed => {
            if j < m {
                lemma_step_less(only_file, i, j);
            } else if i >= m {
                lemma_step_less(only_db, i - m, j - m);
            }
        },
        SyncDirection::Bidirectional => {
            if j < n {
                lemma_step_less(only_db, i, j);
            } else if i >= n {
                lemma_step_less(only_file, i - n, j - n);
            }
        },
    }
}

proof fn lemma_step_less(row: Seq<Seq<char>>, i: int, j: int)
    requires
        workspace_file::is_sorted(row),
        0 <= i < j < row.len(),
    ensures
        components::path_less(row[i], row[j]),
        row[i] != row[j],
{
    components::lemma_path_less(row[i], row[j]);
}

/// Adding a folder leaves a file that has one for the path as it is; else the folders
/// stay, in their order and with their names, and one without a name comes last.
pub proof fn law_add(base: Seq<char>, fs: Seq<Folder>, path: Seq<char>)
    ensures
        ({
            let after = workspace_file::with_folder(base, fs, path);
            if exists|i: int| 0 <= i < fs.len() && #[trigger] stands_for(base, fs[i], path) {
                after == fs
            } else {
                &&& after.len() == fs.len() + 1
                &&& after.drop_last() == fs
                &&& after.last().name is None
                &&& after.last().path == paths::relative(base, path)
            }
        }),
{
    let all = workspace_file::targets(base, fs);
    if exists|i: int| 0 <= i < fs.len() && #[trigger] stands_for(base, fs[i], path) {
        let i = choose|i: int| 0 <= i < fs.len() && #[trigger] stands_for(base, fs[i], path);
        assert(all[i] == paths::normal(path));
    } else {
        if all.contains(paths::normal(path)) {
            let i = choose|i: int| 0 <= i < all.len() && all[i] == paths::normal(path);
            assert(stands_for(base, fs[i], path));
        }
        assert(workspace_file::with_folder(base, fs, path).drop_last() == fs);
    }
}

/// Removing a path leaves the folders that do not stand for it, in their order and
/// with their names, and no others.
pub proof fn law_remove(base: Seq<char>, fs: Seq<Folder>, path: Seq<char>)
    ensures
        workspace_file::without_folder(base, fs, path) == fs.filter(
            |f: Folder| !stands_for(base, f, path),
        ),
    decreases fs.len(),
{
    reveal(Seq::filter);
    if fs.len() > 0 {
        law_remove(base, fs.drop_last(), path);
    }
}

/// Removing the only folder that stands for a path leaves those in front of it and
/// those behind it.
pub proof fn law_remove_one(
    base: Seq<char>,
    a: Seq<Folder>,
    f: Folder,
    b: Seq<Folder>,
    path: Seq<char>,
)
    requires
        stands_for(base, f, path),
        forall|i: int| 0 <= i < a.len() ==> !stands_for(base, #[trigger] a[i], path),
        forall|i: int| 0 <= i < b.len() ==> !stands_for(base, #[trigger] b[i], path),
    ensures
        workspace_file::without_folder(base, a.push(f) + b, path) == a + b,
        workspace_file::without_folder(base, a + b, path) == a + b,
    decreases a.len() + b.len(),
{
    if b.len() > 0 {
        let c = b.drop_last();
        assert forall|i: int| 0 <= i < c.len() implies !stands_for(base, #[trigger] c[i], path) by {
            assert(c[i] == b[i]);
        }
        law_remove_one(base, a, f, c, path);
        assert((a.push(f) + b).drop_last() == a.push(f) + c);
        assert((a.push(f) + b).last() == b[b.len() - 1]);
        assert((a + b).drop_last() == a + c);
        assert((a + b).last() == b[b.len() - 1]);
        assert((a + c).push(b[b.len() - 1]) == a + b);
    } else {
        assert(a.push(f) + b == a.push(f));
        assert(a + b == a);
        assert(a.push(f).drop_last() == a);
        if a.len() > 0 {
            let c = a.drop_last();
            assert forall|i: int| 0 <= i < c.len() implies !stands_for(
                base,
                #[trigger] c[i],
                path,
            ) by {
                assert(c[i] == a[i]);
            }
            law_remove_one(base, c, f, b, path);
            assert(c + b == c);
            assert(a.last() == a[a.len() - 1]);
            assert(c.push(a.last()) == a);
        }
        assert(workspace_file::without_folder(base, a, path) == a);
        assert(a.push(f).last() == f);
        assert(workspace_file::without_folder(base, a.push(f), path)
            == workspace_file::without_folder(base, a, path));
    }
}

/// The paths that the folders of a file stand for, and the folders written for paths:
/// as many, in the same order, each found from the directory.
pub proof fn law_resolve(base: Seq<char>, fs: Seq<Folder>, list: Seq<Seq<char>>)
    ensures
        workspace_file::targets(base, fs).len() == fs.len(),
        forall|i: int|
            0 <= i < fs.len() ==> #[trigger] workspace_file::targets(base, fs)[i] == paths::normal(
                components::join(base, fs[i].path),
            ),
        workspace_file::written_folders(base, list).len() == list.len(),
        forall|i: int|
            0 <= i < list.len() ==> (#[trigger] workspace_file::written_folders(base, list)[i]).name
                is None && workspace_file::written_folders(base, list)[i].path == paths::relative(
                base,
                list[i],
            ),
{
}

/// Carrying out steps one by one: adding and removing, each on what the steps before
/// left, and putting in Zed's order; steps for Zed leave the file alone. The file is
/// modified exactly where a step added or removed a folder, or put them in order.
pub proof fn law_carry_out(
    base: Seq<char>,
    fs: Seq<Folder>,
    db: Seq<Seq<char>>,
    acts: Seq<Action>,
    a: Action,
)
    ensures
        ({
            let e = sync_engine::edited(base, fs, db, acts);
            let next = sync_engine::edited(base, fs, db, acts.push(a));
            let has = |p: Seq<char>|
                exists|i: int| 0 <= i < e.folders.len() && #[trigger] stands_for(base, e.folders[i], p);
            match a {
                Action::AddToFile(p) => {
                    &&& next.reordered == e.reordered
                    &&& if has(p) {
                        next.folders == e.folders && next.modified == e.modified
                    } else {
                        next.modified && next.folders == e.folders.push(
                            Folder { path: paths::relative(base, p), name: None },
                        )
                    }
                },
                Action::RemoveFromFile(p) => {
                    &&& next.reordered == e.reordered
                    &&& next.folders == e.folders.filter(|f: Folder| !stands_for(base, f, p))
                    &&& next.modified == (e.modified || has(p))
                },
                Action::ReorderFile => {
                    &&& next.modified && next.reordered
                    &&& next.folders.len() == db.len()
                    &&& forall|i: int|
                        0 <= i < db.len() ==> #[trigger] next.folders[i] == (Folder {
                            path: paths::relative(base, db[i]),
                            name: None,
                        })
                },
                _ => next == e,
            }
        }),
        sync_engine::edited(base, fs, db, Seq::<Action>::empty()) == (sync_engine::Edit {
            folders: fs,
            modified: false,
            reordered: false,
        }),
{
    let e = sync_engine::edited(base, fs, db, acts);
    assert(acts.push(a).drop_last() == acts);
    assert(acts.push(a).last() == a);
    if let Some(p) = path_of(a) {
        law_add(base, e.folders, p);
        law_remove(base, e.folders, p);
        let all = workspace_file::targets(base, e.folders);
        if exists|i: int| 0 <= i < e.folders.len() && #[trigger] stands_for(base, e.folders[i], p) {
            let i = choose|i: int|
                0 <= i < e.folders.len() && #[trigger] stands_for(base, e.folders[i], p);
            assert(all[i] == paths::normal(p));
        } else if all.contains(paths::normal(p)) {
            let i = choose|i: int| 0 <= i < all.len() && all[i] == paths::normal(p);
            assert(stands_for(base, e.folders[i], p));
        }
        let more = workspace_file::with_folder(base, e.folders, p);
        if more.len() > e.folders.len() {
            assert(more == more.drop_last().push(more.last()));
        }
    }
}

} // verus!
