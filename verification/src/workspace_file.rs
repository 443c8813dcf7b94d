//! `.code-workspace` files: their folders, resolved, edited and compared.
use vstd::prelude::*;

use crate::components;
use crate::paths;
use crate::text;

verus! {

broadcast use vstd::string::group_string_axioms;

/// Why a workspace file cannot be worked on.
#[derive(Debug, Clone, Copy, PartialEq, Eq, Structural)]
pub enum Error {
    /// The path of the workspace file has no directory.
    NoParentDir,
}

/// A folder of a workspace file.
#[derive(Debug, Clone, PartialEq, Eq)]
pub struct WorkspaceFolder {
    /// The path as it is written in the file.
    pub path: String,
    /// The name under which the folder is shown, where it has one.
    pub name: Option<String>,
}

/// A workspace file: its folders, and whatever else it holds.
#[derive(Debug)]
pub struct CodeWorkspaceFile {
    pub folders: Vec<WorkspaceFolder>,
    pub extra: serde_json::Map<String, serde_json::Value>,
}

/// A workspace file with its folders as normalized paths.
#[derive(Debug, Clone)]
pub struct ResolvedWorkspace {
    pub file_path: String,
    pub folders: Vec<String>,
}

/// How two lists of folders differ.
#[derive(Debug, Clone, PartialEq, Eq)]
pub struct FolderDiff {
    pub added: Vec<String>,
    pub removed: Vec<String>,
    pub unchanged: Vec<String>,
}

/// A folder as the contracts see it.
pub struct Folder {
    pub path: Seq<char>,
    pub name: Option<Seq<char>>,
}

impl View for WorkspaceFolder {
    type V = Folder;

    open spec fn view(&self) -> Folder {
        Folder {
            path: self.path@,
            name: match self.name {
                Some(n) => Some(n@),
                None => None,
            },
        }
    }
}

pub open spec fn folders_of(v: Seq<WorkspaceFolder>) -> Seq<Folder> {
    v.map_values(|f: WorkspaceFolder| f@)
}

/// A folder without a name.
pub open spec fn unnamed(path: Seq<char>) -> Folder {
    Folder { path, name: None }
}

/// The path that a folder of a file in the directory `base` stands for.
pub open spec fn target(base: Seq<char>, f: Folder) -> Seq<char> {
    paths::normal(components::join(base, f.path))
}

/// The paths that the folders of a file in the directory `base` stand for.
pub open spec fn targets(base: Seq<char>, fs: Seq<Folder>) -> Seq<Seq<char>> {
    fs.map_values(|f: Folder| target(base, f))
}

/// The folders written for a list of paths.
pub open spec fn written_folders(base: Seq<char>, list: Seq<Seq<char>>) -> Seq<Folder> {
    list.map_values(|p: Seq<char>| unnamed(paths::relative(base, p)))
}

/// The folders with one for `path` behind them, where none stands for it yet.
pub open spec fn with_folder(base: Seq<char>, fs: Seq<Folder>, path: Seq<char>) -> Seq<Folder> {
    if targets(base, fs).contains(paths::normal(path)) {
        fs
    } else {
        fs.push(unnamed(paths::relative(base, path)))
    }
}

/// The folders without those that stand for `path`.
pub open spec fn without_folder(base: Seq<char>, fs: Seq<Folder>, path: Seq<char>) -> Seq<Folder>
    decreases fs.len(),
{
    if fs.len() == 0 {
        fs
    } else {
        let before = without_folder(base, fs.drop_last(), path);
        if target(base, fs.last()) == paths::normal(path) {
            before
        } else {
            before.push(fs.last())
        }
    }
}

/// The normalized forms of a list of paths.
pub open spec fn normals(list: Seq<Seq<char>>) -> Seq<Seq<char>> {
    list.map_values(|p: Seq<char>| paths::normal(p))
}

/// Puts a path into a sorted row, unless it is there.
pub open spec fn put(row: Seq<Seq<char>>, p: Seq<char>) -> Seq<Seq<char>>
    decreases row.len(),
{
    if row.len() == 0 || components::path_less(row.last(), p) {
        row.push(p)
    } else if row.last() == p {
        row
    } else {
        put(row.drop_last(), p).push(row.last())
    }
}

/// The paths of a list, each once, in the order of paths.
pub open spec fn sorted(list: Seq<Seq<char>>) -> Seq<Seq<char>>
    decreases list.len(),
{
    if list.len() == 0 {
        list
    } else {
        put(sorted(list.drop_last()), list.last())
    }
}

/// The entries of a row that a list holds, or those that it does not hold.
pub open spec fn kept(row: Seq<Seq<char>>, list: Seq<Seq<char>>, held: bool) -> Seq<Seq<char>>
    decreases row.len(),
{
    if row.len() == 0 {
        row
    } else {
        let before = kept(row.drop_last(), list, held);
        if list.contains(row.last()) == held {
            before.push(row.last())
        } else {
            before
        }
    }
}

/// The paths of `new` that `old` lacks, normalized and in the order of paths.
pub open spec fn added(old_list: Seq<Seq<char>>, new_list: Seq<Seq<char>>) -> Seq<Seq<char>> {
    kept(sorted(normals(new_list)), normals(old_list), false)
}

/// The paths that both lists hold, normalized and in the order of paths.
pub open spec fn unchanged(old_list: Seq<Seq<char>>, new_list: Seq<Seq<char>>) -> Seq<Seq<char>> {
    kept(sorted(normals(old_list)), normals(new_list), true)
}

/// Two lists that name the same paths in the same order.
pub open spec fn same_order(a: Seq<Seq<char>>, b: Seq<Seq<char>>) -> bool {
    normals(a) == normals(b)
}

/// Two lists that name the same paths.
pub open spec fn same_members(a: Seq<Seq<char>>, b: Seq<Seq<char>>) -> bool {
    forall|p: Seq<char>| normals(a).contains(p) <==> #[trigger] normals(b).contains(p)
}

/// A row in the order of paths, without repetition.
pub open spec fn is_sorted(row: Seq<Seq<char>>) -> bool {
    forall|i: int, j: int|
        0 <= i < j < row.len() ==> components::path_less(#[trigger] row[i], #[trigger] row[j])
}

/// Texts that are their own normalized form.
pub open spec fn all_normal(row: Seq<Seq<char>>) -> bool {
    forall|i: int| 0 <= i < row.len() ==> paths::normal(#[trigger] row[i]) == row[i]
}

proof fn lemma_put(row: Seq<Seq<char>>, p: Seq<char>)
    requires
        is_sorted(row),
        all_normal(row),
        paths::normal(p) == p,
    ensures
        is_sorted(put(row, p)),
        all_normal(put(row, p)),
        forall|q: Seq<char>| #[trigger] put(row, p).contains(q) <==> (row.contains(q) || q == p),
    decreases row.len(),
{
    let out = put(row, p);
    if row.len() == 0 || components::path_less(row.last(), p) {
        assert forall|i: int, j: int| 0 <= i < j < out.len() implies components::path_less(
            #[trigger] out[i],
            #[trigger] out[j],
        ) by {
            if j == row.len() && i < row.len() - 1 {
                components::lemma_path_less_transitive(row[i], row.last(), p);
            }
        }
        assert forall|q: Seq<char>| #[trigger] out.contains(q) <==> (row.contains(q) || q == p) by {
            if row.contains(q) {
                let k = choose|k: int| 0 <= k < row.len() && row[k] == q;
                assert(out[k] == q);
            }
            if q == p {
                assert(out[row.len() as int] == p);
            }
        }
    } else if row.last() == p {
        assert forall|q: Seq<char>| #[trigger] out.contains(q) <==> (row.contains(q) || q == p) by {
            assert(row[row.len() - 1] == p);
        }
    } else {
        let d = row.drop_last();
        let last = row.last();
        assert(is_sorted(d)) by {
            assert forall|i: int, j: int| 0 <= i < j < d.len() implies components::path_less(
                #[trigger] d[i],
                #[trigger] d[j],
            ) by {
                assert(components::path_less(row[i], row[j]));
            }
        }
        assert(all_normal(d)) by {
            assert forall|i: int| 0 <= i < d.len() implies paths::normal(#[trigger] d[i]) == d[i] by {
                assert(row[i] == d[i]);
            }
        }
        lemma_put(d, p);
        let smaller = put(d, p);
        assert(paths::normal(row[row.len() - 1]) == row[row.len() - 1]);
        components::lemma_path_less(last, p);
        paths::lemma_normal_canonical(last, p);
        assert(components::path_less(p, last));
        assert forall|i: int, j: int| 0 <= i < j < out.len() implies components::path_less(
            #[trigger] out[i],
            #[trigger] out[j],
        ) by {
            if j < smaller.len() {
                assert(components::path_less(smaller[i], smaller[j]));
            } else {
                assert(smaller.contains(smaller[i]));
                assert(d.contains(smaller[i]) || smaller[i] == p);
                if smaller[i] != p {
                    let k = choose|k: int| 0 <= k < d.len() && d[k] == smaller[i];
                    assert(components::path_less(row[k], row[row.len() - 1]));
                }
            }
        }
        assert forall|q: Seq<char>| #[trigger] out.contains(q) <==> (row.contains(q) || q == p) by {
            if out.contains(q) {
                let k = choose|k: int| 0 <= k < out.len() && out[k] == q;
                if k < smaller.len() {
                    assert(smaller.contains(q));
                    if q != p {
                        let m = choose|m: int| 0 <= m < d.len() && d[m] == q;
                        assert(row[m] == q);
                    }
                } else {
                    assert(row[row.len() - 1] == q);
                }
            }
            if row.contains(q) {
                let k = choose|k: int| 0 <= k < row.len() && row[k] == q;
                if k < d.len() {
                    assert(d[k] == q);
                    assert(smaller.contains(q));
                    let m = choose|m: int| 0 <= m < smaller.len() && smaller[m] == q;
                    assert(out[m] == q);
                } else {
                    assert(out[smaller.len() as int] == q);
                }
            }
            if q == p {
                assert(smaller.contains(p));
                let m = choose|m: int| 0 <= m < smaller.len() && smaller[m] == p;
                assert(out[m] == p);
            }
        }
    }
}

/// Sorting keeps the members of a list of normalized paths.
pub proof fn lemma_sorted(list: Seq<Seq<char>>)
    requires
        all_normal(list),
    ensures
        is_sorted(sorted(list)),
        all_normal(sorted(list)),
        forall|q: Seq<char>| #[trigger] sorted(list).contains(q) <==> list.contains(q),
    decreases list.len(),
{
    if list.len() > 0 {
        let d = list.drop_last();
        assert(all_normal(d)) by {
            assert forall|i: int| 0 <= i < d.len() implies paths::normal(#[trigger] d[i]) == d[i] by {
                assert(list[i] == d[i]);
            }
        }
        lemma_sorted(d);
        assert(paths::normal(list[list.len() - 1]) == list[list.len() - 1]);
        lemma_put(sorted(d), list.last());
        assert forall|q: Seq<char>| #[trigger] sorted(list).contains(q) <==> list.contains(q) by {
            if list.contains(q) {
                let k = choose|k: int| 0 <= k < list.len() && list[k] == q;
                if k < d.len() {
                    assert(d[k] == q);
                    assert(d.contains(q));
                }
            }
            if d.contains(q) {
                let k = choose|k: int| 0 <= k < d.len() && d[k] == q;
                assert(list[k] == q);
            }
            assert(list[list.len() - 1] == list.last());
        }
    }
}

proof fn lemma_kept(row: Seq<Seq<char>>, list: Seq<Seq<char>>, held: bool)
    requires
        is_sorted(row),
    ensures
        is_sorted(kept(row, list, held)),
        forall|q: Seq<char>| #[trigger]
            kept(row, list, held).contains(q) <==> (row.contains(q) && list.contains(q) == held),
    decreases row.len(),
{
    if row.len() > 0 {
        let d = row.drop_last();
        assert(is_sorted(d)) by {
            assert forall|i: int, j: int| 0 <= i < j < d.len() implies components::path_less(
                #[trigger] d[i],
                #[trigger] d[j],
            ) by {
                assert(components::path_less(row[i], row[j]));
            }
        }
        lemma_kept(d, list, held);
        let before = kept(d, list, held);
        let out = kept(row, list, held);
        assert forall|i: int, j: int| 0 <= i < j < out.len() implies components::path_less(
            #[trigger] out[i],
            #[trigger] out[j],
        ) by {
            if j < before.len() {
                assert(components::path_less(before[i], before[j]));
            } else {
                assert(before.contains(before[i]));
                assert(d.contains(before[i]));
                let k = choose|k: int| 0 <= k < d.len() && d[k] == before[i];
                assert(components::path_less(row[k], row[row.len() - 1]));
            }
        }
        assert forall|q: Seq<char>| #[trigger]
            out.contains(q) <==> (row.contains(q) && list.contains(q) == held) by {
            if out.contains(q) {
                let k = choose|k: int| 0 <= k < out.len() && out[k] == q;
                if k < before.len() {
                    assert(before.contains(q));
                    let m = choose|m: int| 0 <= m < d.len() && d[m] == q;
                    assert(row[m] == q);
                } else {
                    assert(row[row.len() - 1] == q);
                }
            }
            if row.contains(q) && list.contains(q) == held {
                let k = choose|k: int| 0 <= k < row.len() && row[k] == q;
                if k < d.len() {
                    assert(d[k] == q);
                    assert(before.contains(q));
                    let m = choose|m: int| 0 <= m < before.len() && before[m] == q;
                    assert(out[m] == q);
                } else {
                    assert(out[before.len() as int] == q);
                }
            }
        }
    }
}

pub proof fn lemma_normals(list: Seq<Seq<char>>)
    ensures
        all_normal(normals(list)),
{
    assert forall|i: int| 0 <= i < normals(list).len() implies paths::normal(
        #[trigger] normals(list)[i],
    ) == normals(list)[i] by {
        paths::lemma_normal_idempotent(list[i]);
    }
}

/// A difference splits the paths of two lists: what is added only the new list
/// holds, what is removed only the old one, what is unchanged both; each part
/// is in the order of paths and without repetition.
pub proof fn lemma_diff(old_list: Seq<Seq<char>>, new_list: Seq<Seq<char>>)
    ensures
        is_sorted(added(old_list, new_list)),
        is_sorted(unchanged(old_list, new_list)),
        forall|p: Seq<char>|
            #![trigger added(old_list, new_list).contains(p)]
            added(old_list, new_list).contains(p) <==> (normals(new_list).contains(p) && !normals(
                old_list,
            ).contains(p)),
        forall|p: Seq<char>|
            #![trigger unchanged(old_list, new_list).contains(p)]
            unchanged(old_list, new_list).contains(p) <==> (normals(new_list).contains(p)
                && normals(old_list).contains(p)),
{
    lemma_normals(old_list);
    lemma_normals(new_list);
    lemma_sorted(normals(old_list));
    lemma_sorted(normals(new_list));
    lemma_kept(sorted(normals(new_list)), normals(old_list), false);
    lemma_kept(sorted(normals(old_list)), normals(new_list), true);
}

/// Nothing is added and nothing removed exactly where two lists name the same paths.
pub proof fn lemma_no_diff(a: Seq<Seq<char>>, b: Seq<Seq<char>>)
    ensures
        (added(a, b).len() == 0 && added(b, a).len() == 0) <==> same_members(a, b),
        same_order(a, b) ==> same_members(a, b),
{
    lemma_diff(a, b);
    lemma_diff(b, a);
    if added(a, b).len() == 0 && added(b, a).len() == 0 {
        assert forall|p: Seq<char>| normals(a).contains(p) <==> #[trigger] normals(b).contains(
            p,
        ) by {
            assert(!added(a, b).contains(p));
            assert(!added(b, a).contains(p));
        }
    }
    if same_members(a, b) {
        if added(a, b).len() > 0 {
            let p = added(a, b)[0];
            assert(added(a, b).contains(p));
            assert(normals(b).contains(p));
        }
        if added(b, a).len() > 0 {
            let p = added(b, a)[0];
            assert(added(b, a).contains(p));
            assert(normals(b).contains(p));
        }
    }
}

fn contains_path(list: &[String], p: &str) -> (r: bool)
    ensures
        r == text::texts(list@).contains(p@),
{
    let mut i: usize = 0;
    while i < list.len()
        invariant
            i <= list.len(),
            forall|k: int| 0 <= k < i ==> list@[k]@ != p@,
        decreases list.len() - i,
    {
        if text::text_eq(list[i].as_str(), p) {
            assert(text::texts(list@)[i as int] == p@);
            return true;
        }
        i = i + 1;
    }
    assert forall|k: int| 0 <= k < list@.len() implies text::texts(list@)[k] != p@ by {
        assert(text::texts(list@)[k] == list@[k]@);
    }
    false
}

fn normalize_all(list: &[String]) -> (r: Vec<String>)
    ensures
        text::texts(r@) == normals(text::texts(list@)),
{
    let ghost want = normals(text::texts(list@));
    let mut r: Vec<String> = Vec::new();
    let mut i: usize = 0;
    while i < list.len()
        invariant
            i <= list.len(),
            want == normals(text::texts(list@)),
            text::texts(r@) == want.take(i as int),
        decreases list.len() - i,
    {
        let n = paths::normalize_path(list[i].as_str());
        let ghost before = text::texts(r@);
        r.push(n);
        assert(text::texts(r@) == before.push(n@));
        i = i + 1;
        assert(text::texts(r@) == want.take(i as int));
    }
    assert(want.take(want.len() as int) == want);
    r
}

/// Puts a path into a sorted row, unless it is there.
fn put_path(row: &mut Vec<String>, p: String)
    ensures
        text::texts(final(row)@) == put(text::texts(old(row)@), p@),
{
    let ghost all = text::texts(row@);
    let mut i: usize = row.len();
    assert(all.take(all.len() as int) == all);
    assert(put(all, p@) == put(all, p@) + all.skip(all.len() as int));
    while i > 0
        invariant
            i <= row.len(),
            all == text::texts(row@),
            row@ == old(row)@,
            put(all, p@) == put(all.take(i as int), p@) + all.skip(i as int),
        decreases i,
    {
        let ghost here = all.take(i as int);
        proof {
            assert(here.last() == row@[i - 1]@);
            assert(here.drop_last() == all.take(i - 1));
        }
        if components::path_lt(row[i - 1].as_str(), p.as_str()) {
            assert(here.push(p@) + all.skip(i as int) == all.insert(i as int, p@));
            row.insert(i, p);
            assert(text::texts(row@) == all.insert(i as int, p@));
            return ;
        }
        if text::text_eq(row[i - 1].as_str(), p.as_str()) {
            assert(here + all.skip(i as int) == all);
            return ;
        }
        proof {
            let smaller = put(all.take(i - 1), p@);
            assert(smaller.push(here.last()) + all.skip(i as int) == smaller + all.skip(i - 1));
        }
        i = i - 1;
    }
    assert(all.take(0).push(p@) + all.skip(0) == all.insert(0, p@));
    row.insert(0, p);
    assert(text::texts(row@) == all.insert(0, p@));
}

fn sort_paths(list: &[String]) -> (r: Vec<String>)
    ensures
        text::texts(r@) == sorted(text::texts(list@)),
{
    let ghost all = text::texts(list@);
    let mut r: Vec<String> = Vec::new();
    let mut i: usize = 0;
    assert(all.take(0) == Seq::<Seq<char>>::empty());
    assert(text::texts(r@) == Seq::<Seq<char>>::empty());
    while i < list.len()
        invariant
            i <= list.len(),
            all == text::texts(list@),
            text::texts(r@) == sorted(all.take(i as int)),
        decreases list.len() - i,
    {
        proof {
            assert(all.take(i + 1).drop_last() == all.take(i as int));
            assert(all.take(i + 1).last() == list@[i as int]@);
        }
        put_path(&mut r, list[i].clone());
        i = i + 1;
    }
    assert(all.take(all.len() as int) == all);
    r
}

fn keep(row: &[String], list: &[String], held: bool) -> (r: Vec<String>)
    ensures
        text::texts(r@) == kept(text::texts(row@), text::texts(list@), held),
{
    let ghost all = text::texts(row@);
    let ghost others = text::texts(list@);
    let mut r: Vec<String> = Vec::new();
    let mut i: usize = 0;
    assert(all.take(0) == Seq::<Seq<char>>::empty());
    assert(text::texts(r@) == Seq::<Seq<char>>::empty());
    while i < row.len()
        invariant
            i <= row.len(),
            all == text::texts(row@),
            others == text::texts(list@),
            text::texts(r@) == kept(all.take(i as int), others, held),
        decreases row.len() - i,
    {
        let ghost before = text::texts(r@);
        proof {
            assert(all.take(i + 1).drop_last() == all.take(i as int));
            assert(all.take(i + 1).last() == row@[i as int]@);
        }
        if contains_path(list, row[i].as_str()) == held {
            let p = row[i].clone();
            r.push(p);
            assert(text::texts(r@) == before.push(p@));
        }
        i = i + 1;
    }
    assert(all.take(all.len() as int) == all);
    r
}

/// Compares two lists of folders by their members.
pub fn diff_folders(old_list: &[String], new_list: &[String]) -> (r: FolderDiff)
    ensures
        text::texts(r.added@) == added(text::texts(old_list@), text::texts(new_list@)),
        text::texts(r.removed@) == added(text::texts(new_list@), text::texts(old_list@)),
        text::texts(r.unchanged@) == unchanged(text::texts(old_list@), text::texts(new_list@)),
{
    let old_normalized = normalize_all(old_list);
    let new_normalized = normalize_all(new_list);
    let old_set = sort_paths(old_normalized.as_slice());
    let new_set = sort_paths(new_normalized.as_slice());
    FolderDiff {
        added: keep(new_set.as_slice(), old_normalized.as_slice(), false),
        removed: keep(old_set.as_slice(), new_normalized.as_slice(), false),
        unchanged: keep(old_set.as_slice(), new_normalized.as_slice(), true),
    }
}

/// Whether two lists name the same folders in the same order.
pub fn folders_match_ordered(a: &[String], b: &[String]) -> (r: bool)
    ensures
        r == same_order(text::texts(a@), text::texts(b@)),
{
    let ghost x = normals(text::texts(a@));
    let ghost y = normals(text::texts(b@));
    if a.len() != b.len() {
        assert(x.len() != y.len());
        return false;
    }
    let mut i: usize = 0;
    while i < a.len()
        invariant
            i <= a.len() == b.len(),
            x == normals(text::texts(a@)),
            y == normals(text::texts(b@)),
            forall|k: int| 0 <= k < i ==> x[k] == y[k],
        decreases a.len() - i,
    {
        if !paths::paths_equal(a[i].as_str(), b[i].as_str()) {
            assert(x[i as int] != y[i as int]);
            return false;
        }
        i = i + 1;
    }
    assert(x == y);
    true
}

/// Whether two lists name the same folders.
pub fn folders_match_set(a: &[String], b: &[String]) -> (r: bool)
    ensures
        r == same_members(text::texts(a@), text::texts(b@)),
{
    let diff = diff_folders(a, b);
    proof {
        lemma_no_diff(text::texts(a@), text::texts(b@));
        assert(text::texts(diff.added@).len() == diff.added@.len());
        assert(text::texts(diff.removed@).len() == diff.removed@.len());
    }
    diff.added.len() == 0 && diff.removed.len() == 0
}

/// The path written for `path` in a file of the directory `base` stands for `path`.
pub open spec fn faithful(base: Seq<char>, path: Seq<char>) -> bool {
    target(base, unnamed(paths::relative(base, path))) == paths::normal(path)
}

impl CodeWorkspaceFile {
    /// The folders of the file.
    pub open spec fn list(self) -> Seq<Folder> {
        folders_of(self.folders@)
    }

    /// Resolves the folders against the directory of the workspace file.
    pub fn resolve(&self, workspace_file_path: &str) -> (r: Result<ResolvedWorkspace, Error>)
        ensures
            match components::parent(workspace_file_path@) {
                Some(base) => r matches Ok(w) && w.file_path@ == workspace_file_path@
                    && text::texts(w.folders@) == targets(base, self.list()),
                None => r matches Err(Error::NoParentDir),
            },
    {
        let base = match components::parent_of(workspace_file_path) {
            Some(base) => base,
            None => {
                return Err(Error::NoParentDir);
            },
        };
        let ghost want = targets(base@, self.list());
        let mut folders: Vec<String> = Vec::new();
        let mut i: usize = 0;
        while i < self.folders.len()
            invariant
                i <= self.folders.len(),
                want == targets(base@, self.list()),
                text::texts(folders@) == want.take(i as int),
            decreases self.folders.len() - i,
        {
            let joined = components::join_path(base.as_str(), self.folders[i].path.as_str());
            let n = paths::normalize_path(joined.as_str());
            let ghost before = text::texts(folders@);
            folders.push(n);
            i = i + 1;
            assert(text::texts(folders@) == before.push(n@));
            assert(text::texts(folders@) == want.take(i as int));
        }
        assert(want.take(want.len() as int) == want);
        Ok(ResolvedWorkspace { file_path: workspace_file_path.to_string(), folders })
    }

    /// Replaces the folders by the given paths, written relative to the
    /// directory of the workspace file.
    ///
    /// Each folder stands for its path where the directory leads back to it.
    pub fn set_folders_from_absolute(
        &mut self,
        workspace_file_path: &str,
        absolute_paths: &[String],
    ) -> (r: Result<(), Error>)
        ensures
            final(self).extra == old(self).extra,
            match components::parent(workspace_file_path@) {
                Some(base) => r is Ok && final(self).list() == written_folders(
                    base,
                    text::texts(absolute_paths@),
                ) && forall|i: int|
                    0 <= i < absolute_paths@.len() && paths::leads_back(
                        base,
                        absolute_paths@[i]@,
                    ) ==> faithful(base, (#[trigger] absolute_paths@[i])@),
                None => r matches Err(Error::NoParentDir) && final(self).folders == old(
                    self,
                ).folders,
            },
    {
        let base = match components::parent_of(workspace_file_path) {
            Some(base) => base,
            None => {
                return Err(Error::NoParentDir);
            },
        };
        let ghost all = text::texts(absolute_paths@);
        let ghost want = written_folders(base@, all);
        let mut folders: Vec<WorkspaceFolder> = Vec::new();
        let mut i: usize = 0;
        while i < absolute_paths.len()
            invariant
                i <= absolute_paths.len(),
                all == text::texts(absolute_paths@),
                want == written_folders(base@, all),
                folders_of(folders@) == want.take(i as int),
                forall|k: int|
                    0 <= k < i && paths::leads_back(base@, absolute_paths@[k]@) ==> faithful(
                        base@,
                        (#[trigger] absolute_paths@[k])@,
                    ),
            decreases absolute_paths.len() - i,
        {
            let rel = paths::relative_path(base.as_str(), absolute_paths[i].as_str());
            let f = WorkspaceFolder { path: rel, name: None };
            let ghost before = folders_of(folders@);
            folders.push(f);
            i = i + 1;
            assert(folders_of(folders@) == before.push(f@));
            assert(folders_of(folders@) == want.take(i as int));
        }
        assert(want.take(want.len() as int) == want);
        self.folders = folders;
        Ok(())
    }

    /// Adds a folder unless one stands for it already; says whether it was added.
    pub fn add_folder(&mut self, workspace_file_path: &str, abs_path: &str) -> (r: Result<
        bool,
        Error,
    >)
        ensures
            final(self).extra == old(self).extra,
            match components::parent(workspace_file_path@) {
                Some(base) => {
                    &&& r == Ok::<bool, Error>(
                        !targets(base, old(self).list()).contains(paths::normal(abs_path@)),
                    )
                    &&& final(self).list() == with_folder(base, old(self).list(), abs_path@)
                    &&& r == Ok::<bool, Error>(true) && paths::leads_back(base, abs_path@)
                        ==> faithful(base, abs_path@)
                },
                None => r matches Err(Error::NoParentDir) && final(self).folders == old(
                    self,
                ).folders,
            },
    {
        let base = match components::parent_of(workspace_file_path) {
            Some(base) => base,
            None => {
                return Err(Error::NoParentDir);
            },
        };
        let resolved = match self.resolve(workspace_file_path) {
            Ok(resolved) => resolved,
            Err(e) => {
                return Err(e);
            },
        };
        let wanted = paths::normalize_path(abs_path);
        if contains_path(resolved.folders.as_slice(), wanted.as_str()) {
            return Ok(false);
        }
        let rel = paths::relative_path(base.as_str(), abs_path);
        let f = WorkspaceFolder { path: rel, name: None };
        let ghost before = self.list();
        self.folders.push(f);
        assert(self.list() == before.push(f@));
        Ok(true)
    }

    /// Removes the folders that stand for a path; says whether there were any.
    pub fn remove_folder(&mut self, workspace_file_path: &str, abs_path: &str) -> (r: Result<
        bool,
        Error,
    >)
        ensures
            final(self).extra == old(self).extra,
            match components::parent(workspace_file_path@) {
                Some(base) => {
                    &&& final(self).list() == without_folder(base, old(self).list(), abs_path@)
                    &&& r == Ok::<bool, Error>(
                        targets(base, old(self).list()).contains(paths::normal(abs_path@)),
                    )
                },
                None => r matches Err(Error::NoParentDir) && final(self).folders == old(
                    self,
                ).folders,
            },
    {
        let base = match components::parent_of(workspace_file_path) {
            Some(base) => base,
            None => {
                return Err(Error::NoParentDir);
            },
        };
        let wanted = paths::normalize_path(abs_path);
        let ghost all = self.list();
        let initial_len: usize = self.folders.len();
        let mut i: usize = 0;
        let ghost mut seen: int = 0;
        assert(without_folder(base@, all.take(0), abs_path@) == all.take(0));
        assert(self.list() == all.take(0) + all.skip(0));
        while i < self.folders.len()
            invariant
                0 <= seen <= all.len(),
                i <= self.folders.len(),
                self.folders.len() - i == all.len() - seen,
                self.extra == old(self).extra,
                wanted@ == paths::normal(abs_path@),
                i == without_folder(base@, all.take(seen), abs_path@).len(),
                self.list() == without_folder(base@, all.take(seen), abs_path@) + all.skip(seen),
            decreases self.folders.len() - i,
        {
            let ghost before = without_folder(base@, all.take(seen), abs_path@);
            proof {
                assert(all.take(seen + 1).drop_last() == all.take(seen));
                assert(all.take(seen + 1).last() == all[seen]);
                assert(self.list()[i as int] == all[seen]);
                assert(self.folders@[i as int]@ == all[seen]);
            }
            let ghost listed = self.list();
            let joined = components::join_path(base.as_str(), self.folders[i].path.as_str());
            let here = paths::normalize_path(joined.as_str());
            if text::text_eq(here.as_str(), wanted.as_str()) {
                self.folders.remove(i);
                assert(self.list() == listed.remove(i as int));
                assert(listed.remove(i as int) == before + all.skip(seen + 1));
            } else {
                i = i + 1;
                assert(before + all.skip(seen) == before.push(all[seen]) + all.skip(seen + 1));
            }
            proof {
                seen = seen + 1;
            }
        }
        proof {
            assert(all.take(seen) == all);
            assert(self.list() == without_folder(base@, all, abs_path@));
            lemma_without_folder(base@, all, abs_path@);
        }
        Ok(self.folders.len() != initial_len)
    }
}

/// Removing the folders of a path leaves none that stands for it, and every
/// other one in its place.
pub proof fn lemma_without_folder(base: Seq<char>, fs: Seq<Folder>, path: Seq<char>)
    ensures
        without_folder(base, fs, path).len() <= fs.len(),
        without_folder(base, fs, path).len() == fs.len() <==> !targets(base, fs).contains(
            paths::normal(path),
        ),
        without_folder(base, fs, path).len() == fs.len() ==> without_folder(base, fs, path) == fs,
        !targets(base, without_folder(base, fs, path)).contains(paths::normal(path)),
        forall|p: Seq<char>| #[trigger]
            targets(base, without_folder(base, fs, path)).contains(p) <==> (targets(
                base,
                fs,
            ).contains(p) && p != paths::normal(path)),
    decreases fs.len(),
{
    if fs.len() > 0 {
        let d = fs.drop_last();
        let last = fs.last();
        let gone = paths::normal(path);
        lemma_without_folder(base, d, path);
        let before = without_folder(base, d, path);
        let out = without_folder(base, fs, path);
        assert(targets(base, fs) == targets(base, d).push(target(base, last)));
        assert forall|p: Seq<char>| targets(base, fs).contains(p) <==> (#[trigger] targets(
            base,
            d,
        ).contains(p) || p == target(base, last)) by {
            let all = targets(base, fs);
            if targets(base, d).contains(p) {
                let k = choose|k: int| 0 <= k < d.len() && targets(base, d)[k] == p;
                assert(all[k] == p);
            }
            assert(all[d.len() as int] == target(base, last));
        }
        if target(base, last) == gone {
            assert forall|p: Seq<char>| #[trigger] targets(base, out).contains(p) <==> (targets(
                base,
                fs,
            ).contains(p) && p != gone) by {
                assert(targets(base, before).contains(p) <==> targets(base, d).contains(p) && p
                    != gone);
            }
            assert(targets(base, fs)[fs.len() - 1] == gone);
        } else {
            assert(targets(base, out) == targets(base, before).push(target(base, last)));
            assert forall|p: Seq<char>| #[trigger] targets(base, out).contains(p) <==> (targets(
                base,
                fs,
            ).contains(p) && p != gone) by {
                let mine = targets(base, out);
                if targets(base, before).contains(p) {
                    let k = choose|k: int| 0 <= k < before.len() && targets(base, before)[k] == p;
                    assert(mine[k] == p);
                }
                assert(mine[before.len() as int] == target(base, last));
                assert(targets(base, before).contains(p) <==> targets(base, d).contains(p) && p
                    != gone);
                if mine.contains(p) {
                    let k = choose|k: int| 0 <= k < mine.len() && mine[k] == p;
                    if k < before.len() {
                        assert(targets(base, before)[k] == p);
                    }
                }
                assert(targets(base, d).contains(p) ==> targets(base, fs).contains(p));
            }
            if out.len() == fs.len() {
                assert(before == d);
                assert(d.push(last) == fs);
            }
            assert(targets(base, d).contains(gone) <==> targets(base, fs).contains(gone));
        }
    } else {
        assert(targets(base, fs).len() == 0);
    }
}

/// Adding a folder a second time changes nothing, provided that what is written
/// for it stands for it.
pub proof fn lemma_add_twice(base: Seq<char>, fs: Seq<Folder>, path: Seq<char>)
    requires
        faithful(base, path),
    ensures
        targets(base, with_folder(base, fs, path)).contains(paths::normal(path)),
        with_folder(base, with_folder(base, fs, path), path) == with_folder(base, fs, path),
{
    let once = with_folder(base, fs, path);
    if once.len() > fs.len() {
        assert(targets(base, once)[fs.len() as int] == paths::normal(path));
    }
}

/// Removing a folder takes back its addition.
pub proof fn lemma_remove_after_add(base: Seq<char>, fs: Seq<Folder>, path: Seq<char>)
    requires
        faithful(base, path),
        !targets(base, fs).contains(paths::normal(path)),
    ensures
        without_folder(base, with_folder(base, fs, path), path) == fs,
{
    let once = with_folder(base, fs, path);
    assert(once.drop_last() == fs);
    lemma_without_folder(base, fs, path);
}

/// Adding a folder keeps what the file holds and adds exactly the path, provided
/// that what is written for it stands for it.
pub proof fn lemma_with_folder(base: Seq<char>, fs: Seq<Folder>, path: Seq<char>)
    requires
        faithful(base, path) || targets(base, fs).contains(paths::normal(path)),
    ensures
        forall|p: Seq<char>| #[trigger]
            targets(base, with_folder(base, fs, path)).contains(p) <==> (targets(base, fs).contains(
                p,
            ) || p == paths::normal(path)),
{
    let out = with_folder(base, fs, path);
    let new = paths::normal(path);
    if !targets(base, fs).contains(new) {
        assert(targets(base, out) == targets(base, fs).push(new));
        assert forall|p: Seq<char>| #[trigger] targets(base, out).contains(p) <==> (targets(
            base,
            fs,
        ).contains(p) || p == new) by {
            let all = targets(base, out);
            if targets(base, fs).contains(p) {
                let k = choose|k: int| 0 <= k < fs.len() && targets(base, fs)[k] == p;
                assert(all[k] == p);
            }
            assert(all[fs.len() as int] == new);
            if all.contains(p) {
                let k = choose|k: int| 0 <= k < all.len() && all[k] == p;
                if k < fs.len() {
                    assert(targets(base, fs)[k] == p);
                }
            }
        }
    }
}

} // verus!
