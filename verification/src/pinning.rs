//! Root pinning: the target root, the folder that a project is named after,
//! stays first on display.
use vstd::prelude::*;

use crate::components;
use crate::hook_client;
use crate::hook_client::{FolderCommand, Invocation};
use crate::order;
use crate::paths;
use crate::search;
use crate::settings;
use crate::text;

verus! {

broadcast use vstd::string::group_string_axioms;

/// The entry of a row of flags, taken as unset behind its end.
pub open spec fn flag(flags: Seq<bool>, i: int) -> bool {
    i < flags.len() && flags[i]
}

/// The root at an index has the given folder name.
pub open spec fn is_named(roots: Seq<Seq<char>>, name: Seq<char>) -> spec_fn(int) -> bool {
    |i: int| components::file_name(roots[i]) == Some(name)
}

pub open spec fn is_flagged(flags: Seq<bool>) -> spec_fn(int) -> bool {
    |i: int| flag(flags, i)
}

/// The target root: the first root named like the project, else the first one
/// that holds the project's workspace file.
pub open spec fn target_root(
    roots: Seq<Seq<char>>,
    name: Seq<char>,
    holds_file: Seq<bool>,
) -> Option<Seq<char>> {
    match search::first(roots.len(), is_named(roots, name)) {
        Some(i) => Some(roots[i]),
        None => match search::first(roots.len(), is_flagged(holds_file)) {
            Some(i) => Some(roots[i]),
            None => None,
        },
    }
}

/// Determines the target root of a project.
///
/// `holds_workspace_file` says of each root whether the file
/// `settings::workspace_file_for_name(root, name)` exists, where `name` is the
/// name portion of the project name.
pub fn determine_target_root(
    roots: &[String],
    project_name: &str,
    holds_workspace_file: &[bool],
) -> (r: Option<String>)
    ensures
        match target_root(
            text::texts(roots@),
            settings::name_of(project_name@),
            holds_workspace_file@,
        ) {
            Some(t) => r matches Some(p) && p@ == t,
            None => r is None,
        },
{
    let (_, name) = settings::parse_project_name(project_name);
    let ghost all = text::texts(roots@);
    let ghost named = is_named(all, name@);
    let mut i: usize = 0;
    while i < roots.len()
        invariant
            i <= roots.len(),
            all == text::texts(roots@),
            name@ == settings::name_of(project_name@),
            named == is_named(all, name@),
            forall|k: int| 0 <= k < i ==> !#[trigger] named(k),
        decreases roots.len() - i,
    {
        if let Some(folder) = components::file_name_of(roots[i].as_str()) {
            if text::text_eq(folder.as_str(), name.as_str()) {
                proof {
                    search::lemma_first_is(all.len(), named, i as int);
                }
                return Some(roots[i].clone());
            }
        }
        i = i + 1;
    }
    proof {
        search::lemma_first(all.len(), named);
    }
    let ghost flagged = is_flagged(holds_workspace_file@);
    let mut j: usize = 0;
    while j < roots.len()
        invariant
            j <= roots.len(),
            all == text::texts(roots@),
            name@ == settings::name_of(project_name@),
            search::first(all.len(), is_named(all, name@)) is None,
            flagged == is_flagged(holds_workspace_file@),
            forall|k: int| 0 <= k < j ==> !#[trigger] flagged(k),
        decreases roots.len() - j,
    {
        if j < holds_workspace_file.len() && holds_workspace_file[j] {
            proof {
                search::lemma_first_is(all.len(), flagged, j as int);
            }
            return Some(roots[j].clone());
        }
        j = j + 1;
    }
    proof {
        search::lemma_first(all.len(), flagged);
    }
    None
}

/// The path at an index is the given one.
pub open spec fn is_path(row: Seq<Seq<char>>, path: Seq<char>) -> spec_fn(int) -> bool {
    |i: int| paths::equal(row[i], path)
}

/// The row with the target root moved to the front, where it is held but not first.
pub open spec fn pinned(row: Seq<Seq<char>>, target: Seq<char>) -> Option<Seq<Seq<char>>> {
    match search::first(row.len(), is_path(row, target)) {
        Some(i) => if i > 0 {
            Some(order::fronted(row, i))
        } else {
            None
        },
        None => None,
    }
}

fn find_path(row: &[String], path: &str) -> (r: Option<usize>)
    ensures
        match search::first(row@.len(), is_path(text::texts(row@), path@)) {
            Some(i) => r matches Some(k) && k == i && 0 <= i < row@.len(),
            None => r is None,
        },
{
    let ghost all = text::texts(row@);
    let ghost p = is_path(all, path@);
    let mut i: usize = 0;
    while i < row.len()
        invariant
            i <= row.len(),
            all == text::texts(row@),
            p == is_path(all, path@),
            forall|k: int| 0 <= k < i ==> !#[trigger] p(k),
        decreases row.len() - i,
    {
        if paths::paths_equal(row[i].as_str(), path) {
            proof {
                search::lemma_first_is(all.len(), p, i as int);
            }
            return Some(i);
        }
        i = i + 1;
    }
    proof {
        search::lemma_first(all.len(), p);
    }
    None
}

/// Moves the target root to the front of the displayed paths; nothing is
/// returned where it stands there already, or is not among them.
pub fn ensure_target_root_first(ordered_paths: &[String], target_root: &str) -> (r: Option<
    Vec<String>,
>)
    ensures
        match pinned(text::texts(ordered_paths@), target_root@) {
            Some(row) => r matches Some(v) && text::texts(v@) == row,
            None => r is None,
        },
{
    let at: usize = match find_path(ordered_paths, target_root) {
        Some(i) => i,
        None => {
            return None;
        },
    };
    if at == 0 {
        return None;
    }
    let ghost all = text::texts(ordered_paths@);
    let mut r: Vec<String> = Vec::new();
    r.push(ordered_paths[at].clone());
    let mut i: usize = 0;
    assert(text::texts(r@) == seq![all[at as int]] + all.take(0));
    while i < ordered_paths.len()
        invariant
            at < ordered_paths.len(),
            i <= ordered_paths.len(),
            all == text::texts(ordered_paths@),
            text::texts(r@) == seq![all[at as int]] + (if i <= at {
                all.take(i as int)
            } else {
                all.take(i as int).remove(at as int)
            }),
        decreases ordered_paths.len() - i,
    {
        let ghost before = text::texts(r@);
        if i != at {
            let p = ordered_paths[i].clone();
            r.push(p);
            assert(text::texts(r@) == before.push(all[i as int]));
        }
        i = i + 1;
        proof {
            assert(all.take(i as int) == all.take(i - 1).push(all[i - 1]));
            if i - 1 < at {
                assert(text::texts(r@) == seq![all[at as int]] + all.take(i as int));
            } else {
                assert(text::texts(r@) == seq![all[at as int]] + all.take(i as int).remove(
                    at as int,
                ));
            }
        }
    }
    assert(all.take(all.len() as int) == all);
    Some(r)
}

/// The command that pins the target root in a running Zed; none where it is
/// displayed first already, or not at all.
pub fn pin_target_root(
    ordered_paths: &[String],
    target_root: &str,
    channel: Option<&str>,
) -> (r: Option<Invocation>)
    ensures
        match pinned(text::texts(ordered_paths@), target_root@) {
            Some(row) => r matches Some(i) && i.command == FolderCommand::Reuse && text::texts(
                i.paths@,
            ) == row && text::opt(i.channel) == text::opt_str(channel),
            None => r is None,
        },
{
    match ensure_target_root_first(ordered_paths, target_root) {
        Some(row) => {
            assert(text::texts(row@).len() == row@.len());
            match hook_client::invoke_zed_reuse(row.as_slice(), channel) {
                Ok(i) => Some(i),
                Err(_) => None,
            }
        },
        None => None,
    }
}

/// The indices in the order in which they stand.
pub open spec fn counting(n: nat) -> Seq<usize> {
    Seq::new(n, |i: int| i as usize)
}

/// The positions that a list gives to `n` paths; an empty or malformed list stands
/// for the lexicographic order.
pub open spec fn given_positions(list: Seq<char>, n: nat) -> Seq<usize> {
    match order::positions(list) {
        Some(pos) => pos,
        None => counting(n),
    }
}

/// The row of indices on display with the target root moved to the front, where
/// it is held but not first.
pub open spec fn pinned_row(
    lex_paths: Seq<Seq<char>>,
    shown: Seq<int>,
    target: Seq<char>,
) -> Option<Seq<int>> {
    match search::first(shown.len(), is_path(paths::picked(lex_paths, shown), target)) {
        Some(i) => if i > 0 {
            Some(order::fronted(shown, i))
        } else {
            None
        },
        None => None,
    }
}

/// The list of positions that puts the target root first, where the current one does not.
pub open spec fn corrected(
    lex_paths: Seq<Seq<char>>,
    list: Seq<char>,
    target: Seq<char>,
) -> Option<Seq<char>> {
    let pos = given_positions(list, lex_paths.len());
    if pos.len() != lex_paths.len() {
        None
    } else {
        match pinned_row(lex_paths, order::display(pos), target) {
            Some(row) => Some(order::written_positions(order::positions_in(row))),
            None => None,
        }
    }
}

proof fn lemma_fronted_arrangement(row: Seq<int>, j: int)
    requires
        row.no_duplicates(),
        forall|a: int| 0 <= a < row.len() ==> 0 <= #[trigger] row[a] < row.len(),
        0 <= j < row.len(),
    ensures
        order::fronted(row, j).no_duplicates(),
        order::fronted(row, j).len() == row.len(),
        forall|a: int| 0 <= a < row.len() ==> 0 <= #[trigger] order::fronted(row, j)[a] < row.len(),
{
    let out = order::fronted(row, j);
    assert forall|a: int| 0 <= a < row.len() implies #[trigger] out[a] == row[(if a == 0 {
        j
    } else if a <= j {
        a - 1
    } else {
        a
    })] by {}
}

/// Corrects the list of positions of a workspace so that the target root is
/// displayed first; nothing is returned where it is already, where it is not
/// among the paths, or where the list has another length than the paths.
///
/// An empty or malformed list gives no positions: the paths are on display in their
/// lexicographic order, and that is the order which is corrected. A list of another
/// length does give positions, of folders that are not the workspace's any more or
/// not yet; which path each belongs to cannot be told, and it is left to Zed, which
/// writes the list anew with the folders.
pub fn correct_paths_order(
    lex_paths: &[String],
    current_order: &str,
    target_root: &str,
) -> (r: Option<String>)
    ensures
        match corrected(text::texts(lex_paths@), current_order@, target_root@) {
            Some(t) => r matches Some(s) && s@ == t,
            None => r is None,
        },
{
    let ghost all = text::texts(lex_paths@);
    let n: usize = lex_paths.len();
    let pos: Vec<usize> = match order::parse_positions(current_order) {
        Some(pos) => pos,
        None => {
            let mut v: Vec<usize> = Vec::new();
            let mut i: usize = 0;
            while i < n
                invariant
                    i <= n,
                    v@ == counting(i as nat),
                decreases n - i,
            {
                v.push(i);
                i = i + 1;
                assert(v@ == counting(i as nat));
            }
            v
        },
    };
    if pos.len() != n {
        return None;
    }
    let row = order::sort_by_position(pos.as_slice());
    let ghost shown = order::row_of(row@);
    proof {
        order::lemma_by_position(pos@, pos@.len());
        order::lemma_display_distinct(pos@, shown, pos@.len());
    }
    let mut display: Vec<String> = Vec::new();
    let mut j: usize = 0;
    while j < n
        invariant
            j <= n == lex_paths.len(),
            row.len() == n,
            all == text::texts(lex_paths@),
            shown == order::row_of(row@),
            forall|a: int| 0 <= a < shown.len() ==> 0 <= #[trigger] shown[a] < n,
            text::texts(display@) == paths::picked(all, shown.take(j as int)),
        decreases n - j,
    {
        let ghost before = text::texts(display@);
        assert(0 <= shown[j as int] < n);
        let p = lex_paths[row[j]].clone();
        display.push(p);
        assert(text::texts(display@) == before.push(p@));
        j = j + 1;
        assert(shown.take(j as int) == shown.take(j - 1).push(shown[j - 1]));
        assert(text::texts(display@) == paths::picked(all, shown.take(j as int)));
    }
    assert(shown.take(n as int) == shown);
    let at: usize = match find_path(display.as_slice(), target_root) {
        Some(i) => i,
        None => {
            return None;
        },
    };
    if at == 0 {
        return None;
    }
    let ghost front = order::fronted(shown, at as int);
    proof {
        lemma_fronted_arrangement(shown, at as int);
    }
    let mut fixed: Vec<usize> = Vec::new();
    let mut k: usize = 0;
    while k < n
        invariant
            k <= n,
            fixed.len() == k,
        decreases n - k,
    {
        fixed.push(0);
        k = k + 1;
    }
    let mut p: usize = 0;
    while p < n
        invariant
            p <= n,
            0 < at < n,
            n == row.len() == fixed.len(),
            shown == order::row_of(row@),
            front == order::fronted(shown, at as int),
            front.no_duplicates(),
            front.len() == n,
            forall|a: int| 0 <= a < n ==> 0 <= #[trigger] front[a] < n,
            forall|a: int| 0 <= a < p ==> fixed@[#[trigger] front[a]] == a,
        decreases n - p,
    {
        let from: usize = if p == 0 {
            at
        } else if p <= at {
            p - 1
        } else {
            p
        };
        assert(front[p as int] == shown[from as int]);
        let i: usize = row[from];
        assert(i == front[p as int]);
        assert forall|a: int| 0 <= a < p implies #[trigger] front[a] != i by {}
        fixed.set(i, p);
        p = p + 1;
    }
    proof {
        assert forall|i: int| 0 <= i < n implies fixed@[i] == order::positions_in(front)[i] by {
            order::lemma_row_complete(front, i);
            let a = front.index_of(i);
            assert(front[a] == i);
            assert(fixed@[front[a]] == a);
        }
        assert(fixed@ == order::positions_in(front));
    }
    Some(order::write_positions(fixed.as_slice()))
}

proof fn lemma_picked_fronted(lex_paths: Seq<Seq<char>>, shown: Seq<int>, j: int)
    requires
        0 <= j < shown.len(),
    ensures
        paths::picked(lex_paths, order::fronted(shown, j)) == order::fronted(
            paths::picked(lex_paths, shown),
            j,
        ),
{
    assert(paths::picked(lex_paths, order::fronted(shown, j)) =~= order::fronted(
        paths::picked(lex_paths, shown),
        j,
    ));
}

/// A corrected list displays the paths as they were displayed, with the target
/// root moved to the front.
pub proof fn lemma_correction_displays(
    lex_paths: Seq<Seq<char>>,
    list: Seq<char>,
    target: Seq<char>,
)
    requires
        lex_paths.len() <= usize::MAX,
    ensures
        corrected(lex_paths, list, target) matches Some(t) ==> {
            let shown = order::display(given_positions(list, lex_paths.len()));
            &&& pinned(paths::picked(lex_paths, shown), target) == Some(paths::ordered(lex_paths, t))
            &&& paths::equal(paths::ordered(lex_paths, t)[0], target)
            &&& order::positions(t) matches Some(pos) && order::is_permutation(pos)
        },
{
    let n = lex_paths.len();
    let pos = given_positions(list, n);
    if corrected(lex_paths, list, target) is Some {
        let shown = order::display(pos);
        order::lemma_by_position(pos, n);
        order::lemma_display_distinct(pos, shown, n);
        let row = paths::picked(lex_paths, shown);
        let p = is_path(row, target);
        search::lemma_first(n, p);
        let j = search::first(n, p)->0;
        let front = order::fronted(shown, j);
        lemma_fronted_arrangement(shown, j);
        lemma_picked_fronted(lex_paths, shown, j);
        order::lemma_positions_in(front);
        order::lemma_written_positions_read_back(order::positions_in(front));
    }
}

/// Where a list fits the paths, or is empty or malformed, correcting it is pinning
/// what it displays: the corrected list displays the pinned paths, and no correction
/// is made exactly where there is nothing to pin.
pub proof fn lemma_correction_is_pinning(
    lex_paths: Seq<Seq<char>>,
    list: Seq<char>,
    target: Seq<char>,
)
    requires
        lex_paths.len() <= usize::MAX,
        order::positions(list) matches Some(pos) ==> paths::fits(pos, lex_paths.len()),
    ensures
        match corrected(lex_paths, list, target) {
            Some(t) => pinned(paths::ordered(lex_paths, list), target) == Some(
                paths::ordered(lex_paths, t),
            ),
            None => pinned(paths::ordered(lex_paths, list), target) is None,
        },
{
    lemma_correction_displays(lex_paths, list, target);
    let n = lex_paths.len();
    let pos = given_positions(list, n);
    let shown = order::display(pos);
    let row = paths::picked(lex_paths, shown);
    order::lemma_by_position(pos, n);
    if order::positions(list) is None {
        assert(order::is_permutation(pos));
        order::lemma_display_of_permutation(pos);
        assert(row == lex_paths) by {
            assert forall|i: int| 0 <= i < n implies row[i] == lex_paths[i] by {
                assert(pos[i] == i);
                assert(shown[pos[i] as int] == i);
            }
        }
    }
    assert(paths::ordered(lex_paths, list) == row);
}

/// Once corrected, a list needs no further correction.
pub proof fn lemma_correction_settles(
    lex_paths: Seq<Seq<char>>,
    list: Seq<char>,
    target: Seq<char>,
)
    requires
        lex_paths.len() <= usize::MAX,
    ensures
        corrected(lex_paths, list, target) matches Some(t) ==> corrected(lex_paths, t, target) is None,
{
    lemma_correction_displays(lex_paths, list, target);
    if let Some(t) = corrected(lex_paths, list, target) {
        let n = lex_paths.len();
        let pos = given_positions(list, n);
        order::lemma_by_position(pos, n);
        let shown = order::display(pos);
        order::lemma_display_distinct(pos, shown, n);
        let row = paths::picked(lex_paths, shown);
        search::lemma_first(n, is_path(row, target));
        let j = search::first(n, is_path(row, target))->0;
        let front = order::fronted(shown, j);
        lemma_fronted_arrangement(shown, j);
        order::lemma_positions_in(front);
        order::lemma_written_positions_read_back(order::positions_in(front));
        let again = paths::picked(lex_paths, front);
        let p = is_path(again, target);
        lemma_picked_fronted(lex_paths, shown, j);
        assert(is_path(row, target)(j));
        assert(p(0));
        search::lemma_first_is(n, p, 0);
    }
}

/// Pinning keeps every path, puts the target root first, leaves the others in
/// their order, and has nothing left to do afterwards.
pub proof fn lemma_pinned(row: Seq<Seq<char>>, target: Seq<char>)
    ensures
        pinned(row, target) matches Some(out) ==> {
            let j = search::first(row.len(), is_path(row, target))->0;
            &&& 0 < j < row.len()
            &&& paths::equal(out[0], target)
            &&& out[0] == row[j]
            &&& out.skip(1) == row.remove(j)
            &&& out.to_multiset() == row.to_multiset()
            &&& pinned(out, target) is None
        },
        pinned(row, target) is None ==> (row.len() == 0 || paths::equal(row[0], target) || forall|
            i: int,
        |
            0 <= i < row.len() ==> !paths::equal(#[trigger] row[i], target)),
{
    let p = is_path(row, target);
    search::lemma_first(row.len(), p);
    if let Some(out) = pinned(row, target) {
        let j = search::first(row.len(), p)->0;
        assert(p(j));
        assert(out.skip(1) == row.remove(j));
        let q = is_path(out, target);
        assert(q(0));
        search::lemma_first_is(out.len(), q, 0);
        assert(out == row.remove(j).insert(0, row[j]));
        vstd::seq_lib::to_multiset_insert(row.remove(j), 0, row[j]);
        vstd::seq_lib::to_multiset_remove(row, j);
        vstd::seq_lib::to_multiset_contains(row, row[j]);
        assert(row.contains(row[j]));
        assert(out.to_multiset() =~= row.to_multiset());
    } else if search::first(row.len(), p) is None {
        assert forall|i: int| 0 <= i < row.len() implies !paths::equal(#[trigger] row[i], target) by {
            assert(!p(i));
        }
    } else {
        assert(p(0));
    }
}

} // verus!
