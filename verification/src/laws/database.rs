//! Laws of what is read from Zed's database: paths, their order on display, the key of
//! a set of folders, and where the database lies.
use vstd::prelude::*;

use crate::components;
use crate::decimal;
use crate::laws::texts;
use crate::order;
use crate::paths;
use crate::pinning;
use crate::text;
use crate::workspace_db;
use crate::workspace_db::Query;

verus! {

broadcast use vstd::string::group_string_axioms;

proof fn lemma_filled_concat(a: Seq<Seq<char>>, b: Seq<Seq<char>>)
    ensures
        paths::filled(a + b) == paths::filled(a) + paths::filled(b),
    decreases b.len(),
{
    if b.len() == 0 {
        assert(a + b == a);
        assert(paths::filled(a) + paths::filled(b) == paths::filled(a));
    } else {
        assert((a + b).drop_last() == a + b.drop_last());
        assert((a + b).last() == b.last());
        lemma_filled_concat(a, b.drop_last());
        assert(paths::filled(a + b) == paths::filled(a) + paths::filled(b));
    }
}

/// The paths of two texts with a newline between them are those of the one and then
/// those of the other.
pub proof fn law_listed_concat(a: Seq<char>, b: Seq<char>)
    ensures
        paths::listed(a + seq!['\n'] + b) == paths::listed(a) + paths::listed(b),
{
    assert(a + seq!['\n'] + b == a.push('\n') + b);
    text::lemma_split_on_concat(a, b, '\n');
    lemma_filled_concat(text::split_on(a, '\n'), text::split_on(b, '\n'));
}

/// A line holds one path, which is all of it but for white space round it; a blank line
/// holds none.
pub proof fn law_listed_line(a: Seq<char>, s: Seq<char>, b: Seq<char>)
    requires
        texts::all_white(a),
        texts::all_white(b),
        texts::is_trimmed(s),
        !(a + s + b).contains('\n'),
    ensures
        paths::listed(a + s + b) == (if s.len() == 0 {
            Seq::<Seq<char>>::empty()
        } else {
            seq![s]
        }),
{
    texts::law_trim(a, s, b);
    text::lemma_split_on_single(a + s + b, '\n');
    let one = seq![a + s + b];
    assert(one.drop_last() == Seq::<Seq<char>>::empty());
    assert(paths::filled(one.drop_last()) == Seq::<Seq<char>>::empty());
    assert(Seq::<Seq<char>>::empty().push(s) == seq![s]);
}

/// Reading takes back writing: paths that are not empty, hold no newline and have no
/// white space at their ends are read back as they are from their lines.
pub proof fn law_listed_back(row: Seq<Seq<char>>)
    requires
        forall|i: int|
            0 <= i < row.len() ==> (#[trigger] row[i]).len() > 0 && !row[i].contains('\n')
                && texts::is_trimmed(row[i]),
    ensures
        paths::listed(text::join_with(row, '\n')) == row,
    decreases row.len(),
{
    let none = Seq::<char>::empty();
    if row.len() == 0 {
        assert(none + none + none == none);
        law_listed_line(none, none, none);
        assert(paths::listed(text::join_with(row, '\n')) == row);
    } else {
        let last = row[row.len() - 1];
        assert(none + last + none == last);
        law_listed_line(none, last, none);
        if row.len() == 1 {
            assert(seq![last] == row);
        } else {
            let d = row.drop_last();
            assert forall|i: int| 0 <= i < d.len() implies (#[trigger] d[i]).len() > 0
                && !d[i].contains('\n') && texts::is_trimmed(d[i]) by {
                assert(d[i] == row[i]);
            }
            law_listed_back(d);
            let front = text::join_with(d, '\n');
            assert(text::join_with(row, '\n') == front + seq!['\n'] + last);
            law_listed_concat(front, last);
            assert(d + seq![last] == row);
        }
    }
}

/// Pieces put together are taken apart at the separator, and one piece is itself.
pub proof fn law_join(row: Seq<Seq<char>>, x: Seq<char>, sep: char)
    ensures
        text::join_with(seq![x], sep) == x,
        row.len() > 0 ==> text::join_with(row.push(x), sep) == text::join_with(row, sep) + seq![sep]
            + x,
        text::join_with(Seq::<Seq<char>>::empty(), sep) == Seq::<char>::empty(),
{
    if row.len() > 0 {
        assert(row.push(x).drop_last() == row);
        assert(text::join_with(row, sep).push(sep) + x == text::join_with(row, sep) + seq![sep] + x);
    }
}

/// A list of positions is their numbers with commas between them, and reads as them,
/// with white space round each or without.
pub proof fn law_positions(list: Seq<char>, a: Seq<char>, n: usize, b: Seq<char>)
    requires
        texts::all_white(a),
        texts::all_white(b),
    ensures
        ({
            let piece = a + decimal::written(n as int) + b;
            &&& order::positions(piece) == Some(seq![n])
            &&& order::positions(list + seq![','] + piece) == (match order::positions(list) {
                Some(pos) => Some(pos.push(n)),
                None => None,
            })
        }),
{
    let w = decimal::written(n as int);
    let piece = a + w + b;
    decimal::lemma_digits_of(n as nat);
    decimal::lemma_written_reads_back(n as int);
    assert(decimal::is_digit(w[0]) && decimal::is_digit(w[w.len() - 1]));
    texts::law_trim(a, w, b);
    assert forall|i: int| 0 <= i < piece.len() implies piece[i] != ',' by {
        if i < a.len() {
            assert(text::is_white(a[i]));
        } else if i < a.len() + w.len() {
            assert(decimal::is_digit(w[i - a.len()]));
        } else {
            assert(text::is_white(b[i - a.len() - w.len()]));
        }
    }
    text::lemma_split_on_single(piece, ',');
    let one = seq![piece];
    assert(one.drop_last() == Seq::<Seq<char>>::empty());
    assert(order::numbers(one.drop_last()) == Some(Seq::<usize>::empty()));
    assert(Seq::<usize>::empty().push(n) == seq![n]);
    assert(list + seq![','] + piece == list.push(',') + piece);
    text::lemma_split_on_concat(list, piece, ',');
    let pieces = text::split_on(list, ',');
    assert((pieces + one).drop_last() == pieces);
    assert((pieces + one).last() == piece);
}

/// A list with a piece that is no number gives no positions.
pub proof fn law_no_positions(a: Seq<char>, piece: Seq<char>, b: Seq<char>)
    requires
        !piece.contains(','),
        decimal::usize_of(text::trim(piece)) is None,
    ensures
        order::positions(piece) is None,
        order::positions(a + seq![','] + piece) is None,
        order::positions(piece + seq![','] + b) is None,
        order::positions(a + seq![','] + piece + seq![','] + b) is None,
{
    text::lemma_split_on_single(piece, ',');
    assert(a + seq![','] + piece == a.push(',') + piece);
    assert(piece + seq![','] + b == piece.push(',') + b);
    assert(a + seq![','] + piece + seq![','] + b == (a + seq![','] + piece).push(',') + b);
    text::lemma_split_on_concat(a, piece, ',');
    text::lemma_split_on_concat(piece, b, ',');
    text::lemma_split_on_concat(a + seq![','] + piece, b, ',');
    let one = seq![piece];
    assert(one.drop_last() == Seq::<Seq<char>>::empty());
    assert(order::numbers(one) is None);
    let front = text::split_on(a, ',') + one;
    assert(front.last() == piece);
    assert(order::numbers(front) is None);
    lemma_stuck(one, text::split_on(b, ','));
    lemma_stuck(front, text::split_on(b, ','));
}

proof fn lemma_stuck(a: Seq<Seq<char>>, b: Seq<Seq<char>>)
    requires
        order::numbers(a) is None,
    ensures
        order::numbers(a + b) is None,
    decreases b.len(),
{
    if b.len() == 0 {
        assert(a + b == a);
    } else {
        assert((a + b).drop_last() == a + b.drop_last());
        lemma_stuck(a, b.drop_last());
    }
}

/// The paths on display are those of the workspace, each once and in the order of their
/// positions, those with the same position as they were; with a position for each path
/// of its own, each is at its position.
pub proof fn law_displayed(paths: Seq<Seq<char>>, pos: Seq<usize>) -> (row: Seq<int>)
    requires
        pos.len() == paths.len(),
        forall|i: int| 0 <= i < pos.len() ==> (#[trigger] pos[i]) < pos.len(),
    ensures
        ({
            let shown = workspace_db::displayed(paths, pos);
            &&& shown.len() == paths.len()
            &&& row.len() == paths.len() && row.no_duplicates()
            &&& forall|a: int| 0 <= a < row.len() ==> 0 <= #[trigger] row[a] < paths.len()
            &&& forall|a: int| 0 <= a < row.len() ==> #[trigger] shown[a] == paths[row[a]]
            &&& forall|a: int, b: int|
                0 <= a < b < row.len() ==> pos[#[trigger] row[a]] < pos[#[trigger] row[b]] || (
                pos[row[a]] == pos[row[b]] && row[a] < row[b])
            &&& pos.no_duplicates() ==> forall|i: int|
                0 <= i < pos.len() ==> shown[(#[trigger] pos[i]) as int] == paths[i]
        }),
{
    let row = order::display(pos);
    order::lemma_by_position(pos, pos.len());
    order::lemma_display_distinct(pos, row, pos.len());
    assert(paths::fits(pos, paths.len()));
    let shown = workspace_db::displayed(paths, pos);
    if pos.no_duplicates() {
        assert(order::is_permutation(pos));
        order::lemma_display_of_permutation(pos);
        assert forall|i: int| 0 <= i < pos.len() implies shown[(#[trigger] pos[i]) as int]
            == paths[i] by {
            assert(row[pos[i] as int] == i);
        }
    }
    assert forall|a: int, b: int| 0 <= a < b < row.len() implies pos[#[trigger] row[a]]
        < pos[#[trigger] row[b]] || (pos[row[a]] == pos[row[b]] && row[a] < row[b]) by {
        assert(order::shown_before(pos, row[a], row[b]));
    }
    row
}

/// Positions that are not one for each path, or that are too large, change nothing; and
/// paths are displayed by the positions that their list reads as.
pub proof fn law_ordered(paths: Seq<Seq<char>>, list: Seq<char>, pos: Seq<usize>)
    ensures
        (pos.len() != paths.len() || exists|i: int|
            0 <= i < pos.len() && (#[trigger] pos[i]) >= paths.len()) ==> workspace_db::displayed(
            paths,
            pos,
        ) == paths,
        order::positions(list) is None ==> paths::ordered(paths, list) == paths
            && workspace_db::stored_positions(list) == Seq::<usize>::empty(),
        order::positions(list) matches Some(p) ==> paths::ordered(paths, list)
            == workspace_db::displayed(paths, p) && workspace_db::stored_positions(list) == p,
{
}

/// The positions written for paths are those at which each is on display, in the order
/// of the paths; a path that is not on display is passed over.
pub proof fn law_places(
    shown: Seq<Seq<char>>,
    sorted: Seq<Seq<char>>,
    p: Seq<char>,
    i: int,
)
    requires
        shown.len() <= usize::MAX,
    ensures
        paths::places(shown, Seq::<Seq<char>>::empty()) == Seq::<usize>::empty(),
        0 <= i < shown.len() && components::components(shown[i]) == components::components(p) && (
        forall|k: int|
            0 <= k < i ==> components::components(#[trigger] shown[k]) != components::components(p))
            ==> paths::places(shown, sorted.push(p)) == paths::places(shown, sorted).push(
            i as usize,
        ),
        (forall|k: int|
            0 <= k < shown.len() ==> components::components(#[trigger] shown[k])
                != components::components(p)) ==> paths::places(shown, sorted.push(p))
            == paths::places(shown, sorted),
{
    assert(sorted.push(p).drop_last() == sorted);
    assert(sorted.push(p).last() == p);
    lemma_place_of(shown, p);
}

proof fn lemma_place_of(row: Seq<Seq<char>>, p: Seq<char>)
    requires
        row.len() <= usize::MAX,
    ensures
        match paths::place_of(row, p) {
            Some(i) => i < row.len() && components::components(row[i as int])
                == components::components(p) && forall|k: int|
                0 <= k < i ==> components::components(#[trigger] row[k]) != components::components(
                    p,
                ),
            None => forall|k: int|
                0 <= k < row.len() ==> components::components(#[trigger] row[k])
                    != components::components(p),
        },
    decreases row.len(),
{
    if row.len() > 0 {
        let d = row.drop_last();
        lemma_place_of(d, p);
        assert forall|k: int| 0 <= k < d.len() implies d[k] == #[trigger] row[k] by {}
    }
}

/// Correcting a list of another length than the paths gives nothing. For a list that
/// gives a position to each path, and for one that gives none, it gives nothing where
/// pinning what is displayed does, and else a list that displays what pinning gives.
pub proof fn law_correct(paths: Seq<Seq<char>>, list: Seq<char>, target: Seq<char>)
    requires
        paths.len() <= usize::MAX,
    ensures
        (order::positions(list) matches Some(p) && p.len() != paths.len()) ==> pinning::corrected(
            paths,
            list,
            target,
        ) is None,
        (order::positions(list) matches Some(p) ==> p.len() == paths.len() && forall|i: int|
            0 <= i < p.len() ==> (#[trigger] p[i]) < p.len()) ==> (match pinning::corrected(
            paths,
            list,
            target,
        ) {
            Some(fixed) => pinning::pinned(paths::ordered(paths, list), target) == Some(
                paths::ordered(paths, fixed),
            ),
            None => pinning::pinned(paths::ordered(paths, list), target) is None,
        }),
{
    if order::positions(list) matches Some(p) ==> paths::fits(p, paths.len()) {
        pinning::lemma_correction_is_pinning(paths, list, target);
    }
}

/// The key of folders is their normalized paths, one in a line, none before a smaller
/// one; each as often as the folders name it.
pub proof fn law_key(folders: Seq<Seq<char>>) -> (row: Seq<Seq<char>>)
    ensures
        workspace_db::key_of(folders) == text::join_with(row, '\n'),
        row.to_multiset() == folders.map_values(|p: Seq<char>| paths::normal(p)).to_multiset(),
        forall|i: int, j: int|
            0 <= i < j < row.len() ==> !text::text_less(#[trigger] row[j], #[trigger] row[i]),
{
    let all = folders.map_values(|p: Seq<char>| paths::normal(p));
    let row = workspace_db::sorted_texts(all);
    workspace_db::lemma_sorted_texts(all);
    assert(all == crate::workspace_file::normals(folders));
    row
}

/// A workspace is looked for by all folders and then by the first.
pub proof fn law_folder_queries(folders: Seq<Seq<char>>)
    ensures
        workspace_db::folder_queries(folders).len() == (if folders.len() > 0 {
            2int
        } else {
            1int
        }),
        workspace_db::folder_queries(folders)[0] == Query::ByPaths(workspace_db::key_of(folders)),
        folders.len() > 0 ==> workspace_db::folder_queries(folders)[1] == Query::ByFolder(folders[0]),
{
}

/// The database is looked for in the channel asked for, that of the running program, the
/// preview, the stable channel, and then in every other scope but the global one.
pub proof fn law_db_places(
    dir: Seq<char>,
    hint: Option<Seq<char>>,
    detected: Option<Seq<char>>,
    names: Seq<Seq<char>>,
)
    ensures
        ({
            let at = |scope: Seq<char>|
                components::join(components::join(dir, scope), "db.sqlite"@);
            let of = |c: Option<Seq<char>>|
                match c {
                    Some(c) => seq![at("0-"@ + c)],
                    None => Seq::<Seq<char>>::empty(),
                };
            workspace_db::db_places(dir, hint, detected, names) == of(hint) + of(detected) + seq![
                at("0-preview"@),
                at("0-stable"@),
            ] + names.filter(
                |n: Seq<char>|
                    n.len() >= 2 && n[0] == '0' && n[1] == '-' && n != "0-global"@,
            ).map_values(at)
        }),
{
    let at = |scope: Seq<char>| components::join(components::join(dir, scope), "db.sqlite"@);
    lemma_other_dbs(dir, names);
    let of = |c: Option<Seq<char>>|
        match c {
            Some(c) => seq![at("0-"@ + c)],
            None => Seq::<Seq<char>>::empty(),
        };
    assert(of(hint) == workspace_db::db_of_channel(dir, hint));
    assert(of(detected) == workspace_db::db_of_channel(dir, detected));
}

proof fn lemma_other_dbs(dir: Seq<char>, names: Seq<Seq<char>>)
    ensures
        workspace_db::other_dbs(dir, names) == names.filter(
            |n: Seq<char>| n.len() >= 2 && n[0] == '0' && n[1] == '-' && n != "0-global"@,
        ).map_values(
            |scope: Seq<char>| components::join(components::join(dir, scope), "db.sqlite"@),
        ),
    decreases names.len(),
{
    reveal(Seq::filter);
    let ok = |n: Seq<char>| n.len() >= 2 && n[0] == '0' && n[1] == '-' && n != "0-global"@;
    let at = |scope: Seq<char>| components::join(components::join(dir, scope), "db.sqlite"@);
    if names.len() > 0 {
        lemma_other_dbs(dir, names.drop_last());
        reveal_strlit("0-");
        let last = names.last();
        assert("0-"@.is_prefix_of(last) == (last.len() >= 2 && last[0] == '0' && last[1] == '-'))
            by {
            if last.len() >= 2 && last[0] == '0' && last[1] == '-' {
                assert(last.subrange(0, 2) == "0-"@);
            }
            if "0-"@.is_prefix_of(last) {
                assert(last.subrange(0, 2)[0] == '0' && last.subrange(0, 2)[1] == '-');
            }
        }
        let before = names.drop_last().filter(ok);
        assert(before.push(last).map_values(at) == before.map_values(at).push(at(last)));
    } else {
        assert(names.filter(ok).map_values(at) == Seq::<Seq<char>>::empty());
    }
}

} // verus!
