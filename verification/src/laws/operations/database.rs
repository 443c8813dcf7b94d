//! Laws of the operations on paths and on what the database holds of them.
use vstd::prelude::*;

use crate::components;
use crate::components::Part;
use crate::decimal;
use crate::laws::database;
use crate::laws::paths as path_laws;
use crate::laws::paths::{below, is_name};
use crate::laws::texts;
use crate::laws::views;
use crate::order;
use crate::paths;
use crate::pinning;
use crate::search;
use crate::text;
use crate::workspace_db;
use crate::workspace_db::{Lookup, Query, WorkspaceRecord};

verus! {

/// `parse_workspace_paths`: the paths of two texts with a newline between them are those of
/// the one and then those of the other.
pub proof fn law_parse_two(
    a: &str,
    b: &str,
    both: &str,
    x: Vec<String>,
    y: Vec<String>,
    r: Vec<String>,
)
    requires
        call_ensures(paths::parse_workspace_paths, (a,), x),
        call_ensures(paths::parse_workspace_paths, (b,), y),
        call_ensures(paths::parse_workspace_paths, (both,), r),
        both@ == a@ + seq!['\n'] + b@,
    ensures
        text::texts(r@) == text::texts(x@) + text::texts(y@),
{
    database::law_listed_concat(a@, b@);
}

/// `parse_workspace_paths`: a line is one path, with what blanks it holds, but for the
/// white space round it; a blank line is none.
pub proof fn law_parse_line(raw: &str, a: Seq<char>, s: Seq<char>, b: Seq<char>, r: Vec<String>)
    requires
        call_ensures(paths::parse_workspace_paths, (raw,), r),
        raw@ == a + s + b,
        !raw@.contains('\n'),
        texts::all_white(a),
        texts::all_white(b),
        texts::is_trimmed(s),
    ensures
        s.len() == 0 ==> r@.len() == 0,
        s.len() > 0 ==> r@.len() == 1 && r@[0]@ == s,
{
    database::law_listed_line(a, s, b);
    assert(text::texts(r@).len() == r@.len());
    if s.len() > 0 {
        assert(text::texts(r@)[0] == s);
    }
}

/// `parse_workspace_paths` takes back a newline between paths: paths that are not empty,
/// hold no newline and have no white space at their ends are read as they were written.
pub proof fn law_parse_back(row: Seq<Seq<char>>, raw: &str, r: Vec<String>)
    requires
        call_ensures(paths::parse_workspace_paths, (raw,), r),
        raw@ == text::join_with(row, '\n'),
        forall|i: int|
            0 <= i < row.len() ==> (#[trigger] row[i]).len() > 0 && !row[i].contains('\n')
                && texts::is_trimmed(row[i]),
    ensures
        text::texts(r@) == row,
{
    database::law_listed_back(row);
}

/// `normalize_path`: a name below a path stands below what the path comes to, a name with
/// `..` behind it goes, and so do `.` and a slash at the end.
pub proof fn law_normalize(
    p: &str,
    n: Seq<char>,
    q: &str,
    x: String,
    y: String,
)
    requires
        call_ensures(paths::normalize_path, (p,), x),
        call_ensures(paths::normalize_path, (q,), y),
        p@.len() > 0,
        is_name(n),
    ensures
        q@ == below(p@, n) && x@ != seq!['/'] && x@ != seq!['.'] ==> y@ == below(x@, n),
        q@ == below(p@, n) && x@ == seq!['/'] ==> y@ == seq!['/'] + n,
        q@ == below(p@, n) && x@ == seq!['.'] ==> y@ == n,
        q@ == below(below(p@, n), seq!['.', '.']) ==> y@ == x@,
        q@ == below(p@, seq!['.']) ==> y@ == x@,
        q@ == below(p@, Seq::<char>::empty()) ==> y@ == x@,
{
    path_laws::law_normal_below(p@, n);
}

/// `normalize_path` of one piece: a name, the root, `.`, `..` and nothing at all.
pub proof fn law_normalize_one(p: &str, r: String)
    requires
        call_ensures(paths::normalize_path, (p,), r),
    ensures
        is_name(p@) ==> r@ == p@,
        p@ == seq!['/'] || p@ == seq!['.'] || p@ == seq!['.', '.'] ==> r@ == p@,
        p@.len() == 0 ==> r@ == seq!['.'],
{
    if is_name(p@) {
        path_laws::law_normal_of_one(seq!['/'], p@, seq!['/']);
    } else {
        let n = seq!['n'];
        assert(n[0] != '/' && n[0] != '.');
        assert(is_name(n)) by {
            assert(!n.contains('/'));
            assert(n.len() == 1 && seq!['.', '.'].len() == 2);
            assert(seq!['.'][0] == '.');
        }
        path_laws::law_normal_of_one(seq!['/'], n, seq!['/']);
        if p@.len() == 0 {
            assert(p@ == Seq::<char>::empty());
        }
    }
}

/// `paths_equal`: the paths come to the same.
pub proof fn law_paths_equal(a: &str, b: &str, x: String, y: String, r: bool)
    requires
        call_ensures(paths::normalize_path, (a,), x),
        call_ensures(paths::normalize_path, (b,), y),
        call_ensures(paths::paths_equal, (a, b), r),
    ensures
        r <==> x@ == y@,
{
}

/// `relative_path` between absolute paths: up from the one as often as it goes on where
/// they part, and down to the other.
pub proof fn law_relative(
    base: &str,
    target: &str,
    k: Seq<Part>,
    t: Seq<Part>,
    b: Seq<Part>,
    r: String,
)
    requires
        call_ensures(paths::relative_path, (base, target), r),
        components::absolute(base@),
        components::absolute(target@),
        components::components(base@) == k + b,
        components::components(target@) == k + t,
        t.len() > 0 && b.len() > 0 ==> t[0] != b[0],
        !(b.len() > 0 && b[0] is Parent),
    ensures
        t.len() + b.len() > 0 ==> r@ == components::render(
            Seq::new(b.len(), |i: int| Part::Parent) + t,
        ),
        t.len() + b.len() == 0 ==> r@ == seq!['.'],
        paths::leads_back(base@, target@) ==> paths::normal(components::join(base@, r@))
            == paths::normal(target@),
{
    path_laws::law_way(k, t, b);
    if t.len() + b.len() == 0 {
        assert(k + t == k && k + b == k);
        assert(components::same_path(base@, target@));
        assert(r@ == components::dot());
        assert(components::dot() == seq!['.']);
    } else {
        assert(!components::same_path(base@, target@)) by {
            if k + b == k + t {
                if t.len() > 0 && b.len() > 0 {
                    assert((k + b)[k.len() as int] == b[0]);
                    assert((k + t)[k.len() as int] == t[0]);
                } else {
                    assert((k + b).len() == k.len() + b.len());
                    assert((k + t).len() == k.len() + t.len());
                }
            }
        }
    }
}

/// `reconstruct_ordered_paths`: the paths by their positions; a list that is none, or that
/// does not fit the paths, leaves them in their order.
pub proof fn law_reconstruct(paths_in: &[String], list: &str, r: Vec<String>)
    requires
        call_ensures(paths::reconstruct_ordered_paths, (paths_in, list), r),
    ensures
        ({
            let all = text::texts(paths_in@);
            let shown = text::texts(r@);
            match order::positions(list@) {
                Some(p) => {
                    &&& (p.len() != all.len() || exists|i: int|
                        0 <= i < p.len() && (#[trigger] p[i]) >= all.len()) ==> shown == all
                    &&& p.len() == all.len() && p.no_duplicates() && (forall|i: int|
                        0 <= i < p.len() ==> (#[trigger] p[i]) < p.len()) ==> forall|i: int|
                        0 <= i < p.len() ==> shown[(#[trigger] p[i]) as int] == all[i]
                },
                None => shown == all,
            }
        }),
{
    let all = text::texts(paths_in@);
    match order::positions(list@) {
        Some(p) => {
            database::law_ordered(all, list@, p);
            if p.len() == all.len() && forall|i: int| 0 <= i < p.len() ==> (#[trigger] p[i]) < p.len() {
                let row = database::law_displayed(all, p);
            }
        },
        None => {
            database::law_ordered(all, list@, Seq::empty());
        },
    }
}

/// `compute_paths_order` tells of each sorted path where it is shown: a path that is shown
/// first at a place gets that place behind those of the paths before it.
pub proof fn law_compute_order(
    shown: &[String],
    sorted: &[String],
    longer: &[String],
    p: String,
    i: int,
    x: String,
    y: String,
)
    requires
        call_ensures(paths::compute_paths_order, (shown, sorted), x),
        call_ensures(paths::compute_paths_order, (shown, longer), y),
        longer@ == sorted@.push(p),
        shown@.len() <= usize::MAX,
        0 <= i < shown@.len(),
        components::components(shown@[i]@) == components::components(p@),
        forall|k: int|
            0 <= k < i ==> components::components((#[trigger] shown@[k])@)
                != components::components(p@),
    ensures
        x@.len() > 0 ==> y@ == x@ + seq![','] + decimal::written(i),
        x@.len() == 0 ==> y@ == decimal::written(i),
{
    let s = text::texts(shown@);
    let row = paths::places(s, text::texts(sorted@));
    assert(text::texts(longer@) == text::texts(sorted@).push(p@));
    assert forall|k: int| 0 <= k < i implies components::components(#[trigger] s[k])
        != components::components(p@) by {
        assert(s[k] == shown@[k]@);
    }
    database::law_places(s, text::texts(sorted@), p@, i);
    views::law_written_positions(row, i as usize);
    if row.len() == 0 {
        assert(row == Seq::<usize>::empty());
        assert(row.push(i as usize) == seq![i as usize]);
    } else {
        order::lemma_written_positions_read_back(row);
    }
}

/// `WorkspaceRecord::ordered_paths`: each path stands where its position says; positions
/// that do not fit leave the paths in their order.
pub proof fn law_ordered_paths(record: &WorkspaceRecord, r: Vec<String>, i: int)
    requires
        call_ensures(WorkspaceRecord::ordered_paths, (record,), r),
    ensures
        ({
            let pos = record.paths_order@;
            &&& (pos.len() != record.paths@.len() || exists|k: int|
                0 <= k < pos.len() && (#[trigger] pos[k]) >= pos.len()) ==> text::texts(r@)
                == text::texts(record.paths@)
            &&& pos.len() == record.paths@.len() && pos.no_duplicates() && (forall|k: int|
                0 <= k < pos.len() ==> (#[trigger] pos[k]) < pos.len()) && 0 <= i < pos.len()
                ==> text::texts(r@)[pos[i] as int] == record.paths@[i]@
            &&& r@.len() == record.paths@.len()
        }),
{
    let pos = record.paths_order@;
    let all = text::texts(record.paths@);
    database::law_ordered(all, Seq::empty(), pos);
    assert(text::texts(r@).len() == r@.len());
    if pos.len() == all.len() && forall|k: int| 0 <= k < pos.len() ==> (#[trigger] pos[k]) < pos.len() {
        let row = database::law_displayed(all, pos);
        if pos.no_duplicates() && 0 <= i < pos.len() {
            assert(text::texts(r@)[pos[i] as int] == all[i]);
        }
    }
}

/// `record_from_row`: the columns of a row, the paths as `parse_workspace_paths` reads them
/// and the positions as they were written, where all are numbers.
pub proof fn law_record(
    id: i64,
    listed: &str,
    list: &str,
    timestamp: &str,
    read: Vec<String>,
    r: WorkspaceRecord,
)
    requires
        call_ensures(workspace_db::record_from_row, (id, listed, list, timestamp), r),
        call_ensures(paths::parse_workspace_paths, (listed,), read),
    ensures
        r.workspace_id == id,
        text::texts(r.paths@) == text::texts(read@),
        r.timestamp@ == timestamp@,
        order::positions(list@) matches Some(p) ==> r.paths_order@ == p,
        order::positions(list@) is None ==> r.paths_order@.len() == 0,
        r.workspace_file_path is None,
{
    match order::positions(list@) {
        Some(p) => {
            database::law_ordered(Seq::empty(), list@, p);
        },
        None => {
            database::law_ordered(Seq::empty(), list@, Seq::empty());
        },
    }
}

/// `correct_paths_order`: where a new order is given, the paths shown by it are those that
/// `ensure_target_root_first` makes of the paths shown before; where none is, that has
/// nothing to do either.
pub proof fn law_correct(
    lex: &[String],
    list: &str,
    target: &str,
    fixed: Option<String>,
    before: Vec<String>,
    shown: &[String],
    front: Option<Vec<String>>,
    new_list: &str,
    after: Vec<String>,
)
    requires
        call_ensures(pinning::correct_paths_order, (lex, list, target), fixed),
        call_ensures(paths::reconstruct_ordered_paths, (lex, list), before),
        call_ensures(pinning::ensure_target_root_first, (shown, target), front),
        call_ensures(paths::reconstruct_ordered_paths, (lex, new_list), after),
        shown@ == before@,
        lex@.len() <= usize::MAX,
        order::positions(list@) matches Some(p) ==> p.len() == lex@.len() && forall|i: int|
            0 <= i < p.len() ==> (#[trigger] p[i]) < p.len(),
    ensures
        fixed is Some <==> front is Some,
        fixed is Some && fixed->0@ == new_list@ ==> text::texts(after@) == text::texts(front->0@),
{
    database::law_correct(text::texts(lex@), list@, target@);
}

/// `paths_key`: the normalized paths, sorted, a line each.
pub proof fn law_paths_key(list: &[String], r: String) -> (row: Seq<Seq<char>>)
    requires
        call_ensures(workspace_db::paths_key, (list,), r),
    ensures
        r@ == text::join_with(row, '\n'),
        row.to_multiset() == text::texts(list@).map_values(
            |p: Seq<char>| paths::normal(p),
        ).to_multiset(),
        forall|i: int, j: int|
            0 <= i < j < row.len() ==> !text::text_less(#[trigger] row[j], #[trigger] row[i]),
{
    database::law_key(text::texts(list@))
}

/// The questions for a workspace: by its number where a mapping gives one, by all its
/// folders, by the first of them, and at last for the newest where roots are given.
pub proof fn law_lookups(
    id: Option<i64>,
    list: &[String],
    by_file: Vec<Lookup>,
    by_roots: Vec<Lookup>,
    key: String,
)
    requires
        call_ensures(workspace_db::lookups_for_file, (id, Some(list)), by_file),
        call_ensures(workspace_db::lookups_for_roots, (list,), by_roots),
        call_ensures(workspace_db::paths_key, (list,), key),
    ensures
        ({
            let n: int = if id is Some {
                1
            } else {
                0
            };
            let first: int = if list@.len() > 0 {
                1
            } else {
                0
            };
            &&& by_file@.len() == n + 1 + first
            &&& id matches Some(i) ==> by_file@[0]@ == Query::ById(i)
            &&& by_file@[n]@ == Query::ByPaths(key@)
            &&& first == 1 ==> by_file@[n + 1]@ == Query::ByFolder(list@[0]@)
            &&& by_roots@.len() == 2 + first
            &&& by_roots@[0]@ == Query::ByPaths(key@)
            &&& first == 1 ==> by_roots@[1]@ == Query::ByFolder(list@[0]@)
            &&& by_roots@[1 + first]@ == Query::Latest
        }),
{
    let all = text::texts(list@);
    database::law_folder_queries(all);
    let qs = workspace_db::folder_queries(all);
    let n: int = if id is Some {
        1
    } else {
        0
    };
    let a = workspace_db::queries(by_file@);
    let b = workspace_db::queries(by_roots@);
    assert(a.len() == by_file@.len() && b.len() == by_roots@.len());
    assert(a[0] == by_file@[0]@);
    assert(a[n] == by_file@[n]@ && a[n] == qs[0]);
    assert(b[0] == by_roots@[0]@ && b[0] == qs[0]);
    assert(b.last() == by_roots@[b.len() - 1]@);
    if all.len() > 0 {
        assert(all[0] == list@[0]@);
        assert(a[n + 1] == by_file@[n + 1]@ && a[n + 1] == qs[1]);
        assert(b[1] == by_roots@[1]@ && b[1] == qs[1]);
    }
}

/// `default_db_path`: the first place that exists, or that there is none.
pub proof fn law_default_db_path(
    dir: &str,
    places: &[String],
    there: &[bool],
    r: Result<String, workspace_db::Error>,
    i: int,
)
    requires
        call_ensures(workspace_db::default_db_path, (dir, places, there), r),
        there@.len() == places@.len(),
    ensures
        0 <= i < places@.len() && there@[i] && (forall|k: int| 0 <= k < i ==> !#[trigger] there@[k])
            ==> r == Ok::<String, workspace_db::Error>(places@[i]),
        (forall|k: int| 0 <= k < there@.len() ==> !#[trigger] there@[k]) ==> (
        r matches Err(workspace_db::Error::NotFound(d)) && d@ == dir@),
{
    let flagged = pinning::is_flagged(there@);
    search::lemma_first(places@.len(), flagged);
    if 0 <= i < places@.len() && there@[i] && forall|k: int| 0 <= k < i ==> !#[trigger] there@[k] {
        assert(flagged(i));
        assert forall|k: int| 0 <= k < i implies !#[trigger] flagged(k) by {
            assert(!there@[k]);
        }
        search::lemma_first_is(places@.len(), flagged, i);
    }
    if forall|k: int| 0 <= k < there@.len() ==> !#[trigger] there@[k] {
        if let Some(k) = search::first(places@.len(), flagged) {
            assert(flagged(k));
            assert(!there@[k]);
        }
    }
}

} // verus!
