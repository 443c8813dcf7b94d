//! Lists of display positions: reading them, sorting by them, writing them.
use vstd::prelude::*;

use crate::decimal;
use crate::text;

verus! {

broadcast use vstd::string::group_string_axioms;

/// The numbers that the given pieces are, in order; none where a piece is no number.
pub open spec fn numbers(pieces: Seq<Seq<char>>) -> Option<Seq<usize>>
    decreases pieces.len(),
{
    if pieces.len() == 0 {
        Some(Seq::<usize>::empty())
    } else {
        match (numbers(pieces.drop_last()), decimal::usize_of(text::trim(pieces.last()))) {
            (Some(before), Some(n)) => Some(before.push(n)),
            _ => None,
        }
    }
}

/// The positions that a comma-separated list holds; none where it is malformed,
/// as it is where a piece of it is no number. An empty list is malformed.
pub open spec fn positions(list: Seq<char>) -> Option<Seq<usize>> {
    numbers(text::split_on(list, ','))
}

pub open spec fn written_pieces(order: Seq<usize>) -> Seq<Seq<char>> {
    order.map_values(|n: usize| decimal::written(n as int))
}

/// The list of positions as it is written.
pub open spec fn written_positions(order: Seq<usize>) -> Seq<char> {
    text::join_with(written_pieces(order), ',')
}

/// Puts index `i` into a row sorted by position, behind all that do not come later.
pub open spec fn place(order: Seq<usize>, row: Seq<int>, i: int) -> Seq<int>
    decreases row.len(),
{
    if row.len() > 0 && order[row.last()] > order[i] {
        place(order, row.drop_last(), i).push(row.last())
    } else {
        row.push(i)
    }
}

/// The first `n` indices sorted by position, those with the same position in
/// the order of the indices.
pub open spec fn by_position(order: Seq<usize>, n: nat) -> Seq<int>
    decreases n,
{
    if n == 0 {
        Seq::<int>::empty()
    } else {
        place(order, by_position(order, (n - 1) as nat), n - 1)
    }
}

/// The indices in the order in which they are displayed.
pub open spec fn display(order: Seq<usize>) -> Seq<int> {
    by_position(order, order.len())
}

/// Index `i` is displayed before index `j`.
pub open spec fn shown_before(order: Seq<usize>, i: int, j: int) -> bool {
    order[i] < order[j] || (order[i] == order[j] && i < j)
}

/// The row holds each of the first `n` indices once, in the order of display.
pub open spec fn is_display(order: Seq<usize>, row: Seq<int>, n: nat) -> bool {
    &&& row.len() == n
    &&& forall|a: int| 0 <= a < n ==> 0 <= #[trigger] row[a] < n
    &&& forall|a: int, b: int|
        0 <= a < b < n ==> shown_before(order, #[trigger] row[a], #[trigger] row[b])
}

/// The list gives every index its own position below the number of indices.
pub open spec fn is_permutation(order: Seq<usize>) -> bool {
    &&& forall|i: int| 0 <= i < order.len() ==> (#[trigger] order[i]) < order.len()
    &&& forall|i: int, j: int|
        0 <= i < j < order.len() ==> #[trigger] order[i] != #[trigger] order[j]
}

/// The positions at which the indices stand in a row.
pub open spec fn positions_in(row: Seq<int>) -> Seq<usize> {
    Seq::new(row.len(), |i: int| row.index_of(i) as usize)
}

/// The row with the entry at `j` moved to the front.
pub open spec fn fronted<A>(row: Seq<A>, j: int) -> Seq<A> {
    seq![row[j]] + row.remove(j)
}

proof fn lemma_place(order: Seq<usize>, row: Seq<int>, n: nat)
    requires
        is_display(order, row, n),
    ensures
        is_display(order, place(order, row, n as int), n + 1),
{
    lemma_place_prefix(order, row, n as int);
    let j = choose|j: int| place_at(order, row, n as int, j);
    let out = place(order, row, n as int);
    assert(out == row.insert(j, n as int));
    assert forall|a: int, b: int| 0 <= a < b < n + 1 implies shown_before(
        order,
        #[trigger] out[a],
        #[trigger] out[b],
    ) by {
        if b < j {
            assert(shown_before(order, row[a], row[b]));
        } else if a < j && b == j {
            if a < j - 1 {
                assert(shown_before(order, row[a], row[j - 1]));
            }
        } else if a < j {
            assert(shown_before(order, row[a], row[b - 1]));
        } else if a == j {
            if b - 1 > j {
                assert(shown_before(order, row[j], row[b - 1]));
            }
        } else {
            assert(shown_before(order, row[a - 1], row[b - 1]));
        }
    }
    assert forall|a: int| 0 <= a < n + 1 implies 0 <= #[trigger] out[a] < n + 1 by {
        if a < j {
            assert(out[a] == row[a]);
        } else if a > j {
            assert(out[a] == row[a - 1]);
        }
    }
}

/// Index `i` goes into the row at `j`.
spec fn place_at(order: Seq<usize>, row: Seq<int>, i: int, j: int) -> bool {
    &&& 0 <= j <= row.len()
    &&& j > 0 ==> order[row[j - 1]] <= order[i]
    &&& j < row.len() ==> order[row[j]] > order[i]
    &&& forall|k: int| j <= k < row.len() ==> order[#[trigger] row[k]] > order[i]
    &&& place(order, row, i) == row.insert(j, i)
}

proof fn lemma_place_prefix(order: Seq<usize>, row: Seq<int>, i: int)
    ensures
        exists|j: int| place_at(order, row, i, j),
    decreases row.len(),
{
    if row.len() > 0 && order[row.last()] > order[i] {
        let d = row.drop_last();
        lemma_place_prefix(order, d, i);
        let j = choose|j: int| place_at(order, d, i, j);
        assert(d.insert(j, i).push(row.last()) == row.insert(j, i));
        assert forall|k: int| j <= k < row.len() implies order[#[trigger] row[k]] > order[i] by {
            if k < d.len() {
                assert(d[k] == row[k]);
            }
        }
        assert(place_at(order, row, i, j));
    } else {
        assert(row.push(i) == row.insert(row.len() as int, i));
        assert(place_at(order, row, i, row.len() as int));
    }
}

/// Sorting by position holds each index once, in the order of display.
pub proof fn lemma_by_position(order: Seq<usize>, n: nat)
    ensures
        is_display(order, by_position(order, n), n),
    decreases n,
{
    if n > 0 {
        lemma_by_position(order, (n - 1) as nat);
        lemma_place(order, by_position(order, (n - 1) as nat), (n - 1) as nat);
    }
}

/// No index stands twice in a displayed row.
pub proof fn lemma_display_distinct(order: Seq<usize>, row: Seq<int>, n: nat)
    requires
        is_display(order, row, n),
    ensures
        row.no_duplicates(),
{
    assert forall|a: int, b: int| 0 <= a < row.len() && 0 <= b < row.len() && a != b implies row[a]
        != row[b] by {
        if a < b {
            assert(shown_before(order, row[a], row[b]));
        } else {
            assert(shown_before(order, row[b], row[a]));
        }
    }
}

/// A row without repetition of `n` indices below `n` holds each of them.
pub proof fn lemma_row_complete(row: Seq<int>, i: int)
    requires
        row.no_duplicates(),
        forall|a: int| 0 <= a < row.len() ==> 0 <= #[trigger] row[a] < row.len(),
        0 <= i < row.len(),
    ensures
        row.contains(i),
{
    if !row.contains(i) {
        let n = row.len() as int;
        let held = row.to_set();
        let all = vstd::set_lib::set_int_range(0, n);
        vstd::set_lib::lemma_int_range(0, n);
        row.unique_seq_to_set();
        assert forall|x: int| held.contains(x) implies all.remove(i).contains(x) by {
            let a = choose|a: int| 0 <= a < row.len() && row[a] == x;
            assert(0 <= row[a] < row.len());
        }
        vstd::set_lib::lemma_len_subset(held, all.remove(i));
    }
}

/// For a permutation, the index with position `p` is displayed at `p`.
pub proof fn lemma_display_of_permutation(order: Seq<usize>)
    requires
        is_permutation(order),
    ensures
        forall|i: int|
            0 <= i < order.len() ==> display(order)[(#[trigger] order[i]) as int] == i,
        forall|p: int|
            0 <= p < order.len() ==> order[#[trigger] display(order)[p]] == p,
{
    let n = order.len();
    let row = display(order);
    lemma_by_position(order, n);
    assert forall|p: int| 0 <= p < n implies order[#[trigger] row[p]] == p by {
        lemma_rising_low(order, row, p);
        lemma_rising_high(order, row, p);
    }
    assert forall|i: int| 0 <= i < n implies row[(#[trigger] order[i]) as int] == i by {
        let p = order[i] as int;
        let j = row[p];
        assert(order[j] == p);
        if j < i {
            assert(order[j] != order[i]);
        } else if i < j {
            assert(order[i] != order[j]);
        }
    }
}

proof fn lemma_rising_low(order: Seq<usize>, row: Seq<int>, p: int)
    requires
        is_permutation(order),
        is_display(order, row, order.len()),
        0 <= p < row.len(),
    ensures
        order[row[p]] >= p,
    decreases p,
{
    if p > 0 {
        lemma_rising_low(order, row, p - 1);
        assert(shown_before(order, row[p - 1], row[p]));
        let (a, b) = (row[p - 1], row[p]);
        if a < b {
            assert(order[a] != order[b]);
        } else if b < a {
            assert(order[b] != order[a]);
        }
    }
}

proof fn lemma_rising_high(order: Seq<usize>, row: Seq<int>, p: int)
    requires
        is_permutation(order),
        is_display(order, row, order.len()),
        0 <= p < row.len(),
    ensures
        order[row[p]] <= p,
    decreases row.len() - p,
{
    if p < row.len() - 1 {
        lemma_rising_high(order, row, p + 1);
        assert(shown_before(order, row[p], row[p + 1]));
        let (a, b) = (row[p], row[p + 1]);
        if a < b {
            assert(order[a] != order[b]);
        } else if b < a {
            assert(order[b] != order[a]);
        }
    } else {
        assert(0 <= row[p] < order.len());
        assert(order[row[p]] < order.len());
    }
}

/// The positions at which a row holds its indices display as that row.
pub proof fn lemma_positions_in(row: Seq<int>)
    requires
        row.len() <= usize::MAX,
        row.no_duplicates(),
        forall|a: int| 0 <= a < row.len() ==> 0 <= #[trigger] row[a] < row.len(),
    ensures
        is_permutation(positions_in(row)),
        display(positions_in(row)) == row,
{
    let order = positions_in(row);
    assert forall|i: int| 0 <= i < row.len() implies row.contains(i) && #[trigger] order[i]
        < row.len() && row[order[i] as int] == i by {
        lemma_row_complete(row, i);
    }
    assert forall|i: int, j: int| 0 <= i < j < order.len() implies #[trigger] order[i]
        != #[trigger] order[j] by {
        assert(row[order[i] as int] == i);
        assert(row[order[j] as int] == j);
    }
    lemma_display_of_permutation(order);
    assert forall|p: int| 0 <= p < row.len() implies display(order)[p] == row[p] by {
        lemma_by_position(order, order.len());
        let i = display(order)[p];
        assert(order[i] == p);
        assert(row[order[i] as int] == i);
    }
    lemma_by_position(order, order.len());
    assert(display(order) == row);
}

/// A list of positions reads back as it was written.
pub proof fn lemma_written_positions_read_back(order: Seq<usize>)
    requires
        order.len() > 0,
    ensures
        positions(written_positions(order)) == Some(order),
        written_positions(order).len() > 0,
{
    let pieces = written_pieces(order);
    assert forall|i: int| 0 <= i < pieces.len() implies !(#[trigger] pieces[i]).contains(',')
        && text::trim(pieces[i]) == pieces[i] && pieces[i].len() > 0 by {
        decimal::lemma_digits_of(order[i] as nat);
        let d = pieces[i];
        assert(d == decimal::digits_of(order[i] as nat));
        assert(decimal::is_digit(d[0]));
        assert(decimal::is_digit(d[d.len() - 1]));
        assert(text::trim_start(d) == d);
        assert(text::trim_end(d) == d);
        assert forall|k: int| 0 <= k < d.len() implies d[k] != ',' by {
            assert(decimal::is_digit(d[k]));
        }
    }
    text::lemma_split_of_join(pieces, ',');
    lemma_numbers_of_written(order);
    if written_positions(order).len() == 0 {
        assert(written_positions(order) == Seq::<char>::empty());
        assert(text::split_on(Seq::<char>::empty(), ',') == seq![Seq::<char>::empty()]);
        assert(pieces[0].len() > 0);
    }
}

proof fn lemma_numbers_of_written(order: Seq<usize>)
    requires
        forall|i: int|
            0 <= i < order.len() ==> text::trim(
                #[trigger] written_pieces(order)[i],
            ) == written_pieces(order)[i],
    ensures
        numbers(written_pieces(order)) == Some(order),
    decreases order.len(),
{
    let pieces = written_pieces(order);
    if order.len() > 0 {
        let d = order.drop_last();
        let earlier = written_pieces(d);
        assert(pieces.drop_last() == earlier);
        assert forall|i: int| 0 <= i < d.len() implies text::trim(#[trigger] earlier[i])
            == earlier[i] by {
            assert(earlier[i] == pieces[i]);
        }
        lemma_numbers_of_written(d);
        let last = order.last();
        decimal::lemma_written_reads_back(last as int);
        assert(pieces.last() == pieces[pieces.len() - 1]);
        assert(decimal::usize_of(decimal::written(last as int)) == Some(last));
        assert(d.push(last) == order);
    }
}

/// A row of pieces with one that is no number is malformed.
proof fn lemma_no_number(pieces: Seq<Seq<char>>, i: int)
    requires
        0 <= i < pieces.len(),
        decimal::usize_of(text::trim(pieces[i])) is None,
    ensures
        numbers(pieces) is None,
    decreases pieces.len(),
{
    if i < pieces.len() - 1 {
        lemma_no_number(pieces.drop_last(), i);
    }
}

/// An empty list holds no positions.
pub proof fn lemma_empty_list()
    ensures
        positions(Seq::<char>::empty()) is None,
{
    let none = Seq::<char>::empty();
    assert(text::split_on(none, ',') == seq![none]);
    assert(text::trim(none) == none);
    lemma_no_number(seq![none], 0);
}

/// Reads a comma-separated list of positions.
pub fn parse_positions(list: &str) -> (r: Option<Vec<usize>>)
    ensures
        match positions(list@) {
            Some(p) => r matches Some(v) && v@ == p,
            None => r is None,
        },
{
    let pieces = text::split_text(list, ',');
    let ghost all = text::texts(pieces@);
    let mut r: Vec<usize> = Vec::new();
    let mut i: usize = 0;
    assert(all.take(0) == Seq::<Seq<char>>::empty());
    while i < pieces.len()
        invariant
            i <= pieces.len(),
            all == text::texts(pieces@),
            all == text::split_on(list@, ','),
            numbers(all.take(i as int)) == Some(r@),
        decreases pieces.len() - i,
    {
        proof {
            assert(all.take(i + 1).drop_last() == all.take(i as int));
            assert(all.take(i + 1).last() == pieces@[i as int]@);
        }
        let piece = text::trim_text(pieces[i].as_str());
        match decimal::parse_usize(piece.as_str()) {
            Some(n) => {
                r.push(n);
            },
            None => {
                proof {
                    lemma_no_number(all, i as int);
                }
                return None;
            },
        }
        i = i + 1;
    }
    assert(all.take(all.len() as int) == all);
    Some(r)
}

/// Writes a list of positions.
pub fn write_positions(order: &[usize]) -> (r: String)
    ensures
        r@ == written_positions(order@),
{
    let mut pieces: Vec<String> = Vec::new();
    let mut i: usize = 0;
    let ghost want = written_pieces(order@);
    while i < order.len()
        invariant
            i <= order.len(),
            want == written_pieces(order@),
            text::texts(pieces@) == want.take(i as int),
        decreases order.len() - i,
    {
        let t = decimal::write_u64(order[i] as u64);
        let ghost before = text::texts(pieces@);
        pieces.push(t);
        assert(text::texts(pieces@) == before.push(t@));
        i = i + 1;
        assert(text::texts(pieces@) == want.take(i as int));
    }
    assert(want.take(want.len() as int) == want);
    text::join_text(pieces.as_slice(), ',')
}

/// The indices held by a row of machine integers.
pub open spec fn row_of(row: Seq<usize>) -> Seq<int> {
    row.map_values(|i: usize| i as int)
}

/// Sorts the indices of a list by their positions.
pub fn sort_by_position(order: &[usize]) -> (r: Vec<usize>)
    ensures
        row_of(r@) == display(order@),
{
    let mut r: Vec<usize> = Vec::new();
    let mut n: usize = 0;
    assert(row_of(r@) == Seq::<int>::empty());
    while n < order.len()
        invariant
            n <= order.len(),
            row_of(r@) == by_position(order@, n as nat),
        decreases order.len() - n,
    {
        let ghost row = row_of(r@);
        proof {
            lemma_by_position(order@, n as nat);
        }
        let mut j: usize = r.len();
        assert(row.take(row.len() as int) == row);
        assert(place(order@, row, n as int) == place(order@, row, n as int) + row.skip(
            row.len() as int,
        ));
        while j > 0 && order[r[j - 1]] > order[n]
            invariant
                j <= r.len() == n,
                n < order.len(),
                row == row_of(r@),
                is_display(order@, row, n as nat),
                forall|a: int| 0 <= a < n ==> 0 <= #[trigger] row[a] < n,
                place(order@, row, n as int) == place(order@, row.take(j as int), n as int)
                    + row.skip(j as int),
            decreases j,
        {
            proof {
                let here = row.take(j as int);
                assert(here.last() == row[j - 1]);
                assert(here.drop_last() == row.take(j - 1));
                let smaller = place(order@, row.take(j - 1), n as int);
                assert(smaller.push(row[j - 1]) + row.skip(j as int) == smaller + row.skip(j - 1));
            }
            j = j - 1;
            proof {
                assert(j > 0 ==> 0 <= row[j - 1] < n);
            }
        }
        proof {
            let here = row.take(j as int);
            assert(place(order@, here, n as int) == here.push(n as int)) by {
                if j > 0 {
                    assert(here.last() == row[j - 1]);
                }
            }
            assert(row.insert(j as int, n as int) == here.push(n as int) + row.skip(j as int));
        }
        r.insert(j, n);
        assert(row_of(r@) == row.insert(j as int, n as int));
        n = n + 1;
    }
    r
}

} // verus!
