//! Laws of the operations on texts, numbers and the pieces of a path.
use vstd::prelude::*;

use crate::components;
use crate::components::{Component, Part};
use crate::decimal;
use crate::laws::database;
use crate::laws::paths as path_laws;
use crate::laws::paths::{below, is_name};
use crate::laws::texts;
use crate::order;
use crate::text;

verus! {

/// `trim_text` and `trim_start_chars` take off the white space round a text, or in front of
/// it, and nothing else.
pub proof fn law_trim(
    t: &str,
    r: String,
    v: &[char],
    w: &[char],
    a: Seq<char>,
    s: Seq<char>,
    b: Seq<char>,
)
    requires
        call_ensures(text::trim_text, (t,), r),
        call_ensures(text::trim_start_chars, (v,), w),
        texts::all_white(a),
        texts::all_white(b),
        texts::is_trimmed(s),
    ensures
        t@ == a + s + b ==> r@ == s,
        v@ == a + s ==> w@ == s,
{
    texts::law_trim(a, s, b);
    texts::law_trim_start(a, s);
}

/// `join_text` puts the separator between the pieces, and `split_text` takes it out again.
pub proof fn law_split(s: &str, sep: char, r: Vec<String>, pieces: &[String], j: String)
    requires
        call_ensures(text::split_text, (s, sep), r),
        pieces@ == r@,
        call_ensures(text::join_text, (pieces, sep), j),
    ensures
        j@ == s@,
        forall|i: int| 0 <= i < r@.len() ==> !(#[trigger] r@[i])@.contains(sep),
        r@.len() > 0,
{
    lemma_split_joins(s@, sep);
    let all = text::split_on(s@, sep);
    assert(text::texts(r@).len() == r@.len());
    assert forall|i: int| 0 <= i < r@.len() implies !(#[trigger] r@[i])@.contains(sep) by {
        assert(text::texts(r@)[i] == r@[i]@);
    }
}

proof fn lemma_split_joins(s: Seq<char>, sep: char)
    ensures
        text::split_on(s, sep).len() > 0,
        text::join_with(text::split_on(s, sep), sep) == s,
        forall|i: int|
            0 <= i < text::split_on(s, sep).len() ==> !(#[trigger] text::split_on(
                s,
                sep,
            )[i]).contains(sep),
    decreases s.len(),
{
    if !s.contains(sep) {
        text::lemma_split_on_single(s, sep);
        database::law_join(Seq::empty(), s, sep);
    } else {
        let at = lemma_last_of(s, sep);
        let head = s.take(at);
        let tail = s.skip(at + 1);
        lemma_split_joins(head, sep);
        assert(s == head.push(sep) + tail);
        text::lemma_split_on_concat(head, tail, sep);
        text::lemma_split_on_single(tail, sep);
        let all = text::split_on(head, sep);
        assert(text::split_on(s, sep) == all.push(tail));
        database::law_join(all, tail, sep);
        assert(head + seq![sep] + tail == s);
    }
}

proof fn lemma_last_of(s: Seq<char>, c: char) -> (at: int)
    requires
        s.contains(c),
    ensures
        0 <= at < s.len(),
        s[at] == c,
        !s.skip(at + 1).contains(c),
    decreases s.len(),
{
    let n = s.len() - 1;
    if s[n] == c {
        assert(s.skip(n + 1).len() == 0);
        n
    } else {
        let d = s.drop_last();
        assert(d.contains(c)) by {
            let i = choose|i: int| 0 <= i < s.len() && s[i] == c;
            assert(d[i] == c);
        }
        let at = lemma_last_of(d, c);
        let (rest, fewer) = (s.skip(at + 1), d.skip(at + 1));
        assert forall|i: int| 0 <= i < rest.len() implies #[trigger] rest[i] != c by {
            if at + 1 + i < n {
                assert(fewer[i] == rest[i]);
            }
        }
        at
    }
}

/// `starts_with_text`, `ends_with_text`, `contains_text` and `text_eq`.
pub proof fn law_parts_of_text(
    s: &str,
    pat: &str,
    first: bool,
    last: bool,
    within: bool,
    same: bool,
)
    requires
        call_ensures(text::starts_with_text, (s, pat), first),
        call_ensures(text::ends_with_text, (s, pat), last),
        call_ensures(text::contains_text, (s, pat), within),
        call_ensures(text::text_eq, (s, pat), same),
    ensures
        first <==> exists|x: Seq<char>| s@ == #[trigger] (pat@ + x),
        last <==> exists|x: Seq<char>| s@ == #[trigger] (x + pat@),
        within <==> exists|x: Seq<char>, y: Seq<char>| s@ == #[trigger] (x + pat@ + y),
        same <==> s@ == pat@,
{
    let (t, p) = (s@, pat@);
    if first {
        assert(t == p + t.skip(p.len() as int));
    }
    if exists|x: Seq<char>| t == #[trigger] (p + x) {
        let x = choose|x: Seq<char>| t == #[trigger] (p + x);
        assert(t.subrange(0, p.len() as int) == p);
    }
    if last {
        assert(t == t.take(t.len() - p.len()) + p);
    }
    if exists|x: Seq<char>| t == #[trigger] (x + p) {
        let x = choose|x: Seq<char>| t == #[trigger] (x + p);
        assert(t.subrange(t.len() - p.len(), t.len() as int) == p);
    }
    if within {
        let (x, y) = texts::law_occurrence(p, t);
        assert(t == x + p + y);
    }
    if exists|x: Seq<char>, y: Seq<char>| t == #[trigger] (x + p + y) {
        let (x, y) = choose|x: Seq<char>, y: Seq<char>| t == #[trigger] (x + p + y);
        texts::law_occurs(x, p, y);
    }
}

/// `parse_i64` takes back `write_i64`, and `parse_u64` takes back `write_u64`.
pub proof fn law_numbers(
    n: i64,
    w: String,
    s: &str,
    r: Option<i64>,
    m: u64,
    x: String,
    t: &str,
    q: Option<u64>,
)
    requires
        call_ensures(decimal::write_i64, (n,), w),
        s@ == w@,
        call_ensures(decimal::parse_i64, (s,), r),
        call_ensures(decimal::write_u64, (m,), x),
        t@ == x@,
        call_ensures(decimal::parse_u64, (t,), q),
    ensures
        r == Some(n),
        q == Some(m),
{
    let none = Seq::<char>::empty();
    assert(Seq::new(0, |i: int| '0') == none);
    let k: nat = if n >= 0 {
        n as nat
    } else {
        (-n) as nat
    };
    texts::law_read_number(s@, 0, k);
    texts::law_read_number(t@, 0, m as nat);
    assert(none + decimal::written(k as int) == decimal::written(k as int));
    assert(none + decimal::written(m as int) == decimal::written(m as int));
    if n < 0 {
        texts::law_written(k, 0);
    }
    texts::law_read_bounds(s@);
    texts::law_read_bounds(t@);
}

/// `parse_positions` takes back `write_positions`.
pub proof fn law_positions(row: &[usize], w: String, s: &str, r: Option<Vec<usize>>)
    requires
        call_ensures(order::write_positions, (row,), w),
        s@ == w@,
        call_ensures(order::parse_positions, (s,), r),
        row@.len() > 0,
    ensures
        r is Some && r->0@ == row@,
{
    order::lemma_written_positions_read_back(row@);
}

/// `file_name_of`, `parent_of` and `split_path` of a name below a path.
pub proof fn law_name_below(
    p: &str,
    q: &str,
    n: Seq<char>,
    name: Option<String>,
    dir: Option<String>,
    a: Vec<Component>,
    b: Vec<Component>,
)
    requires
        call_ensures(components::file_name_of, (q,), name),
        call_ensures(components::parent_of, (q,), dir),
        call_ensures(components::split_path, (p,), a),
        call_ensures(components::split_path, (q,), b),
        q@ == below(p@, n),
        p@.len() > 0,
        is_name(n),
    ensures
        name is Some && name->0@ == n,
        dir is Some && components::components(dir->0@) == components::components(p@),
        components::parts(b@) == components::parts(a@).push(Part::Normal(n)),
{
    path_laws::law_file_name(p@, n);
    path_laws::law_components_below(p@, n);
}

/// `join_path`: an absolute path stands alone, and any other comes below the base.
pub proof fn law_join_path(base: &str, p: &str, r: String)
    requires
        call_ensures(components::join_path, (base, p), r),
    ensures
        p@.len() > 0 && p@[0] == '/' ==> r@ == p@,
        (p@.len() == 0 || p@[0] != '/') && base@.len() == 0 ==> r@ == p@,
        (p@.len() == 0 || p@[0] != '/') && base@.len() > 0 && base@[base@.len() - 1] != '/' ==> r@
            == below(base@, p@),
        (p@.len() == 0 || p@[0] != '/') && base@.len() > 0 && base@[base@.len() - 1] == '/' ==> r@
            == base@ + p@,
{
    path_laws::law_join(base@, p@);
    if base@.len() == 0 {
        assert(base@ == Seq::<char>::empty());
    } else if base@[base@.len() - 1] == '/' {
        path_laws::law_join(base@.drop_last(), p@);
        assert(base@.drop_last() + seq!['/'] == base@);
    }
}

/// `stem_of` and `extension_of`: a name parts at its last dot, unless that comes first.
pub proof fn law_stem(
    name: &str,
    st: String,
    ext: Option<String>,
    a: Seq<char>,
    e: Seq<char>,
)
    requires
        call_ensures(components::stem_of, (name,), st),
        call_ensures(components::extension_of, (name,), ext),
        is_name(name@),
        !e.contains('.'),
    ensures
        name@ == a + seq!['.'] + e && a.len() > 0 ==> st@ == a && ext is Some && ext->0@ == e,
        name@ == seq!['.'] + e ==> st@ == name@ && ext is None,
        name@ == e ==> st@ == name@ && ext is None,
{
    path_laws::law_stem(a, e);
    path_laws::law_file_name(seq!['/'], name@);
}

/// `strip_prefix`: what a path has below a directory.
pub proof fn law_strip_prefix(
    path: &str,
    dir: &str,
    r: Option<String>,
    rest: Seq<Part>,
)
    requires
        call_ensures(components::strip_prefix, (path, dir), r),
    ensures
        components::components(path@) == components::components(dir@) + rest ==> r is Some && r->0@
            == components::render(rest),
        r is Some ==> exists|x: Seq<Part>|
            components::components(path@) == #[trigger] (components::components(dir@) + x),
{
    let (c, d) = (components::components(path@), components::components(dir@));
    if c == d + rest {
        assert(d.is_prefix_of(c)) by {
            assert(c.subrange(0, d.len() as int) == d);
        }
        assert(c.skip(d.len() as int) == rest);
    }
    if r is Some {
        assert(c == d + c.skip(d.len() as int));
    }
}

/// `path_lt`: names below one path go as their texts do, and a path comes before what is
/// below it.
pub proof fn law_path_lt(
    p: Seq<char>,
    a: Seq<char>,
    b: Seq<char>,
    x: &str,
    y: &str,
    r: bool,
)
    requires
        call_ensures(components::path_lt, (x, y), r),
        p.len() > 0,
        is_name(a),
        is_name(b),
        a != b,
    ensures
        x@ == below(p, a) && y@ == below(p, b) ==> r == text::text_less(a, b),
        x@ == p && y@ == below(p, a) ==> r,
        x@ == below(p, a) && y@ == p ==> !r,
{
    path_laws::law_path_less(p, a, b);
}

} // verus!
