//! Laws of texts and numbers.
use vstd::prelude::*;

use crate::decimal;
use crate::text;

verus! {

/// All characters are white space.
pub open spec fn all_white(s: Seq<char>) -> bool {
    forall|i: int| 0 <= i < s.len() ==> text::is_white(#[trigger] s[i])
}

/// The text is empty, or has no white space at either end.
pub open spec fn is_trimmed(s: Seq<char>) -> bool {
    s.len() > 0 ==> !text::is_white(s[0]) && !text::is_white(s[s.len() - 1])
}

/// These characters are the white ones, and no others.
pub proof fn law_white(c: char)
    ensures
        text::is_white(c) <==> (c == '\t' || c == '\n' || c == '\u{b}' || c == '\u{c}' || c == '\r'
            || c == ' ' || c == '\u{85}' || c == '\u{a0}' || c == '\u{1680}' || ('\u{2000}' <= c
            <= '\u{200a}') || c == '\u{2028}' || c == '\u{2029}' || c == '\u{202f}' || c
            == '\u{205f}' || c == '\u{3000}'),
{
}

/// White space in front of a text that does not start with any is what trimming its
/// start takes away, and all of it.
pub proof fn law_trim_start(a: Seq<char>, s: Seq<char>)
    requires
        all_white(a),
        s.len() > 0 ==> !text::is_white(s[0]),
    ensures
        text::trim_start(a + s) == s,
    decreases a.len(),
{
    if a.len() == 0 {
        assert(a + s == s);
    } else {
        assert((a + s)[0] == a[0]);
        assert((a + s).skip(1) == a.skip(1) + s);
        assert forall|i: int| 0 <= i < a.skip(1).len() implies text::is_white(
            #[trigger] a.skip(1)[i],
        ) by {
            assert(a.skip(1)[i] == a[i + 1]);
        }
        law_trim_start(a.skip(1), s);
    }
}

proof fn lemma_trim_end(s: Seq<char>, b: Seq<char>)
    requires
        all_white(b),
        s.len() > 0 ==> !text::is_white(s[s.len() - 1]),
    ensures
        text::trim_end(s + b) == s,
    decreases b.len(),
{
    if b.len() == 0 {
        assert(s + b == s);
    } else {
        assert((s + b).last() == b[b.len() - 1]);
        assert((s + b).drop_last() == s + b.drop_last());
        assert forall|i: int| 0 <= i < b.drop_last().len() implies text::is_white(
            #[trigger] b.drop_last()[i],
        ) by {
            assert(b.drop_last()[i] == b[i]);
        }
        lemma_trim_end(s, b.drop_last());
    }
}

/// White space round a text that has none at its ends is what trimming takes away,
/// and all of it; what stands between is kept, white space included.
pub proof fn law_trim(a: Seq<char>, s: Seq<char>, b: Seq<char>)
    requires
        all_white(a),
        all_white(b),
        is_trimmed(s),
    ensures
        text::trim(a + s + b) == s,
{
    if s.len() == 0 {
        let all = a + s + b;
        let none = Seq::<char>::empty();
        assert(all + none == all);
        assert forall|i: int| 0 <= i < all.len() implies text::is_white(#[trigger] all[i]) by {
            if i < a.len() {
                assert(all[i] == a[i]);
            } else {
                assert(all[i] == b[i - a.len()]);
            }
        }
        law_trim_start(all, none);
        assert(text::trim_end(none) == none);
        assert(s == none);
    } else {
        assert(a + s + b == a + (s + b));
        assert((s + b)[0] == s[0]);
        law_trim_start(a, s + b);
        lemma_trim_end(s, b);
    }
}

/// Every text is some white space, a trimmed text, and some white space again; the
/// trimmed text is what trimming gives.
pub proof fn law_trim_splits(t: Seq<char>) -> (r: (Seq<char>, Seq<char>))
    ensures
        all_white(r.0),
        all_white(r.1),
        is_trimmed(text::trim(t)),
        t == r.0 + text::trim(t) + r.1,
    decreases t.len(),
{
    if t.len() == 0 {
        (t, t)
    } else if text::is_white(t[0]) {
        let (a, b) = law_trim_splits(t.skip(1));
        let front = seq![t[0]] + a;
        assert forall|i: int| 0 <= i < front.len() implies text::is_white(#[trigger] front[i]) by {
            if i > 0 {
                assert(front[i] == a[i - 1]);
            }
        }
        assert(t == seq![t[0]] + t.skip(1));
        assert(t == front + text::trim(t) + b);
        (front, b)
    } else {
        let b = lemma_end_splits(t);
        let none = Seq::<char>::empty();
        assert(text::trim_start(t) == t);
        let s = text::trim(t);
        assert(t == s + b);
        if s.len() == 0 {
            assert(t[0] == b[0]);
        }
        assert(s[0] == t[0]);
        assert(t == none + s + b);
        (none, b)
    }
}

proof fn lemma_end_splits(t: Seq<char>) -> (b: Seq<char>)
    ensures
        all_white(b),
        t == text::trim_end(t) + b,
        text::trim_end(t).len() > 0 ==> !text::is_white(text::trim_end(t).last()),
    decreases t.len(),
{
    if t.len() > 0 && text::is_white(t.last()) {
        let b = lemma_end_splits(t.drop_last());
        let back = b.push(t.last());
        assert forall|i: int| 0 <= i < back.len() implies text::is_white(#[trigger] back[i]) by {
            if i < b.len() {
                assert(back[i] == b[i]);
            }
        }
        assert(t == t.drop_last().push(t.last()));
        assert(t == text::trim_end(t) + back);
        back
    } else {
        let b = Seq::<char>::empty();
        assert(t + b == t);
        b
    }
}

/// The lines of a text are its first line, without a carriage return at its end,
/// and the lines behind it; a text without newline is its own line, unless it is
/// empty.
pub proof fn law_lines(l: Seq<char>, rest: Seq<char>)
    requires
        !l.contains('\n'),
    ensures
        text::lines(l.push('\n') + rest) == seq![
            if l.len() > 0 && l.last() == '\r' {
                l.drop_last()
            } else {
                l
            },
        ] + text::lines(rest),
        text::lines(l) == (if l.len() == 0 {
            Seq::<Seq<char>>::empty()
        } else {
            seq![l]
        }),
{
    text::lemma_split_on_single(l, '\n');
    text::lemma_split_on_concat(l, rest, '\n');
    text::lemma_split_on_nonempty(rest, '\n');
    let one = seq![l];
    let tail = text::split_on(rest, '\n');
    let all = text::split_on(l.push('\n') + rest, '\n');
    assert(all == one + tail);
    assert(all.last() == tail.last());
    assert(all.drop_last() == one + tail.drop_last());
    let f = |x: Seq<char>| text::without_return(x);
    assert(all.drop_last().map_values(f) == seq![text::without_return(l)]
        + tail.drop_last().map_values(f));
    assert(one.drop_last().map_values(f) == Seq::<Seq<char>>::empty());
    assert(text::lines(l.push('\n') + rest) == seq![text::without_return(l)] + text::lines(rest));
    assert(one.last() == l);
    assert(Seq::<Seq<char>>::empty().push(l) == seq![l]);
}

/// A text occurs in another exactly where that one has it between two others.
pub proof fn law_occurs(a: Seq<char>, pat: Seq<char>, b: Seq<char>)
    ensures
        text::occurs_in(pat, a + pat + b),
{
    let s = a + pat + b;
    assert(s.subrange(a.len() as int, (a.len() + pat.len()) as int) == pat);
    assert(text::occurs_at(pat, s, a.len() as int));
}

pub proof fn law_occurrence(pat: Seq<char>, s: Seq<char>) -> (r: (Seq<char>, Seq<char>))
    requires
        text::occurs_in(pat, s),
    ensures
        s == r.0 + pat + r.1,
{
    let i = choose|i: int| text::occurs_at(pat, s, i);
    let a = s.take(i);
    let b = s.skip(i + pat.len());
    assert(s.subrange(i, i + pat.len()) == pat);
    assert(s == a + s.subrange(i, i + pat.len()) + b);
    (a, b)
}

/// Of two texts, the smaller character behind what they share decides; a text comes
/// before those that go on behind it.
pub proof fn law_text_less(p: Seq<char>, x: Seq<char>, y: Seq<char>)
    ensures
        x.len() > 0 && y.len() > 0 && x[0] != y[0] ==> text::text_less(p + x, p + y) == (x[0]
            < y[0]),
        x.len() > 0 ==> text::text_less(p, p + x) && !text::text_less(p + x, p),
        !text::text_less(p, p),
    decreases p.len(),
{
    if p.len() == 0 {
        assert(p + x == x);
        assert(p + y == y);
    } else {
        law_text_less(p.skip(1), x, y);
        assert((p + x)[0] == p[0] && (p + y)[0] == p[0]);
        assert((p + x).skip(1) == p.skip(1) + x);
        assert((p + y).skip(1) == p.skip(1) + y);
    }
}

/// A number is written in digits to the base of ten, the last of which stands for
/// what is left over by ten.
pub proof fn law_written(n: nat, d: int)
    requires
        0 <= d <= 9,
    ensures
        decimal::written(d) == seq![('0' as int + d) as char],
        n > 0 ==> decimal::written(10 * n + d) == decimal::written(n as int).push(
            ('0' as int + d) as char,
        ),
        n > 0 ==> decimal::written(-(n as int)) == seq!['-'] + decimal::written(n as int),
{
    if n > 0 {
        let m = (10 * n + d) as nat;
        assert(m / 10 == n && m % 10 == d);
    }
}

/// What is read as a number: the digits of it, with any number of zeros in front and
/// an optional sign before them. Nothing else is.
pub proof fn law_read_number(s: Seq<char>, z: nat, n: nat)
    ensures
        ({
            let zeros = Seq::new(z, |i: int| '0');
            let d = zeros + decimal::written(n as int);
            &&& decimal::unsigned_value(d) == Some(n)
            &&& decimal::unsigned_value(seq!['+'] + d) == Some(n)
            &&& decimal::signed_value(d) == Some(n as int)
            &&& decimal::signed_value(seq!['+'] + d) == Some(n as int)
            &&& decimal::signed_value(seq!['-'] + d) == Some(-(n as int))
        }),
        (exists|i: int| 0 < i < s.len() && !('0' <= #[trigger] s[i] <= '9')) ==> decimal::signed_value(
            s,
        ) is None && decimal::unsigned_value(s) is None,
        s.len() == 0 ==> decimal::signed_value(s) is None && decimal::unsigned_value(s) is None,
        s.len() == 1 && !('0' <= s[0] <= '9') ==> decimal::signed_value(s) is None
            && decimal::unsigned_value(s) is None,
        s.len() > 0 && s[0] == '-' ==> decimal::unsigned_value(s) is None,
        s.len() > 0 && !('0' <= s[0] <= '9') && s[0] != '+' && s[0] != '-' ==> decimal::signed_value(
            s,
        ) is None && decimal::unsigned_value(s) is None,
{
    let zeros = Seq::new(z, |i: int| '0');
    let w = decimal::written(n as int);
    let d = zeros + w;
    decimal::lemma_digits_of(n);
    lemma_zeros(z, w);
    assert forall|i: int| 0 <= i < d.len() implies decimal::is_digit(#[trigger] d[i]) by {
        if i >= z {
            assert(d[i] == w[i - z]);
        }
    }
    assert((seq!['+'] + d).skip(1) == d);
    assert((seq!['-'] + d).skip(1) == d);
    if exists|i: int| 0 < i < s.len() && !('0' <= #[trigger] s[i] <= '9') {
        let i = choose|i: int| 0 < i < s.len() && !('0' <= #[trigger] s[i] <= '9');
        assert(s.skip(1)[i - 1] == s[i]);
    }
}

proof fn lemma_zeros(z: nat, w: Seq<char>)
    requires
        decimal::all_digits(w),
    ensures
        decimal::digits_value(Seq::new(z, |i: int| '0') + w) == decimal::digits_value(w),
    decreases w.len(), z,
{
    let zeros = Seq::new(z, |i: int| '0');
    let all = zeros + w;
    if w.len() > 0 {
        assert(all.drop_last() == zeros + w.drop_last());
        assert(all.last() == w.last());
        assert(decimal::all_digits(w.drop_last())) by {
            assert forall|i: int| 0 <= i < w.drop_last().len() implies decimal::is_digit(
                #[trigger] w.drop_last()[i],
            ) by {
                assert(w.drop_last()[i] == w[i]);
            }
        }
        lemma_zeros(z, w.drop_last());
    } else if z > 0 {
        let fewer = Seq::new((z - 1) as nat, |i: int| '0');
        assert(all.drop_last() == fewer + w);
        lemma_zeros((z - 1) as nat, w);
    } else {
        assert(all.len() == 0);
    }
}

/// A number that does not fit is none, and one that fits is itself.
pub proof fn law_read_bounds(s: Seq<char>)
    ensures
        decimal::usize_of(s) matches Some(n) ==> decimal::unsigned_value(s) == Some(n as nat),
        decimal::unsigned_value(s) matches Some(n) && n <= usize::MAX ==> decimal::usize_of(s)
            is Some,
        decimal::u64_of(s) matches Some(n) ==> decimal::unsigned_value(s) == Some(n as nat),
        decimal::unsigned_value(s) matches Some(n) && n <= u64::MAX ==> decimal::u64_of(s) is Some,
        decimal::u32_of(s) matches Some(n) ==> decimal::unsigned_value(s) == Some(n as nat),
        decimal::unsigned_value(s) matches Some(n) && n <= u32::MAX ==> decimal::u32_of(s) is Some,
        decimal::i64_of(s) matches Some(n) ==> decimal::signed_value(s) == Some(n as int),
        decimal::signed_value(s) matches Some(n) && i64::MIN <= n <= i64::MAX ==> decimal::i64_of(s)
            is Some,
{
}

} // verus!
