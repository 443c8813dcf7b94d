//! Laws of paths as texts: what their components are, how they are joined, normalized
//! and ordered.
use vstd::prelude::*;

use crate::components;
use crate::components::Part;
use crate::paths;
use crate::text;

verus! {

/// A text that can stand between two slashes and names a folder or a file.
pub open spec fn is_name(n: Seq<char>) -> bool {
    n.len() > 0 && !n.contains('/') && n != seq!['.'] && n != seq!['.', '.']
}

/// A path with a text behind a slash.
pub open spec fn below(p: Seq<char>, n: Seq<char>) -> Seq<char> {
    p + seq!['/'] + n
}

/// The components of a text that is empty, a slash, a name, or dots.
pub proof fn law_components_of_one(n: Seq<char>)
    requires
        is_name(n),
    ensures
        components::components(Seq::<char>::empty()) == Seq::<Part>::empty(),
        components::components(seq!['/']) == seq![Part::Root],
        components::components(n) == seq![Part::Normal(n)],
        components::components(seq!['.']) == seq![Part::Cur],
        components::components(seq!['.', '.']) == seq![Part::Parent],
{
    let none = Seq::<char>::empty();
    let rows = Seq::<Part>::empty();
    text::lemma_split_on_single(none, '/');
    text::lemma_split_on_single(n, '/');
    text::lemma_split_on_single(seq!['.'], '/');
    text::lemma_split_on_single(seq!['.', '.'], '/');
    text::lemma_split_on_concat(none, none, '/');
    assert(none.push('/') + none == seq!['/']);
    lemma_body_of_one(none);
    lemma_body_of_one(n);
    lemma_body_of_one(seq!['.']);
    lemma_body_of_one(seq!['.', '.']);
    components::lemma_body_concat(seq![none], seq![none]);
    assert(n[0] != '/');
    assert(components::dot() == seq!['.'] && components::dot_dot() == seq!['.', '.']);
    assert(seq!['.'].len() == 1 && seq!['.', '.'].len() == 2);
    assert(none.len() == 0);
    assert(rows + rows == rows);
    assert(rows + seq![Part::Normal(n)] == seq![Part::Normal(n)]);
    assert(rows + seq![Part::Parent] == seq![Part::Parent]);
    assert(seq![Part::Cur] + rows == seq![Part::Cur]);
    assert(seq![Part::Root] + rows == seq![Part::Root]);
    assert(components::components(none) == rows);
}

proof fn lemma_body_of_one(s: Seq<char>)
    ensures
        components::body(seq![s]) == (if s.len() == 0 || s == seq!['.'] {
            Seq::<Part>::empty()
        } else if s == seq!['.', '.'] {
            seq![Part::Parent]
        } else {
            seq![Part::Normal(s)]
        }),
{
    let one = seq![s];
    let none = Seq::<Part>::empty();
    assert(one.drop_last() == Seq::<Seq<char>>::empty());
    assert(components::body(one.drop_last()) == none);
    assert(one.last() == s);
    assert(components::dot() == seq!['.'] && components::dot_dot() == seq!['.', '.']);
    assert(none.push(Part::Parent) == seq![Part::Parent]);
    assert(none.push(Part::Normal(s)) == seq![Part::Normal(s)]);
}

/// The components of a path with something behind a slash: those of the path, and a name
/// or a pair of dots behind them; nothing and a dot add none.
pub proof fn law_components_below(p: Seq<char>, n: Seq<char>)
    requires
        p.len() > 0,
        is_name(n),
    ensures
        components::components(below(p, n)) == components::components(p).push(Part::Normal(n)),
        components::components(below(p, seq!['.', '.'])) == components::components(p).push(
            Part::Parent,
        ),
        components::components(below(p, seq!['.'])) == components::components(p),
        components::components(below(p, Seq::<char>::empty())) == components::components(p),
{
    lemma_below(p, n);
    lemma_below(p, seq!['.', '.']);
    lemma_below(p, seq!['.']);
    lemma_below(p, Seq::<char>::empty());
    let c = components::components(p);
    assert(seq!['.'].len() == 1 && seq!['.', '.'].len() == 2);
    assert(c + seq![Part::Normal(n)] == c.push(Part::Normal(n)));
    assert(c + seq![Part::Parent] == c.push(Part::Parent));
    assert(c + Seq::<Part>::empty() == c);
}

proof fn lemma_below(p: Seq<char>, x: Seq<char>)
    requires
        p.len() > 0,
        !x.contains('/'),
    ensures
        components::components(below(p, x)) == components::components(p) + components::body(seq![x]),
        components::body(seq![x]) == (if x.len() == 0 || x == seq!['.'] {
            Seq::<Part>::empty()
        } else if x == seq!['.', '.'] {
            seq![Part::Parent]
        } else {
            seq![Part::Normal(x)]
        }),
{
    let s = below(p, x);
    assert(s == p.push('/') + x);
    text::lemma_split_on_concat(p, x, '/');
    text::lemma_split_on_single(x, '/');
    text::lemma_split_on_nonempty(p, '/');
    let pieces = text::split_on(p, '/');
    components::lemma_body_concat(pieces, seq![x]);
    lemma_body_of_one(x);
    assert((pieces + seq![x])[0] == pieces[0]);
    assert(s[0] == p[0]);
    assert(components::lead(s) == components::lead(p));
    assert(components::components(s) == components::components(p) + components::body(seq![x]));
}

/// Joining: an absolute path stands for itself; another comes behind the directory, with
/// one slash between them.
pub proof fn law_join(base: Seq<char>, p: Seq<char>)
    ensures
        p.len() > 0 && p[0] == '/' ==> components::join(base, p) == p,
        (p.len() == 0 || p[0] != '/') ==> components::join(Seq::<char>::empty(), p) == p
            && components::join(base + seq!['/'], p) == base + seq!['/'] + p,
        (p.len() == 0 || p[0] != '/') && base.len() > 0 && base[base.len() - 1] != '/'
            ==> components::join(base, p) == base + seq!['/'] + p,
{
    assert((base + seq!['/']).last() == '/');
    assert(Seq::<char>::empty() + p == p);
    assert(base.push('/') + p == base + seq!['/'] + p);
}

/// The last name of a path, and the path before it.
pub proof fn law_file_name(p: Seq<char>, n: Seq<char>)
    requires
        p.len() > 0,
        is_name(n),
    ensures
        components::file_name(below(p, n)) == Some(n),
        components::file_name(below(below(p, n), Seq::<char>::empty())) == Some(n),
        components::file_name(n) == Some(n),
        components::file_name(below(p, seq!['.', '.'])) is None,
        components::file_name(seq!['/']) is None,
        components::file_name(Seq::<char>::empty()) is None,
        components::parent(below(p, n)) matches Some(d) && components::components(d)
            == components::components(p),
        components::parent(n) == Some(Seq::<char>::empty()),
        components::parent(seq!['/']) is None,
        components::parent(Seq::<char>::empty()) is None,
{
    law_components_of_one(n);
    law_components_below(p, n);
    law_components_below(below(p, n), n);
    let c = components::components(p);
    assert(c.push(Part::Normal(n)).drop_last() == c);
    components::lemma_components_proper(p);
    components::lemma_components_of_render(c);
    assert(seq![Part::Normal(n)].drop_last() == Seq::<Part>::empty());
    let none = components::render(Seq::<Part>::empty());
    assert(none == Seq::<char>::empty());
}

/// The last dot of a name parts its stem from its extension, unless it leads the name; a
/// name without a dot is all stem.
pub proof fn law_stem(a: Seq<char>, ext: Seq<char>)
    requires
        !ext.contains('.'),
    ensures
        a.len() > 0 ==> components::stem(a + seq!['.'] + ext) == a && components::extension(
            a + seq!['.'] + ext,
        ) == Some(ext),
        components::stem(seq!['.'] + ext) == seq!['.'] + ext,
        components::extension(seq!['.'] + ext) is None,
        components::stem(ext) == ext,
        components::extension(ext) is None,
{
    let s = a + seq!['.'] + ext;
    lemma_last_dot(a, ext);
    if a.len() > 0 {
        assert(s.take(a.len() as int) == a);
        assert(s.skip(a.len() as int + 1) == ext);
    }
    let none = Seq::<char>::empty();
    lemma_last_dot(none, ext);
    assert(none + seq!['.'] + ext == seq!['.'] + ext);
}

proof fn lemma_last_dot(a: Seq<char>, ext: Seq<char>)
    requires
        !ext.contains('.'),
    ensures
        components::last_dot(a + seq!['.'] + ext) == a.len(),
        components::last_dot(ext) == -1,
    decreases ext.len(),
{
    let s = a + seq!['.'] + ext;
    if ext.len() == 0 {
        assert(s.last() == '.');
        assert(s.len() == a.len() + 1);
    } else {
        assert(ext[ext.len() - 1] != '.');
        assert(s.last() == ext[ext.len() - 1]);
        assert(s.drop_last() == a + seq!['.'] + ext.drop_last());
        assert forall|i: int| 0 <= i < ext.drop_last().len() implies ext.drop_last()[i] != '.' by {
            assert(ext[i] != '.');
        }
        lemma_last_dot(a, ext.drop_last());
    }
}

/// The extension of a path's last name is replaced: the stem stays, and the path before it.
pub proof fn law_with_extension(
    p: Seq<char>,
    a: Seq<char>,
    old_ext: Seq<char>,
    ext: Seq<char>,
)
    requires
        p.len() > 0,
        a.len() > 0,
        !old_ext.contains('.'),
        is_name(a + seq!['.'] + old_ext),
        is_name(a + seq!['.'] + ext),
    ensures
        components::components(
            components::with_extension(below(p, a + seq!['.'] + old_ext), ext),
        ) == components::components(p).push(Part::Normal(a + seq!['.'] + ext)),
{
    let n = a + seq!['.'] + old_ext;
    let new = a + seq!['.'] + ext;
    law_components_below(p, n);
    law_components_below(p, new);
    law_stem(a, old_ext);
    let c = components::components(p);
    assert(c.push(Part::Normal(n)).drop_last() == c);
    assert(a.push('.') + ext == new);
    components::lemma_components_proper(below(p, new));
    components::lemma_components_of_render(c.push(Part::Normal(new)));
}

/// The text of components: the root is a slash, and slashes stand between all others.
pub proof fn law_render(c: Seq<Part>, p: Part)
    requires
        p is Parent || p is Normal,
    ensures
        ({
            let t = match p {
                Part::Normal(n) => n,
                _ => seq!['.', '.'],
            };
            &&& components::render(Seq::<Part>::empty()) == Seq::<char>::empty()
            &&& components::render(seq![Part::Root]) == seq!['/']
            &&& components::render(seq![Part::Root].push(p)) == seq!['/'] + t
            &&& components::render(seq![p]) == t
            &&& c.len() > 0 && c != seq![Part::Root] ==> components::render(c.push(p)) == below(
                components::render(c),
                t,
            )
        }),
{
    let none = Seq::<Part>::empty();
    let t = components::part_text(p);
    assert(components::part_texts(none) == Seq::<Seq<char>>::empty());
    assert(seq![Part::Root].skip(1) == none);
    assert(seq!['/'] + Seq::<char>::empty() == seq!['/']);
    assert(seq![Part::Root].push(p).skip(1) == seq![p]);
    assert(components::part_texts(seq![p]) == seq![t]);
    let d = c.push(p);
    if c.len() > 0 {
        if c[0] is Root {
            assert(d.skip(1) == c.skip(1).push(p));
            if c.len() == 1 {
                assert(c == seq![Part::Root]);
            } else {
                lemma_join_push(c.skip(1), p);
                let x = text::join_with(components::part_texts(c.skip(1)), '/');
                assert(seq!['/'] + (x + seq!['/'] + t) == seq!['/'] + x + seq!['/'] + t);
            }
        } else {
            lemma_join_push(c, p);
        }
    }
}

proof fn lemma_join_push(c: Seq<Part>, p: Part)
    requires
        c.len() > 0,
    ensures
        text::join_with(components::part_texts(c.push(p)), '/') == text::join_with(
            components::part_texts(c),
            '/',
        ) + seq!['/'] + components::part_text(p),
{
    let all = components::part_texts(c.push(p));
    assert(all.drop_last() == components::part_texts(c));
    assert(all.last() == components::part_text(p));
    let x = text::join_with(components::part_texts(c), '/');
    assert(x.push('/') + components::part_text(p) == x + seq!['/'] + components::part_text(p));
}

proof fn lemma_normal_parts(p: Seq<char>, n: Seq<char>)
    requires
        p.len() > 0,
        is_name(n),
    ensures
        paths::normal_parts(below(p, n)) == paths::normal_parts(p).push(Part::Normal(n)),
        paths::normal_parts(below(p, seq!['.', '.'])) == (if paths::normal_parts(p).len() > 0
            && paths::normal_parts(p).last() is Normal {
            paths::normal_parts(p).drop_last()
        } else {
            paths::normal_parts(p).push(Part::Parent)
        }),
        paths::normal_parts(below(p, seq!['.'])) == paths::normal_parts(p),
        paths::normal_parts(below(p, Seq::<char>::empty())) == paths::normal_parts(p),
{
    law_components_below(p, n);
    let c = components::components(p);
    assert(c.push(Part::Normal(n)).drop_last() == c);
    assert(c.push(Part::Parent).drop_last() == c);
}

/// Normalizing a path with something behind a slash: a name comes behind the normalized
/// path, and a pair of dots takes the name before it back; a dot and nothing do nothing.
pub proof fn law_normal_below(p: Seq<char>, n: Seq<char>)
    requires
        p.len() > 0,
        is_name(n),
    ensures
        paths::normal(below(p, n)) == (if paths::normal(p) == seq!['/'] {
            seq!['/'] + n
        } else if paths::normal(p) == seq!['.'] {
            n
        } else {
            below(paths::normal(p), n)
        }),
        paths::normal(below(below(p, n), seq!['.', '.'])) == paths::normal(p),
        paths::normal(below(p, seq!['.'])) == paths::normal(p),
        paths::normal(below(p, Seq::<char>::empty())) == paths::normal(p),
{
    lemma_normal_parts(p, n);
    lemma_normal_parts(below(p, n), n);
    let c = paths::normal_parts(p);
    assert(c.push(Part::Normal(n)).drop_last() == c);
    assert(components::dot() == seq!['.']);
    lemma_normal_text(p);
    law_render(c, Part::Normal(n));
    if c.len() == 0 {
        assert(c.push(Part::Normal(n)) == seq![Part::Normal(n)]);
    }
}

/// The normalized text is a slash for the root alone, and a dot for no components alone.
proof fn lemma_normal_text(p: Seq<char>)
    ensures
        paths::normal(p) == seq!['/'] <==> paths::normal_parts(p) == seq![Part::Root],
        paths::normal(p) == seq!['.'] <==> paths::normal_parts(p).len() == 0,
{
    let c = paths::normal_parts(p);
    paths::lemma_normal_idempotent(p);
    law_render(c, Part::Parent);
    paths::lemma_normal_resolved(p);
    if c.len() > 0 {
        let r = components::render(c);
        components::lemma_components_of_render(c);
        let x = seq!['.', 'a'];
        assert forall|i: int| 0 <= i < x.len() implies x[i] != '/' by {}
        assert(x.len() == 2 && x[1] == 'a' && seq!['.', '.'][1] == '.');
        law_components_of_one(x);
        if r == seq!['.'] {
            assert(c == seq![Part::Cur]);
            assert(c[0] is Cur);
        }
        if r == seq!['/'] {
            assert(c == seq![Part::Root]);
        }
        assert(seq!['/'][0] != seq!['.'][0]);
    } else {
        assert(seq!['/'][0] != seq!['.'][0]);
    }
}

/// The normalized form of a text that is empty, a slash, a name, or dots; and a pair of
/// dots stays where there is no name before it to take back.
pub proof fn law_normal_of_one(p: Seq<char>, n: Seq<char>, x: Seq<char>)
    requires
        is_name(n),
        p.len() > 0,
        x.len() > 0,
    ensures
        paths::normal(Seq::<char>::empty()) == seq!['.'],
        paths::normal(seq!['.']) == seq!['.'],
        paths::normal(seq!['/']) == seq!['/'],
        paths::normal(n) == n,
        paths::normal(seq!['.', '.']) == seq!['.', '.'],
        paths::normal(p) == seq!['/'] ==> paths::normal(below(p, seq!['.', '.'])) == seq![
            '/',
            '.',
            '.',
        ],
        paths::normal(p) == seq!['.'] ==> paths::normal(below(p, seq!['.', '.'])) == seq!['.', '.'],
        paths::normal(p) == seq!['.', '.'] || paths::normal(p) == below(x, seq!['.', '.'])
            ==> paths::normal(below(p, seq!['.', '.'])) == below(paths::normal(p), seq!['.', '.']),
{
    law_components_of_one(n);
    let none = Seq::<Part>::empty();
    assert(components::dot() == seq!['.']);
    lemma_resolve_one(Part::Root);
    lemma_resolve_one(Part::Cur);
    lemma_resolve_one(Part::Parent);
    lemma_resolve_one(Part::Normal(n));
    assert(paths::resolve_onto(none, none) == none);
    law_render(none, Part::Parent);
    law_render(none, Part::Normal(n));
    lemma_normal_parts(p, n);
    lemma_normal_text(p);
    assert(none.push(Part::Parent) == seq![Part::Parent]);
    assert(seq!['/'] + seq!['.', '.'] == seq!['/', '.', '.']);
    let c = paths::normal_parts(p);
    if paths::normal(p) == seq!['.', '.'] || paths::normal(p) == below(x, seq!['.', '.']) {
        law_components_below(x, n);
        assert(seq!['.', '.'].len() == 2 && seq!['.'].len() == 1);
        assert(paths::normal(p).len() >= 2);
        paths::lemma_normal_resolved(p);
        components::lemma_components_of_render(c);
        assert(c.last() == Part::Parent);
        law_render(c, Part::Parent);
        if c == seq![Part::Root] {
            assert(c[0] == Part::Parent);
        }
    }
}

proof fn lemma_resolve_one(p: Part)
    ensures
        paths::resolve_onto(Seq::<Part>::empty(), seq![p]) == (if p is Cur {
            Seq::<Part>::empty()
        } else {
            seq![p]
        }),
{
    let none = Seq::<Part>::empty();
    assert(seq![p].drop_last() == none);
    assert(paths::resolve_onto(none, none) == none);
    assert(none.push(p) == seq![p]);
}

/// The way between two rows that share their start and part behind it: as many steps up
/// as the directory goes on, then down what the other goes on with. No way is known where
/// both go on and the directory does so with a step up.
pub proof fn law_way(k: Seq<Part>, t: Seq<Part>, b: Seq<Part>)
    requires
        t.len() > 0 && b.len() > 0 ==> t[0] != b[0],
    ensures
        paths::way(k + t, k + b) == Seq::new(b.len(), |i: int| Part::Parent) + t,
        paths::no_way(k + t, k + b) <==> t.len() > 0 && b.len() > 0 && b[0] is Parent,
{
    lemma_common(k, t, b);
    assert((k + t).skip(k.len() as int) == t);
    assert(paths::ups(b.len()) == Seq::new(b.len(), |i: int| Part::Parent));
    if b.len() > 0 {
        assert((k + b)[k.len() as int] == b[0]);
    }
}

proof fn lemma_common(k: Seq<Part>, t: Seq<Part>, b: Seq<Part>)
    requires
        t.len() > 0 && b.len() > 0 ==> t[0] != b[0],
    ensures
        paths::common(k + t, k + b) == k.len(),
    decreases k.len(),
{
    if k.len() > 0 {
        lemma_common(k.skip(1), t, b);
        assert((k + t).skip(1) == k.skip(1) + t);
        assert((k + b).skip(1) == k.skip(1) + b);
        assert((k + t)[0] == (k + b)[0]);
    } else {
        assert(k + t == t && k + b == b);
    }
}

/// Paths are ordered by the first component in which they differ, names by their texts;
/// a path comes before those below it.
pub proof fn law_path_less(p: Seq<char>, a: Seq<char>, b: Seq<char>)
    requires
        p.len() > 0,
        is_name(a),
        is_name(b),
    ensures
        a != b ==> components::path_less(below(p, a), below(p, b)) == text::text_less(a, b),
        components::path_less(p, below(p, a)),
        !components::path_less(below(p, a), p),
        text::text_less(a, b) ==> components::path_less(below(below(p, a), b), below(p, b)),
{
    law_components_below(p, a);
    law_components_below(p, b);
    law_components_below(below(p, a), b);
    let k = components::components(p);
    let (x, y) = (Part::Normal(a), Part::Normal(b));
    text::lemma_text_less(a, b);
    assert(k.push(x) == k + seq![x] && k.push(y) == k + seq![y]);
    assert(k.push(x).push(y) == k + seq![x, y]);
    law_parts_less(k, seq![x], seq![y]);
    law_parts_less(k, seq![x, y], seq![y]);
}

/// Rows of components are ordered by the first in which they differ: a root before a dot,
/// a dot before a pair of dots, that before names, names by their texts.
pub proof fn law_parts_less(k: Seq<Part>, x: Seq<Part>, y: Seq<Part>)
    ensures
        x.len() > 0 && y.len() > 0 && x[0] != y[0] ==> components::parts_less(k + x, k + y) == (
        match (x[0], y[0]) {
            (Part::Normal(a), Part::Normal(b)) => text::text_less(a, b),
            (Part::Root, _) => true,
            (_, Part::Root) => false,
            (Part::Cur, _) => true,
            (_, Part::Cur) => false,
            (Part::Parent, _) => true,
            (_, Part::Parent) => false,
        }),
        x.len() > 0 ==> components::parts_less(k, k + x) && !components::parts_less(k + x, k),
    decreases k.len(),
{
    if k.len() > 0 {
        law_parts_less(k.skip(1), x, y);
        assert((k + x).skip(1) == k.skip(1) + x);
        assert((k + y).skip(1) == k.skip(1) + y);
        assert((k + x)[0] == k[0] && (k + y)[0] == k[0]);
        if let Part::Normal(a) = k[0] {
            text::lemma_text_less(a, a);
        }
    } else {
        assert(k + x == x && k + y == y);
    }
}

} // verus!
