//! Paths as text, and the components that a path is made of.
//!
//! A path is a text with `/` between its parts. Two texts name the same path
//! when they have the same components: repeated and trailing separators do not
//! count, nor does a `.` other than one that leads a relative path.
use vstd::prelude::*;
use vstd::slice::slice_subrange;

use crate::text;

verus! {

broadcast use vstd::string::group_string_axioms;

/// One component of a path.
pub enum Part {
    /// The root, which only leads an absolute path.
    Root,
    /// A leading `.`.
    Cur,
    /// A `..`.
    Parent,
    /// A name.
    Normal(Seq<char>),
}

/// A component as the program holds it.
pub enum Component {
    RootDir,
    CurDir,
    ParentDir,
    Normal(String),
}

impl View for Component {
    type V = Part;

    open spec fn view(&self) -> Part {
        match self {
            Component::RootDir => Part::Root,
            Component::CurDir => Part::Cur,
            Component::ParentDir => Part::Parent,
            Component::Normal(s) => Part::Normal(s@),
        }
    }
}

pub open spec fn parts(v: Seq<Component>) -> Seq<Part> {
    v.map_values(|c: Component| c@)
}

pub open spec fn dot() -> Seq<char> {
    seq!['.']
}

pub open spec fn dot_dot() -> Seq<char> {
    seq!['.', '.']
}

/// A piece between separators that is no component: nothing, or a `.`.
pub open spec fn is_void(piece: Seq<char>) -> bool {
    piece.len() == 0 || piece == dot()
}

/// The component that a piece between separators is.
pub open spec fn part_of(piece: Seq<char>) -> Part {
    if piece == dot_dot() {
        Part::Parent
    } else {
        Part::Normal(piece)
    }
}

/// The components that a row of pieces gives.
pub open spec fn body(pieces: Seq<Seq<char>>) -> Seq<Part>
    decreases pieces.len(),
{
    if pieces.len() == 0 {
        Seq::<Part>::empty()
    } else {
        let before = body(pieces.drop_last());
        if is_void(pieces.last()) {
            before
        } else {
            before.push(part_of(pieces.last()))
        }
    }
}

/// Whether a path starts at the root.
pub open spec fn absolute(s: Seq<char>) -> bool {
    s.len() > 0 && s[0] == '/'
}

/// What leads the components: the root of an absolute path, or the `.` that a
/// relative path starts with.
pub open spec fn lead(s: Seq<char>) -> Seq<Part> {
    if absolute(s) {
        seq![Part::Root]
    } else if text::split_on(s, '/')[0] == dot() {
        seq![Part::Cur]
    } else {
        Seq::<Part>::empty()
    }
}

/// The components of a path.
pub open spec fn components(s: Seq<char>) -> Seq<Part> {
    lead(s) + body(text::split_on(s, '/'))
}

/// Two texts that name the same path.
pub open spec fn same_path(a: Seq<char>, b: Seq<char>) -> bool {
    components(a) == components(b)
}

/// A name that a path can hold as one component.
pub open spec fn is_name(s: Seq<char>) -> bool {
    s.len() > 0 && !s.contains('/') && s != dot() && s != dot_dot()
}

/// A row of components without root and without `.`.
pub open spec fn plain(c: Seq<Part>) -> bool {
    forall|i: int|
        0 <= i < c.len() ==> match #[trigger] c[i] {
            Part::Root => false,
            Part::Cur => false,
            Part::Parent => true,
            Part::Normal(n) => is_name(n),
        }
}

/// A row of components that some path has.
pub open spec fn proper(c: Seq<Part>) -> bool {
    plain(c) || (c.len() > 0 && (c[0] is Root || c[0] is Cur) && plain(c.skip(1)))
}

/// The text of a component other than the root.
pub open spec fn part_text(p: Part) -> Seq<char> {
    match p {
        Part::Root => seq!['/'],
        Part::Cur => dot(),
        Part::Parent => dot_dot(),
        Part::Normal(n) => n,
    }
}

pub open spec fn part_texts(c: Seq<Part>) -> Seq<Seq<char>> {
    c.map_values(|p: Part| part_text(p))
}

/// The text of a path with the given components.
pub open spec fn render(c: Seq<Part>) -> Seq<char> {
    if c.len() > 0 && c[0] is Root {
        seq!['/'] + text::join_with(part_texts(c.skip(1)), '/')
    } else {
        text::join_with(part_texts(c), '/')
    }
}

/// The path `p` seen from the directory `base`.
pub open spec fn join(base: Seq<char>, p: Seq<char>) -> Seq<char> {
    if absolute(p) {
        p
    } else if base.len() > 0 && base.last() != '/' {
        base.push('/') + p
    } else {
        base + p
    }
}

/// The last component of a path, where it is a name.
pub open spec fn file_name(s: Seq<char>) -> Option<Seq<char>> {
    let c = components(s);
    if c.len() > 0 && c.last() is Normal {
        Some(c.last()->Normal_0)
    } else {
        None
    }
}

/// The path without its last component; a root and an empty path have no parent.
pub open spec fn parent(s: Seq<char>) -> Option<Seq<char>> {
    let c = components(s);
    if c.len() > 0 && c.last() !is Root {
        Some(render(c.drop_last()))
    } else {
        None
    }
}

/// The position of the last dot of a text, or -1 where it has none.
pub open spec fn last_dot(s: Seq<char>) -> int
    decreases s.len(),
{
    if s.len() == 0 {
        -1
    } else if s.last() == '.' {
        s.len() - 1
    } else {
        last_dot(s.drop_last())
    }
}

/// The part of a file name before its last dot; a leading dot does not count.
pub open spec fn stem(name: Seq<char>) -> Seq<char> {
    if last_dot(name) > 0 {
        name.take(last_dot(name))
    } else {
        name
    }
}

/// The part of a file name behind its last dot; a leading dot does not count.
pub open spec fn extension(name: Seq<char>) -> Option<Seq<char>> {
    if last_dot(name) > 0 {
        Some(name.skip(last_dot(name) + 1))
    } else {
        None
    }
}

pub open spec fn file_stem(s: Seq<char>) -> Option<Seq<char>> {
    match file_name(s) {
        Some(n) => Some(stem(n)),
        None => None,
    }
}

pub open spec fn file_extension(s: Seq<char>) -> Option<Seq<char>> {
    match file_name(s) {
        Some(n) => extension(n),
        None => None,
    }
}

/// The path with the extension of its last component replaced.
pub open spec fn with_extension(s: Seq<char>, ext: Seq<char>) -> Seq<char> {
    match file_name(s) {
        Some(n) => render(
            components(s).drop_last().push(Part::Normal(stem(n).push('.') + ext)),
        ),
        None => s,
    }
}

/// The place of a kind of component in the order of paths.
pub open spec fn rank(p: Part) -> int {
    match p {
        Part::Root => 0,
        Part::Cur => 1,
        Part::Parent => 2,
        Part::Normal(_) => 3,
    }
}

pub open spec fn part_less(a: Part, b: Part) -> bool {
    if a is Normal && b is Normal {
        text::text_less(a->Normal_0, b->Normal_0)
    } else {
        rank(a) < rank(b)
    }
}

/// Lexicographic order of paths by their components.
pub open spec fn parts_less(a: Seq<Part>, b: Seq<Part>) -> bool
    decreases a.len(),
{
    if b.len() == 0 {
        false
    } else if a.len() == 0 {
        true
    } else {
        part_less(a[0], b[0]) || (a[0] == b[0] && parts_less(a.skip(1), b.skip(1)))
    }
}

pub open spec fn path_less(a: Seq<char>, b: Seq<char>) -> bool {
    parts_less(components(a), components(b))
}

pub proof fn lemma_body_concat(p: Seq<Seq<char>>, q: Seq<Seq<char>>)
    ensures
        body(p + q) == body(p) + body(q),
    decreases q.len(),
{
    if q.len() == 0 {
        assert(p + q == p);
        assert(body(p) + body(q) == body(p));
    } else {
        assert((p + q).drop_last() == p + q.drop_last());
        lemma_body_concat(p, q.drop_last());
        assert(body(p + q) == body(p) + body(q));
    }
}

pub proof fn lemma_body_of_void(piece: Seq<char>)
    requires
        is_void(piece),
    ensures
        body(seq![piece]) == Seq::<Part>::empty(),
{
    assert(seq![piece].drop_last() == Seq::<Seq<char>>::empty());
    assert(body(seq![piece].drop_last()) == Seq::<Part>::empty());
}

pub proof fn lemma_body_plain(pieces: Seq<Seq<char>>)
    requires
        forall|i: int| 0 <= i < pieces.len() ==> !(#[trigger] pieces[i]).contains('/'),
    ensures
        plain(body(pieces)),
    decreases pieces.len(),
{
    if pieces.len() > 0 {
        assert forall|i: int| 0 <= i < pieces.drop_last().len() implies !(
        #[trigger] pieces.drop_last()[i]).contains('/') by {
            assert(!pieces[i].contains('/'));
        }
        lemma_body_plain(pieces.drop_last());
        assert(!pieces[pieces.len() - 1].contains('/'));
    }
}

/// The components of a path are a proper row of components.
pub proof fn lemma_components_proper(s: Seq<char>)
    ensures
        proper(components(s)),
        plain(body(text::split_on(s, '/'))),
{
    text::lemma_split_on_pieces(s, '/');
    lemma_body_plain(text::split_on(s, '/'));
    let b = body(text::split_on(s, '/'));
    if lead(s).len() > 0 {
        assert(components(s).skip(1) == b);
    } else {
        assert(components(s) == b);
    }
}

pub proof fn lemma_body_of_texts(c: Seq<Part>)
    requires
        plain(c),
    ensures
        body(part_texts(c)) == c,
        forall|i: int| 0 <= i < c.len() ==> !(#[trigger] part_texts(c)[i]).contains('/'),
    decreases c.len(),
{
    if c.len() > 0 {
        assert forall|i: int| 0 <= i < c.drop_last().len() implies match #[trigger] c.drop_last()[i] {
            Part::Root => false,
            Part::Cur => false,
            Part::Parent => true,
            Part::Normal(n) => is_name(n),
        } by {
            assert(c.drop_last()[i] == c[i]);
        }
        lemma_body_of_texts(c.drop_last());
        assert(part_texts(c).drop_last() == part_texts(c.drop_last()));
        let p = c[c.len() - 1];
        assert(part_texts(c).last() == part_text(p));
        assert(!is_void(part_text(p)) && part_of(part_text(p)) == p) by {
            assert(dot().len() == 1 && dot_dot().len() == 2);
        }
        assert(c.drop_last().push(p) == c);
        assert forall|i: int| 0 <= i < c.len() implies !(#[trigger] part_texts(c)[i]).contains(
            '/',
        ) by {
            if i < c.len() - 1 {
                assert(part_texts(c)[i] == part_texts(c.drop_last())[i]);
            }
        }
    }
}

/// A rendered row of components has exactly these components.
pub proof fn lemma_components_of_render(c: Seq<Part>)
    requires
        proper(c),
    ensures
        components(render(c)) == c,
{
    let s = render(c);
    if c.len() == 0 {
        assert(s == Seq::<char>::empty());
        assert(text::split_on(s, '/') == seq![Seq::<char>::empty()]);
        lemma_body_of_void(Seq::<char>::empty());
        assert(components(s) == c);
    } else if c[0] is Root {
        let rest = c.skip(1);
        let tail = text::join_with(part_texts(rest), '/');
        assert(s == Seq::<char>::empty().push('/') + tail);
        text::lemma_split_on_concat(Seq::<char>::empty(), tail, '/');
        lemma_body_concat(text::split_on(Seq::<char>::empty(), '/'), text::split_on(tail, '/'));
        let none = seq![Seq::<char>::empty()];
        assert(text::split_on(Seq::<char>::empty(), '/') == none);
        lemma_body_of_void(Seq::<char>::empty());
        if rest.len() == 0 {
            assert(tail == Seq::<char>::empty());
            assert(c == seq![Part::Root]);
        } else {
            lemma_body_of_texts(rest);
            text::lemma_split_of_join(part_texts(rest), '/');
            assert(seq![Part::Root] + rest == c);
        }
        assert(components(s) == c);
    } else {
        let pieces = part_texts(c);
        let (head, rest) = if c[0] is Cur {
            (seq![Part::Cur], c.skip(1))
        } else {
            (Seq::<Part>::empty(), c)
        };
        lemma_body_of_texts(rest);
        assert(head + rest == c);
        assert forall|i: int| 0 <= i < pieces.len() implies !(#[trigger] pieces[i]).contains(
            '/',
        ) by {
            if c[0] is Cur {
                if i > 0 {
                    assert(pieces[i] == part_texts(rest)[i - 1]);
                }
            } else {
                assert(pieces[i] == part_texts(rest)[i]);
            }
        }
        text::lemma_split_of_join(pieces, '/');
        if c[0] is Cur {
            assert(pieces == seq![dot()] + part_texts(rest));
            lemma_body_concat(seq![dot()], part_texts(rest));
            lemma_body_of_void(dot());
        }
        assert(body(text::split_on(s, '/')) == rest);
        assert(pieces[0] == part_text(c[0]));
        assert(dot().len() == 1 && dot_dot().len() == 2);
        if s.len() > 0 {
            text::lemma_split_on_first(s, '/');
        }
        assert(!absolute(s));
        assert(lead(s) == head);
    }
}

/// The components of a joined path are those of the directory followed by
/// those of the relative path, less a leading `.`.
pub proof fn lemma_components_of_join(base: Seq<char>, p: Seq<char>)
    requires
        !absolute(p),
        base.len() > 0,
    ensures
        components(join(base, p)) == components(base) + body(text::split_on(p, '/')),
{
    let all = join(base, p);
    let q = text::split_on(p, '/');
    let b = if base.last() == '/' {
        base.drop_last()
    } else {
        base
    };
    assert(all == b.push('/') + p);
    text::lemma_split_on_concat(b, p, '/');
    text::lemma_split_on_nonempty(b, '/');
    lemma_body_concat(text::split_on(b, '/'), q);
    if base.last() == '/' {
        assert(base == b.push('/') + Seq::<char>::empty());
        text::lemma_split_on_concat(b, Seq::<char>::empty(), '/');
        lemma_body_concat(text::split_on(b, '/'), text::split_on(Seq::<char>::empty(), '/'));
        lemma_body_of_void(Seq::<char>::empty());
        assert(text::split_on(Seq::<char>::empty(), '/') == seq![Seq::<char>::empty()]);
        assert(body(text::split_on(base, '/')) == body(text::split_on(b, '/')));
    }
    assert(lead(all) == lead(base));
    assert(components(all) == components(base) + body(q));
}

/// A name joined to a directory is the file name of the result.
pub proof fn lemma_join_name(base: Seq<char>, name: Seq<char>)
    requires
        is_name(name),
        base.len() > 0,
    ensures
        components(join(base, name)) == components(base).push(Part::Normal(name)),
        file_name(join(base, name)) == Some(name),
{
    assert(name[0] != '/');
    text::lemma_split_on_single(name, '/');
    lemma_components_of_join(base, name);
    assert(seq![name].drop_last() == Seq::<Seq<char>>::empty());
    assert(body(seq![name].drop_last()) == Seq::<Part>::empty());
    assert(body(seq![name]) == seq![Part::Normal(name)]);
    assert(components(base) + seq![Part::Normal(name)] == components(base).push(
        Part::Normal(name),
    ));
}

proof fn lemma_part_less(a: Part, b: Part)
    ensures
        !part_less(a, a),
        part_less(a, b) ==> !part_less(b, a),
        a == b || part_less(a, b) || part_less(b, a),
{
    match (a, b) {
        (Part::Normal(x), Part::Normal(y)) => {
            text::lemma_text_less(x, y);
        },
        (Part::Normal(x), _) => {
            text::lemma_text_less(x, x);
        },
        _ => {},
    }
}

proof fn lemma_part_less_transitive(a: Part, b: Part, c: Part)
    requires
        part_less(a, b),
        part_less(b, c),
    ensures
        part_less(a, c),
{
    if a is Normal && b is Normal && c is Normal {
        text::lemma_text_less_transitive(a->Normal_0, b->Normal_0, c->Normal_0);
    }
}

proof fn lemma_parts_less(a: Seq<Part>, b: Seq<Part>)
    ensures
        !parts_less(a, a),
        parts_less(a, b) ==> !parts_less(b, a),
        a == b || parts_less(a, b) || parts_less(b, a),
    decreases a.len(),
{
    if a.len() > 0 {
        lemma_part_less(a[0], a[0]);
        if b.len() > 0 {
            lemma_part_less(a[0], b[0]);
            lemma_parts_less(a.skip(1), b.skip(1));
            if a[0] == b[0] && a.skip(1) == b.skip(1) {
                assert(a == seq![a[0]] + a.skip(1));
                assert(b == seq![b[0]] + b.skip(1));
            }
        } else {
            lemma_parts_less(a.skip(1), b);
        }
    } else if b.len() == 0 {
        assert(a == b);
    }
}

proof fn lemma_parts_less_transitive(a: Seq<Part>, b: Seq<Part>, c: Seq<Part>)
    requires
        parts_less(a, b),
        parts_less(b, c),
    ensures
        parts_less(a, c),
    decreases a.len(),
{
    if a.len() > 0 && b.len() > 0 && c.len() > 0 {
        if part_less(a[0], b[0]) && part_less(b[0], c[0]) {
            lemma_part_less_transitive(a[0], b[0], c[0]);
        } else if a[0] == b[0] && b[0] == c[0] {
            lemma_part_less(a[0], a[0]);
            lemma_parts_less_transitive(a.skip(1), b.skip(1), c.skip(1));
        }
    }
}

/// The order of paths is strict, and total up to texts that name the same path.
pub proof fn lemma_path_less(a: Seq<char>, b: Seq<char>)
    ensures
        !path_less(a, a),
        path_less(a, b) ==> !path_less(b, a),
        same_path(a, b) || path_less(a, b) || path_less(b, a),
{
    lemma_parts_less(components(a), components(b));
}

pub proof fn lemma_path_less_transitive(a: Seq<char>, b: Seq<char>, c: Seq<char>)
    requires
        path_less(a, b),
        path_less(b, c),
    ensures
        path_less(a, c),
{
    lemma_parts_less_transitive(components(a), components(b), components(c));
}

/// The last dot of a text stands within it, and the text is split there.
pub proof fn lemma_last_dot(s: Seq<char>)
    ensures
        -1 <= last_dot(s) < s.len(),
        last_dot(s) >= 0 ==> s[last_dot(s)] == '.',
        forall|k: int| last_dot(s) < k < s.len() ==> #[trigger] s[k] != '.',
        stem(s).len() <= s.len(),
        forall|k: int| 0 <= k < stem(s).len() ==> stem(s)[k] == s[k],
    decreases s.len(),
{
    if s.len() > 0 && s.last() != '.' {
        let d = s.drop_last();
        lemma_last_dot(d);
        assert forall|k: int| last_dot(s) < k < s.len() implies #[trigger] s[k] != '.' by {
            if k < d.len() {
                assert(d[k] != '.');
            }
        }
    }
}

/// Splits a path into its components.
pub fn split_path(s: &str) -> (r: Vec<Component>)
    ensures
        parts(r@) == components(s@),
{
    let pieces = text::split_text(s, '/');
    let mut r: Vec<Component> = Vec::new();
    let root = text::starts_with_text(s, "/");
    proof {
        reveal_strlit("/");
        reveal_strlit(".");
        reveal_strlit("..");
        assert("/"@ == seq!['/']);
        assert("."@ == dot());
        assert(".."@ == dot_dot());
        assert("/"@.is_prefix_of(s@) == absolute(s@)) by {
            if absolute(s@) {
                assert(s@.subrange(0, 1) == seq!['/']);
            } else if seq!['/'].is_prefix_of(s@) {
                assert(s@.subrange(0, 1)[0] == '/');
            }
        }
        text::lemma_split_on_nonempty(s@, '/');
        assert(text::texts(pieces@)[0] == pieces@[0]@);
    }
    if root {
        r.push(Component::RootDir);
    } else if text::text_eq(pieces[0].as_str(), ".") {
        r.push(Component::CurDir);
    }
    let ghost head = parts(r@);
    assert(head == lead(s@));
    let mut i: usize = 0;
    assert(head + body(text::texts(pieces@).take(0)) == head);
    while i < pieces.len()
        invariant
            i <= pieces.len(),
            parts(r@) == head + body(text::texts(pieces@).take(i as int)),
            "."@ == dot(),
            ".."@ == dot_dot(),
        decreases pieces.len() - i,
    {
        let piece = &pieces[i];
        proof {
            let now = text::texts(pieces@).take(i + 1);
            assert(now.drop_last() == text::texts(pieces@).take(i as int));
            assert(now.last() == piece@);
        }
        let ghost before = parts(r@);
        if piece.as_str().is_empty() || text::text_eq(piece.as_str(), ".") {
        } else if text::text_eq(piece.as_str(), "..") {
            r.push(Component::ParentDir);
            assert(parts(r@) == before.push(Part::Parent));
        } else {
            r.push(Component::Normal(piece.clone()));
            assert(parts(r@) == before.push(Part::Normal(piece@)));
        }
        i = i + 1;
    }
    assert(text::texts(pieces@).take(pieces@.len() as int) == text::texts(pieces@));
    r
}

/// Puts a path together from its components.
pub fn join_parts(c: &[Component]) -> (r: String)
    ensures
        r@ == render(parts(c@)),
{
    let mut pieces: Vec<String> = Vec::new();
    let root = c.len() > 0 && matches!(c[0], Component::RootDir);
    let start: usize = if root { 1 } else { 0 };
    let mut i: usize = start;
    let ghost rest = if root { parts(c@).skip(1) } else { parts(c@) };
    while i < c.len()
        invariant
            start <= i <= c.len(),
            start <= 1,
            rest == parts(c@).skip(start as int),
            text::texts(pieces@) == part_texts(rest).take(i - start),
        decreases c.len() - i,
    {
        let t = match &c[i] {
            Component::RootDir => "/".to_string(),
            Component::CurDir => ".".to_string(),
            Component::ParentDir => "..".to_string(),
            Component::Normal(s) => s.clone(),
        };
        proof {
            reveal_strlit("/");
            reveal_strlit(".");
            reveal_strlit("..");
            assert(t@ == part_text(c@[i as int]@));
            assert(rest[i - start] == c@[i as int]@);
        }
        let ghost before = text::texts(pieces@);
        pieces.push(t);
        i = i + 1;
        assert(text::texts(pieces@) == before.push(t@));
        assert(text::texts(pieces@) == part_texts(rest).take(i - start));
    }
    assert(part_texts(rest).take(rest.len() as int) == part_texts(rest));
    let tail = text::join_text(pieces.as_slice(), '/');
    if root {
        let mut r = String::new();
        r.push('/');
        r.append(tail.as_str());
        r
    } else {
        tail
    }
}

/// Whether a path starts at the root.
pub fn is_absolute(s: &str) -> (r: bool)
    ensures
        r == absolute(s@),
{
    let v = text::chars_of(s);
    v.len() > 0 && v[0] == '/'
}

/// The path `p` seen from the directory `base`.
pub fn join_path(base: &str, p: &str) -> (r: String)
    ensures
        r@ == join(base@, p@),
{
    if is_absolute(p) {
        p.to_string()
    } else {
        let v = text::chars_of(base);
        let mut r = base.to_string();
        if v.len() > 0 && v[v.len() - 1] != '/' {
            r.push('/');
        }
        r.append(p);
        r
    }
}

/// The last component of a path, where it is a name.
pub fn file_name_of(s: &str) -> (r: Option<String>)
    ensures
        r is Some <==> file_name(s@) is Some,
        r matches Some(n) ==> file_name(s@) == Some(n@),
{
    let c = split_path(s);
    if c.len() == 0 {
        return None;
    }
    assert(parts(c@).last() == c@.last()@);
    match &c[c.len() - 1] {
        Component::Normal(n) => Some(n.clone()),
        _ => None,
    }
}

/// The path without its last component.
pub fn parent_of(s: &str) -> (r: Option<String>)
    ensures
        r is Some <==> parent(s@) is Some,
        r matches Some(p) ==> parent(s@) == Some(p@),
{
    let mut c = split_path(s);
    if c.len() == 0 {
        return None;
    }
    let ghost all = parts(c@);
    assert(all.last() == c@.last()@);
    let last = c.pop();
    assert(parts(c@) == all.drop_last());
    match last {
        Some(Component::RootDir) => None,
        _ => Some(join_parts(c.as_slice())),
    }
}

/// The position of the last dot of a file name, a leading one aside.
fn stem_end(name: &[char]) -> (r: Option<usize>)
    ensures
        r is Some <==> last_dot(name@) > 0,
        r matches Some(i) ==> i < name@.len() && i == last_dot(name@),
{
    let mut i: usize = name.len();
    assert(name@.take(name@.len() as int) == name@);
    while i > 0
        invariant
            i <= name.len(),
            last_dot(name@.take(i as int)) == last_dot(name@),
        decreases i,
    {
        let ghost here = name@.take(i as int);
        assert(here.last() == name@[i - 1]);
        assert(here.drop_last() == name@.take(i - 1));
        i = i - 1;
        if name[i] == '.' {
            return if i > 0 {
                Some(i)
            } else {
                None
            };
        }
    }
    None
}

/// The part of a file name before its last dot.
pub fn stem_of(name: &str) -> (r: String)
    ensures
        r@ == stem(name@),
{
    let v = text::chars_of(name);
    match stem_end(v.as_slice()) {
        Some(i) => {
            assert(v@.subrange(0, i as int) == v@.take(i as int));
            text::text_of(slice_subrange(v.as_slice(), 0, i))
        },
        None => name.to_string(),
    }
}

/// The part of a path's last name before its last dot.
pub fn file_stem_of(s: &str) -> (r: Option<String>)
    ensures
        r is Some <==> file_stem(s@) is Some,
        r matches Some(n) ==> file_stem(s@) == Some(n@),
{
    match file_name_of(s) {
        Some(n) => Some(stem_of(n.as_str())),
        None => None,
    }
}

/// The part of a path's last name behind its last dot.
pub fn extension_of(s: &str) -> (r: Option<String>)
    ensures
        r is Some <==> file_extension(s@) is Some,
        r matches Some(n) ==> file_extension(s@) == Some(n@),
{
    match file_name_of(s) {
        Some(n) => {
            let v = text::chars_of(n.as_str());
            let end: usize = v.len();
            match stem_end(v.as_slice()) {
                Some(i) => {
                    assert(v@.subrange(i + 1, v@.len() as int) == v@.skip(i + 1));
                    Some(text::text_of(slice_subrange(v.as_slice(), i + 1, end)))
                },
                None => None,
            }
        },
        None => None,
    }
}

/// The path with the extension of its last component replaced.
pub fn replace_extension(s: &str, ext: &str) -> (r: String)
    ensures
        r@ == with_extension(s@, ext@),
{
    let mut c = split_path(s);
    if c.len() == 0 {
        return s.to_string();
    }
    let ghost all = parts(c@);
    assert(all.last() == c@.last()@);
    let last = c.pop();
    match last {
        Some(Component::Normal(n)) => {
            let mut name = stem_of(n.as_str());
            name.push('.');
            name.append(ext);
            let ghost renamed = name@;
            c.push(Component::Normal(name));
            assert(parts(c@) == all.drop_last().push(Part::Normal(renamed)));
            join_parts(c.as_slice())
        },
        _ => s.to_string(),
    }
}

fn part_eq(a: &Component, b: &Component) -> (r: bool)
    ensures
        r == (a@ == b@),
{
    match (a, b) {
        (Component::RootDir, Component::RootDir) => true,
        (Component::CurDir, Component::CurDir) => true,
        (Component::ParentDir, Component::ParentDir) => true,
        (Component::Normal(x), Component::Normal(y)) => text::text_eq(x.as_str(), y.as_str()),
        _ => false,
    }
}

fn part_rank(a: &Component) -> (r: u8)
    ensures
        r == rank(a@),
{
    match a {
        Component::RootDir => 0,
        Component::CurDir => 1,
        Component::ParentDir => 2,
        Component::Normal(_) => 3,
    }
}

fn part_lt(a: &Component, b: &Component) -> (r: bool)
    ensures
        r == part_less(a@, b@),
{
    match (a, b) {
        (Component::Normal(x), Component::Normal(y)) => text::text_lt(x.as_str(), y.as_str()),
        _ => part_rank(a) < part_rank(b),
    }
}

/// Whether two rows of components are the same.
fn parts_eq(a: &[Component], b: &[Component]) -> (r: bool)
    ensures
        r == (parts(a@) == parts(b@)),
{
    if a.len() != b.len() {
        assert(parts(a@).len() != parts(b@).len());
        return false;
    }
    let mut i: usize = 0;
    while i < a.len()
        invariant
            i <= a.len() == b.len(),
            forall|k: int| 0 <= k < i ==> a@[k]@ == b@[k]@,
        decreases a.len() - i,
    {
        if !part_eq(&a[i], &b[i]) {
            assert(parts(a@)[i as int] != parts(b@)[i as int]);
            return false;
        }
        i = i + 1;
    }
    assert(parts(a@) == parts(b@));
    true
}

/// Whether two texts name the same path.
pub fn is_same_path(a: &str, b: &str) -> (r: bool)
    ensures
        r == same_path(a@, b@),
{
    parts_eq(split_path(a).as_slice(), split_path(b).as_slice())
}

/// Whether the path `a` comes before the path `b`.
pub fn path_lt(a: &str, b: &str) -> (r: bool)
    ensures
        r == path_less(a@, b@),
{
    let x = split_path(a);
    let y = split_path(b);
    let ghost p = parts(x@);
    let ghost q = parts(y@);
    let mut i: usize = 0;
    assert(p.skip(0) == p && q.skip(0) == q);
    loop
        invariant
            i <= x.len(),
            i <= y.len(),
            p == parts(x@),
            q == parts(y@),
            parts_less(p.skip(i as int), q.skip(i as int)) == path_less(a@, b@),
        decreases x.len() - i,
    {
        if i == y.len() {
            return false;
        }
        if i == x.len() {
            return true;
        }
        assert(p.skip(i as int).skip(1) == p.skip(i + 1));
        assert(q.skip(i as int).skip(1) == q.skip(i + 1));
        assert(p[i as int] == x@[i as int]@ && q[i as int] == y@[i as int]@);
        if part_lt(&x[i], &y[i]) {
            return true;
        }
        if !part_eq(&x[i], &y[i]) {
            return false;
        }
        i = i + 1;
    }
}

/// The part of a path behind a directory that it lies below.
pub fn strip_prefix(path: &str, dir: &str) -> (r: Option<String>)
    ensures
        r is Some <==> components(dir@).is_prefix_of(components(path@)),
        r matches Some(t) ==> t@ == render(components(path@).skip(components(dir@).len() as int)),
{
    let mut rest = split_path(path);
    let prefix = split_path(dir);
    let ghost c = parts(rest@);
    let ghost b = parts(prefix@);
    if prefix.len() > rest.len() {
        return None;
    }
    let mut i: usize = 0;
    while i < prefix.len()
        invariant
            i <= prefix.len(),
            b == parts(prefix@),
            b == components(dir@),
            c == components(path@),
            b.len() <= c.len(),
            parts(rest@) == c.skip(i as int),
            b.take(i as int) == c.take(i as int),
        decreases prefix.len() - i,
    {
        proof {
            assert(parts(rest@).len() == rest@.len());
            assert(parts(prefix@).len() == prefix@.len());
            assert(parts(rest@)[0] == c[i as int]);
            assert(parts(rest@)[0] == rest@[0]@);
            assert(b[i as int] == prefix@[i as int]@);
        }
        if !part_eq(&rest[0], &prefix[i]) {
            proof {
                if b.is_prefix_of(c) {
                    assert(c.subrange(0, b.len() as int)[i as int] == c[i as int]);
                }
            }
            return None;
        }
        let ghost before = parts(rest@);
        rest.remove(0);
        proof {
            assert(parts(rest@) == before.remove(0));
            assert(before.remove(0) == c.skip(i + 1));
            assert(b.take(i + 1) == b.take(i as int).push(b[i as int]));
            assert(c.take(i + 1) == c.take(i as int).push(c[i as int]));
        }
        i = i + 1;
    }
    proof {
        assert(b.take(b.len() as int) == b);
        assert(c.subrange(0, b.len() as int) == c.take(b.len() as int));
    }
    Some(join_parts(rest.as_slice()))
}

} // verus!
