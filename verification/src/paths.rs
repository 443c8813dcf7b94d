//! Path normalization, relative paths, and the order of a workspace's folders.
//!
//! Zed keeps the folders of a workspace in lexicographic order beside a list of
//! positions: the entry at a folder's lexicographic index is its position on
//! display.
use vstd::prelude::*;

use crate::components;
use crate::components::{Component, Part};
use crate::order;
use crate::text;

verus! {

broadcast use vstd::string::group_string_axioms;

/// Appends components to a row one by one, dropping each `.` and letting each
/// `..` take back a name in front of it.
pub open spec fn resolve_onto(done: Seq<Part>, c: Seq<Part>) -> Seq<Part>
    decreases c.len(),
{
    if c.len() == 0 {
        done
    } else {
        let before = resolve_onto(done, c.drop_last());
        match c.last() {
            Part::Cur => before,
            Part::Parent => if before.len() > 0 && before.last() is Normal {
                before.drop_last()
            } else {
                before.push(Part::Parent)
            },
            other => before.push(other),
        }
    }
}

/// The components that are left when `.` and `..` have been resolved.
pub open spec fn normal_parts(s: Seq<char>) -> Seq<Part> {
    resolve_onto(Seq::<Part>::empty(), components::components(s))
}

/// The normalized text of a path.
pub open spec fn normal(s: Seq<char>) -> Seq<char> {
    if normal_parts(s).len() == 0 {
        components::dot()
    } else {
        components::render(normal_parts(s))
    }
}

/// Two paths that are the same once normalized.
pub open spec fn equal(a: Seq<char>, b: Seq<char>) -> bool {
    normal(a) == normal(b)
}

/// A row in which nothing is left to resolve: an optional root, then `..`s, then names.
pub open spec fn resolved(c: Seq<Part>) -> bool {
    &&& forall|i: int| 0 <= i < c.len() ==> #[trigger] c[i] !is Cur
    &&& forall|i: int| 0 < i < c.len() ==> #[trigger] c[i] !is Root
    &&& forall|i: int, j: int|
        0 <= i < j < c.len() && #[trigger] c[i] is Normal ==> #[trigger] c[j] is Normal
}

proof fn lemma_resolve_is_resolved(c: Seq<Part>)
    requires
        components::proper(c),
    ensures
        resolved(resolve_onto(Seq::<Part>::empty(), c)),
        components::proper(resolve_onto(Seq::<Part>::empty(), c)),
        c.len() > 0 && c[0] is Root ==> resolve_onto(Seq::<Part>::empty(), c).len() > 0
            && resolve_onto(Seq::<Part>::empty(), c)[0] is Root,
        !(c.len() > 0 && c[0] is Root) ==> components::plain(
            resolve_onto(Seq::<Part>::empty(), c),
        ),
    decreases c.len(),
{
    let none = Seq::<Part>::empty();
    if c.len() > 0 {
        let d = c.drop_last();
        assert(components::proper(d)) by {
            if components::plain(c) {
                assert forall|i: int| 0 <= i < d.len() implies match #[trigger] d[i] {
                    Part::Root => false,
                    Part::Cur => false,
                    Part::Parent => true,
                    Part::Normal(n) => components::is_name(n),
                } by {
                    assert(d[i] == c[i]);
                }
            } else if d.len() > 0 {
                assert forall|i: int| 0 <= i < d.skip(1).len() implies match #[trigger] d.skip(
                    1,
                )[i] {
                    Part::Root => false,
                    Part::Cur => false,
                    Part::Parent => true,
                    Part::Normal(n) => components::is_name(n),
                } by {
                    assert(d.skip(1)[i] == c.skip(1)[i]);
                }
            }
        }
        lemma_resolve_is_resolved(d);
        let before = resolve_onto(none, d);
        let after = resolve_onto(none, c);
        let last = c[c.len() - 1];
        if c.len() == 1 {
            assert(d == none);
            assert(before == none);
        }
        assert(c.len() > 1 ==> last !is Root && last !is Cur && (last matches Part::Normal(n)
            ==> components::is_name(n))) by {
            if c.len() > 1 && !components::plain(c) {
                assert(c.skip(1)[c.len() - 2] == last);
            }
        }
        assert(c.len() > 1 ==> d[0] == c[0]);
        let rooted = c[0] is Root;
        if rooted {
            if c.len() == 1 {
                assert(after == none.push(Part::Root));
                assert(after.skip(1) == none);
            } else {
                assert(components::plain(before.skip(1)));
                assert forall|i: int| 0 <= i < after.skip(1).len() implies match #[trigger] after.skip(
                    1,
                )[i] {
                    Part::Root => false,
                    Part::Cur => false,
                    Part::Parent => true,
                    Part::Normal(n) => components::is_name(n),
                } by {
                    if i < before.skip(1).len() {
                        assert(after.skip(1)[i] == before.skip(1)[i]);
                    }
                }
            }
        } else {
            assert forall|i: int| 0 <= i < after.len() implies match #[trigger] after[i] {
                Part::Root => false,
                Part::Cur => false,
                Part::Parent => true,
                Part::Normal(n) => components::is_name(n),
            } by {
                if i < before.len() {
                    assert(after[i] == before[i]);
                }
            }
        }
    } else {
        assert(components::plain(none));
    }
}

proof fn lemma_resolved_stays(c: Seq<Part>)
    requires
        resolved(c),
    ensures
        resolve_onto(Seq::<Part>::empty(), c) == c,
    decreases c.len(),
{
    if c.len() > 0 {
        let d = c.drop_last();
        assert(resolved(d)) by {
            assert forall|i: int, j: int|
                0 <= i < j < d.len() && #[trigger] d[i] is Normal implies #[trigger] d[j] is Normal by {
                assert(c[i] is Normal);
                assert(c[j] is Normal);
            }
            assert forall|i: int| 0 <= i < d.len() implies #[trigger] d[i] !is Cur by {
                assert(c[i] !is Cur);
            }
            assert forall|i: int| 0 < i < d.len() implies #[trigger] d[i] !is Root by {
                assert(c[i] !is Root);
            }
        }
        lemma_resolved_stays(d);
        assert(c[c.len() - 1] !is Cur);
        assert(d.push(c.last()) == c);
        if d.len() > 0 && d.last() is Normal {
            assert(c[d.len() - 1] is Normal);
            assert(c[c.len() - 1] is Normal);
        }
    }
}

/// The components of a normalized path are those of some path, with nothing left to resolve.
pub proof fn lemma_normal_resolved(s: Seq<char>)
    ensures
        resolved(normal_parts(s)),
        components::proper(normal_parts(s)),
{
    components::lemma_components_proper(s);
    lemma_resolve_is_resolved(components::components(s));
}

/// Normalizing resolves a path for good: a second time changes nothing.
pub proof fn lemma_normal_idempotent(s: Seq<char>)
    ensures
        normal(normal(s)) == normal(s),
        normal_parts(normal(s)) == normal_parts(s),
{
    components::lemma_components_proper(s);
    lemma_resolve_is_resolved(components::components(s));
    let n = normal_parts(s);
    if n.len() == 0 {
        let c = seq![Part::Cur];
        assert(c.skip(1) == Seq::<Part>::empty());
        assert(components::part_texts(c) == seq![components::dot()]);
        assert(components::render(c) == components::dot());
        components::lemma_components_of_render(c);
        assert(c.drop_last() == Seq::<Part>::empty());
        assert(resolve_onto(Seq::<Part>::empty(), c.drop_last()) == Seq::<Part>::empty());
        assert(normal_parts(normal(s)) == n);
    } else {
        components::lemma_components_of_render(n);
        lemma_resolved_stays(n);
    }
}

/// Normalized texts are canonical: where they name the same path they are the same text.
pub proof fn lemma_normal_canonical(a: Seq<char>, b: Seq<char>)
    ensures
        components::same_path(normal(a), normal(b)) <==> normal(a) == normal(b),
        equal(a, b) <==> normal_parts(a) == normal_parts(b),
{
    lemma_normal_idempotent(a);
    lemma_normal_idempotent(b);
}

/// Equality of paths is an equivalence, and normalizing stays within a class.
pub proof fn lemma_equal_is_equivalence(a: Seq<char>, b: Seq<char>, c: Seq<char>)
    ensures
        equal(a, a),
        equal(a, b) ==> equal(b, a),
        equal(a, b) && equal(b, c) ==> equal(a, c),
        equal(a, normal(a)),
        components::same_path(a, b) ==> equal(a, b),
{
    lemma_normal_idempotent(a);
}

/// Resolving a row in two steps is resolving it at once.
pub proof fn lemma_resolve_concat(done: Seq<Part>, a: Seq<Part>, b: Seq<Part>)
    ensures
        resolve_onto(done, a + b) == resolve_onto(resolve_onto(done, a), b),
    decreases b.len(),
{
    if b.len() == 0 {
        assert(a + b == a);
    } else {
        assert((a + b).drop_last() == a + b.drop_last());
        lemma_resolve_concat(done, a, b.drop_last());
    }
}

/// Normalizes a path by resolving its `.` and `..` components, without looking
/// at any file system.
pub fn normalize_path(path: &str) -> (r: String)
    ensures
        r@ == normal(path@),
{
    let c = components::split_path(path);
    let ghost all = components::parts(c@);
    let mut out: Vec<Component> = Vec::new();
    let mut i: usize = 0;
    assert(all.take(0) == Seq::<Part>::empty());
    assert(components::parts(out@) == Seq::<Part>::empty());
    while i < c.len()
        invariant
            i <= c.len(),
            all == components::parts(c@),
            components::parts(out@) == resolve_onto(Seq::<Part>::empty(), all.take(i as int)),
        decreases c.len() - i,
    {
        let ghost before = components::parts(out@);
        proof {
            assert(all.take(i + 1).drop_last() == all.take(i as int));
            assert(all.take(i + 1).last() == c@[i as int]@);
            assert(before.len() > 0 ==> before.last() == out@.last()@);
        }
        match &c[i] {
            Component::CurDir => {},
            Component::ParentDir => {
                let pops = out.len() > 0 && matches!(out[out.len() - 1], Component::Normal(_));
                if pops {
                    out.pop();
                    assert(components::parts(out@) == before.drop_last());
                } else {
                    out.push(Component::ParentDir);
                    assert(components::parts(out@) == before.push(Part::Parent));
                }
            },
            Component::RootDir => {
                out.push(Component::RootDir);
                assert(components::parts(out@) == before.push(Part::Root));
            },
            Component::Normal(n) => {
                out.push(Component::Normal(n.clone()));
                assert(components::parts(out@) == before.push(Part::Normal(n@)));
            },
        }
        i = i + 1;
    }
    assert(all.take(all.len() as int) == all);
    if out.len() == 0 {
        proof {
            reveal_strlit(".");
            assert("."@ == components::dot());
        }
        ".".to_string()
    } else {
        components::join_parts(out.as_slice())
    }
}

/// Compares two paths after normalization.
pub fn paths_equal(a: &str, b: &str) -> (r: bool)
    ensures
        r == equal(a@, b@),
{
    text::text_eq(normalize_path(a).as_str(), normalize_path(b).as_str())
}

/// How many components two rows share at their start.
pub open spec fn common(a: Seq<Part>, b: Seq<Part>) -> nat
    decreases a.len(),
{
    if a.len() > 0 && b.len() > 0 && a[0] == b[0] {
        1 + common(a.skip(1), b.skip(1))
    } else {
        0
    }
}

/// `n` times `..`.
pub open spec fn ups(n: nat) -> Seq<Part> {
    Seq::new(n, |i: int| Part::Parent)
}

/// The way from the directory `base` to `target`: up to what they share, then down.
pub open spec fn way(target: Seq<Part>, base: Seq<Part>) -> Seq<Part> {
    let k = common(target, base) as int;
    ups((base.len() - k) as nat) + target.skip(k)
}

/// The way down from `base` has to leave a `..` first, so no way is known.
pub open spec fn no_way(target: Seq<Part>, base: Seq<Part>) -> bool {
    let k = common(target, base) as int;
    k < target.len() && k < base.len() && base[k] is Parent
}

/// What `pathdiff::diff_paths` gives for a path and a base.
pub uninterp spec fn diff(path: Seq<char>, base: Seq<char>) -> Option<Seq<char>>;

/// `pathdiff::diff_paths(path, base)`, on texts.
///
/// Where both paths are absolute, or both relative and the base does not start
/// with a `.` that the path lacks, the result is the way from the base to the
/// path, and there is none where the base goes on with `..` behind what they
/// share while the path goes on too. Where only the path is absolute, the result
/// is the path; where only the base is, there is none. For a base that starts
/// with a `.` that the path lacks nothing is said but that the result depends on
/// the two texts alone.
#[verifier::external_body]
fn diff_paths(path: &str, base: &str) -> (r: Option<String>)
    ensures
        r is Some <==> diff(path@, base@) is Some,
        r matches Some(t) ==> diff(path@, base@) == Some(t@),
        components::absolute(path@) && !components::absolute(base@) ==> r is Some && r->0@ == path@,
        !components::absolute(path@) && components::absolute(base@) ==> r is None,
        components::absolute(path@) == components::absolute(base@) && (components::lead(base@)
            == seq![Part::Cur] ==> components::lead(path@) == seq![Part::Cur]) ==> {
            let (c, b) = (components::components(path@), components::components(base@));
            if no_way(c, b) {
                r is None
            } else {
                r is Some && r->0@ == components::render(way(c, b))
            }
        },
{
    pathdiff::diff_paths(path, base).map(|p| p.to_string_lossy().into_owned())
}

/// The path stored for `target` in a file of the directory `base`.
pub open spec fn relative(base: Seq<char>, target: Seq<char>) -> Seq<char> {
    match diff(target, base) {
        Some(t) => if t.len() == 0 {
            components::dot()
        } else {
            t
        },
        None => target,
    }
}

/// Behind what it shares with `target`, the directory `base` only goes down.
pub open spec fn straight(base: Seq<char>, target: Seq<char>) -> bool {
    let (c, b) = (components::components(target), components::components(base));
    forall|i: int| common(c, b) <= i < b.len() ==> #[trigger] b[i] is Normal
}

/// A relative path from `base` to `target` leads from `base` to `target`.
pub open spec fn leads_back(base: Seq<char>, target: Seq<char>) -> bool {
    components::absolute(base) && components::absolute(target) && (straight(base, target)
        || no_way(components::components(target), components::components(base)))
}

pub proof fn lemma_common(a: Seq<Part>, b: Seq<Part>)
    ensures
        common(a, b) <= a.len(),
        common(a, b) <= b.len(),
        a.take(common(a, b) as int) == b.take(common(a, b) as int),
    decreases a.len(),
{
    if a.len() > 0 && b.len() > 0 && a[0] == b[0] {
        lemma_common(a.skip(1), b.skip(1));
        let k = common(a, b) as int;
        assert(a.take(k) == seq![a[0]] + a.skip(1).take(k - 1));
        assert(b.take(k) == seq![b[0]] + b.skip(1).take(k - 1));
    } else {
        assert(a.take(0) == b.take(0));
    }
}

proof fn lemma_resolve_names(done: Seq<Part>, names: Seq<Part>)
    requires
        forall|i: int| 0 <= i < names.len() ==> #[trigger] names[i] is Normal,
    ensures
        resolve_onto(done, names) == done + names,
    decreases names.len(),
{
    if names.len() == 0 {
        assert(done + names == done);
    } else {
        assert forall|i: int| 0 <= i < names.drop_last().len() implies #[trigger] names.drop_last()[i] is Normal by {
            assert(names[i] is Normal);
        }
        lemma_resolve_names(done, names.drop_last());
        assert(names[names.len() - 1] is Normal);
        assert((done + names.drop_last()).push(names.last()) == done + names);
    }
}

/// As many `..`s as there are names take all the names back.
proof fn lemma_resolve_ups(done: Seq<Part>, names: Seq<Part>, n: nat)
    requires
        n <= names.len(),
        forall|i: int| 0 <= i < names.len() ==> #[trigger] names[i] is Normal,
    ensures
        resolve_onto(done + names, ups(n)) == done + names.take(names.len() - n),
    decreases n,
{
    if n == 0 {
        assert(names.take(names.len() as int) == names);
    } else {
        let m = (n - 1) as nat;
        assert(ups(n).drop_last() == ups(m));
        lemma_resolve_ups(done, names, m);
        let before = done + names.take(names.len() - m);
        assert(before.last() == names[names.len() - n]);
        assert(before.drop_last() == done + names.take(names.len() - n));
    }
}

/// Where `base` only goes down behind what it shares with `target`, following
/// the way from `base` ends at `target`.
pub proof fn lemma_way_resolves(target: Seq<Part>, base: Seq<Part>)
    requires
        forall|i: int| common(target, base) <= i < base.len() ==> #[trigger] base[i] is Normal,
    ensures
        resolve_onto(Seq::<Part>::empty(), base + way(target, base)) == resolve_onto(
            Seq::<Part>::empty(),
            target,
        ),
{
    lemma_common(target, base);
    let none = Seq::<Part>::empty();
    let k = common(target, base) as int;
    let shared = target.take(k);
    let names = base.skip(k);
    let n = (base.len() - k) as nat;
    assert(base == shared + names);
    let done = resolve_onto(none, shared);
    assert forall|i: int| 0 <= i < names.len() implies #[trigger] names[i] is Normal by {
        assert(base[k + i] is Normal);
    }
    lemma_resolve_concat(none, shared, names);
    lemma_resolve_names(done, names);
    lemma_resolve_ups(done, names, n);
    assert(done + names.take(0) == done);
    assert(base + way(target, base) == base + ups(n) + target.skip(k));
    lemma_resolve_concat(none, base + ups(n), target.skip(k));
    lemma_resolve_concat(none, base, ups(n));
    lemma_resolve_concat(none, shared, target.skip(k));
    assert(shared + target.skip(k) == target);
}

/// The path to `target` as it is written in a file of the directory `base`.
///
/// With both paths absolute, and `base` not climbing behind what the two share,
/// the result seen from `base` is `target`.
pub fn relative_path(base: &str, target: &str) -> (r: String)
    ensures
        r@ == relative(base@, target@),
        components::absolute(base@) && components::absolute(target@) ==> r@ == (if no_way(
            components::components(target@),
            components::components(base@),
        ) {
            target@
        } else if components::same_path(base@, target@) {
            components::dot()
        } else {
            components::render(
                way(components::components(target@), components::components(base@)),
            )
        }),
        leads_back(base@, target@) ==> equal(components::join(base@, r@), target@),
{
    let rel = match diff_paths(target, base) {
        Some(rel) => if rel.as_str().is_empty() {
            ".".to_string()
        } else {
            rel
        },
        None => target.to_string(),
    };
    proof {
        reveal_strlit(".");
        assert("."@ == components::dot());
        if components::absolute(base@) && components::absolute(target@) {
            lemma_relative_absolute(base@, target@);
        }
    }
    rel
}

/// What the way between two absolute paths is made of.
proof fn lemma_relative_absolute(base: Seq<char>, target: Seq<char>)
    requires
        components::absolute(base),
        components::absolute(target),
    ensures
        ({
            let (c, b) = (components::components(target), components::components(base));
            let t = components::render(way(c, b));
            &&& !no_way(c, b) ==> (t.len() == 0 <==> components::same_path(base, target))
            &&& straight(base, target) && t.len() > 0 ==> equal(components::join(base, t), target)
            &&& straight(base, target) && t.len() == 0 ==> equal(
                components::join(base, components::dot()),
                target,
            )
            &&& equal(components::join(base, target), target)
        }),
{
    let (c, b) = (components::components(target), components::components(base));
    lemma_common(c, b);
    assert(c[0] is Root && b[0] is Root);
    assert(common(c, b) >= 1);
    components::lemma_components_proper(target);
    components::lemma_components_proper(base);
    let k = common(c, b) as int;
    let w = way(c, b);
    assert(components::plain(w)) by {
        assert forall|i: int| 0 <= i < w.len() implies match #[trigger] w[i] {
            Part::Root => false,
            Part::Cur => false,
            Part::Parent => true,
            Part::Normal(n) => components::is_name(n),
        } by {
            if i >= b.len() - k {
                assert(w[i] == c[i - (b.len() - k) + k]);
                assert(w[i] == c.skip(1)[i - (b.len() - k) + k - 1]);
            }
        }
    }
    let t = components::render(w);
    components::lemma_components_of_render(w);
    let piece = text::split_on(t, '/');
    assert(!components::absolute(t)) by {
        if components::absolute(t) {
            assert(w == components::lead(t) + components::body(piece));
            assert(w[0] is Root);
        }
    }
    assert(components::lead(t) == Seq::<Part>::empty()) by {
        if components::lead(t).len() > 0 {
            assert(w[0] == components::lead(t)[0]);
        }
    }
    assert(components::body(piece) == w);
    if t.len() == 0 {
        assert(t == Seq::<char>::empty());
        let none = Seq::<char>::empty();
        assert(components::components(t) == w);
        assert(piece == seq![none]);
        components::lemma_body_of_void(none);
        assert(w.len() == 0);
        assert(k == b.len() && k == c.len());
        assert(c.take(k) == c && b.take(k) == b);
    } else if c == b {
        lemma_common_same(c);
        assert(w.len() == 0);
        assert(components::render(w) == Seq::<char>::empty());
    }
    components::lemma_components_of_join(base, t);
    if straight(base, target) {
        lemma_way_resolves(c, b);
        if t.len() == 0 {
            let here = components::dot();
            assert(here[0] == '.');
            components::lemma_components_of_join(base, here);
            assert(!here.contains('/'));
            text::lemma_split_on_single(here, '/');
            components::lemma_body_of_void(here);
            assert(b + Seq::<Part>::empty() == b);
        } else {
            assert(normal_parts(components::join(base, t)) == normal_parts(target));
        }
    }
}

proof fn lemma_common_same(c: Seq<Part>)
    ensures
        common(c, c) == c.len(),
    decreases c.len(),
{
    if c.len() > 0 {
        lemma_common_same(c.skip(1));
    }
}

/// The given lines without surrounding white space, empty ones left out.
pub open spec fn filled(lines: Seq<Seq<char>>) -> Seq<Seq<char>>
    decreases lines.len(),
{
    if lines.len() == 0 {
        Seq::<Seq<char>>::empty()
    } else {
        let before = filled(lines.drop_last());
        let line = text::trim(lines.last());
        if line.len() == 0 {
            before
        } else {
            before.push(line)
        }
    }
}

/// The paths that a text holds, one in a line.
pub open spec fn listed(raw: Seq<char>) -> Seq<Seq<char>> {
    filled(text::split_on(raw, '\n'))
}

/// Reads the paths of a workspace, one in a line.
pub fn parse_workspace_paths(raw: &str) -> (r: Vec<String>)
    ensures
        text::texts(r@) == listed(raw@),
{
    let lines = text::split_text(raw, '\n');
    let ghost all = text::texts(lines@);
    let mut r: Vec<String> = Vec::new();
    let mut i: usize = 0;
    assert(all.take(0) == Seq::<Seq<char>>::empty());
    assert(text::texts(r@) == Seq::<Seq<char>>::empty());
    while i < lines.len()
        invariant
            i <= lines.len(),
            all == text::texts(lines@),
            text::texts(r@) == filled(all.take(i as int)),
        decreases lines.len() - i,
    {
        let line = text::trim_text(lines[i].as_str());
        let ghost before = text::texts(r@);
        proof {
            assert(all.take(i + 1).drop_last() == all.take(i as int));
            assert(all.take(i + 1).last() == lines@[i as int]@);
        }
        if !line.as_str().is_empty() {
            r.push(line);
            assert(text::texts(r@) == before.push(line@));
        }
        i = i + 1;
    }
    assert(all.take(all.len() as int) == all);
    r
}

/// The entries of `paths` at the indices of a row.
pub open spec fn picked(paths: Seq<Seq<char>>, row: Seq<int>) -> Seq<Seq<char>> {
    row.map_values(|i: int| paths[i])
}

/// The list of positions fits the number of paths.
pub open spec fn fits(order: Seq<usize>, n: nat) -> bool {
    order.len() == n && forall|i: int| 0 <= i < order.len() ==> (#[trigger] order[i]) < n
}

/// The paths in the order of display. A list that is empty or malformed, or that
/// does not fit, is passed over.
pub open spec fn ordered(paths: Seq<Seq<char>>, list: Seq<char>) -> Seq<Seq<char>> {
    match order::positions(list) {
        Some(pos) => if fits(pos, paths.len()) {
            picked(paths, order::display(pos))
        } else {
            paths
        },
        None => paths,
    }
}

/// Copies a row of strings.
pub fn copy_texts(v: &[String]) -> (r: Vec<String>)
    ensures
        r@ == v@,
{
    let mut r: Vec<String> = Vec::new();
    let mut i: usize = 0;
    while i < v.len()
        invariant
            i <= v.len(),
            r@ == v@.take(i as int),
        decreases v.len() - i,
    {
        r.push(v[i].clone());
        i = i + 1;
        assert(v@.take(i as int) == v@.take(i - 1).push(v@[i - 1]));
    }
    assert(v@.take(v@.len() as int) == v@);
    r
}

/// Puts a workspace's paths in their order of display.
pub fn reconstruct_ordered_paths(paths: &[String], paths_order_str: &str) -> (r: Vec<String>)
    ensures
        text::texts(r@) == ordered(text::texts(paths@), paths_order_str@),
{
    let order = match order::parse_positions(paths_order_str) {
        Some(order) => order,
        None => {
            return copy_texts(paths);
        },
    };
    if order.len() != paths.len() {
        return copy_texts(paths);
    }
    let mut i: usize = 0;
    while i < order.len()
        invariant
            i <= order.len() == paths.len(),
            order::positions(paths_order_str@) == Some(order@),
            forall|k: int| 0 <= k < i ==> (#[trigger] order@[k]) < paths.len(),
        decreases order.len() - i,
    {
        if order[i] >= paths.len() {
            assert(!fits(order@, paths@.len()));
            return copy_texts(paths);
        }
        i = i + 1;
    }
    let row = order::sort_by_position(order.as_slice());
    let ghost shown = order::row_of(row@);
    proof {
        order::lemma_by_position(order@, order@.len());
    }
    let mut r: Vec<String> = Vec::new();
    let mut j: usize = 0;
    while j < row.len()
        invariant
            j <= row.len(),
            shown == order::row_of(row@),
            forall|a: int| 0 <= a < shown.len() ==> 0 <= #[trigger] shown[a] < paths.len(),
            text::texts(r@) == picked(text::texts(paths@), shown.take(j as int)),
        decreases row.len() - j,
    {
        let ghost before = text::texts(r@);
        assert(0 <= shown[j as int] < paths.len());
        let p = paths[row[j]].clone();
        r.push(p);
        assert(text::texts(r@) == before.push(p@));
        j = j + 1;
        assert(shown.take(j as int) == shown.take(j - 1).push(shown[j - 1]));
        assert(text::texts(r@) == picked(text::texts(paths@), shown.take(j as int)));
    }
    assert(shown.take(shown.len() as int) == shown);
    r
}

/// The first index at which a row holds the path.
pub open spec fn place_of(row: Seq<Seq<char>>, path: Seq<char>) -> Option<usize>
    decreases row.len(),
{
    if row.len() == 0 {
        None
    } else {
        match place_of(row.drop_last(), path) {
            Some(i) => Some(i),
            None => if components::same_path(row.last(), path) {
                Some((row.len() - 1) as usize)
            } else {
                None
            },
        }
    }
}

/// The positions that the paths of `sorted` have in `shown`; paths without one are left out.
pub open spec fn places(shown: Seq<Seq<char>>, sorted: Seq<Seq<char>>) -> Seq<usize>
    decreases sorted.len(),
{
    if sorted.len() == 0 {
        Seq::<usize>::empty()
    } else {
        let before = places(shown, sorted.drop_last());
        match place_of(shown, sorted.last()) {
            Some(i) => before.push(i),
            None => before,
        }
    }
}

fn find_place(row: &[String], path: &str) -> (r: Option<usize>)
    ensures
        r == place_of(text::texts(row@), path@),
{
    let mut i: usize = 0;
    let ghost all = text::texts(row@);
    while i < row.len()
        invariant
            i <= row.len(),
            all == text::texts(row@),
            place_of(all.take(i as int), path@) is None,
        decreases row.len() - i,
    {
        proof {
            assert(all.take(i + 1).drop_last() == all.take(i as int));
            assert(all.take(i + 1).last() == row@[i as int]@);
        }
        if components::is_same_path(row[i].as_str(), path) {
            proof {
                lemma_place_of_prefix(all, i + 1, path@);
            }
            return Some(i);
        }
        i = i + 1;
    }
    assert(all.take(all.len() as int) == all);
    None
}

proof fn lemma_place_of_prefix(row: Seq<Seq<char>>, n: int, path: Seq<char>)
    requires
        0 <= n <= row.len(),
        place_of(row.take(n), path) is Some,
    ensures
        place_of(row, path) == place_of(row.take(n), path),
    decreases row.len(),
{
    if n == row.len() {
        assert(row.take(n) == row);
    } else {
        assert(row.drop_last().take(n) == row.take(n));
        lemma_place_of_prefix(row.drop_last(), n, path);
    }
}

/// Writes the list of positions for the paths in `sorted`, as `ordered` displays them.
pub fn compute_paths_order(ordered: &[String], sorted: &[String]) -> (r: String)
    ensures
        r@ == order::written_positions(places(text::texts(ordered@), text::texts(sorted@))),
{
    let ghost all = text::texts(sorted@);
    let mut found: Vec<usize> = Vec::new();
    let mut i: usize = 0;
    assert(all.take(0) == Seq::<Seq<char>>::empty());
    while i < sorted.len()
        invariant
            i <= sorted.len(),
            all == text::texts(sorted@),
            found@ == places(text::texts(ordered@), all.take(i as int)),
        decreases sorted.len() - i,
    {
        proof {
            assert(all.take(i + 1).drop_last() == all.take(i as int));
            assert(all.take(i + 1).last() == sorted@[i as int]@);
        }
        match find_place(ordered, sorted[i].as_str()) {
            Some(k) => {
                found.push(k);
            },
            None => {},
        }
        i = i + 1;
    }
    assert(all.take(all.len() as int) == all);
    order::write_positions(found.as_slice())
}

/// No two of the paths are the same.
pub open spec fn distinct(paths: Seq<Seq<char>>) -> bool {
    forall|i: int, j: int|
        0 <= i < j < paths.len() ==> !components::same_path(
            #[trigger] paths[i],
            #[trigger] paths[j],
        )
}

/// The row holds each of the first `n` indices once.
pub open spec fn is_arrangement(row: Seq<int>, n: nat) -> bool {
    &&& row.len() == n
    &&& row.no_duplicates()
    &&& forall|a: int| 0 <= a < row.len() ==> 0 <= #[trigger] row[a] < n
}

proof fn lemma_place_in_arrangement(paths: Seq<Seq<char>>, row: Seq<int>, i: int, n: int)
    requires
        distinct(paths),
        is_arrangement(row, paths.len()),
        paths.len() <= usize::MAX,
        0 <= i < paths.len(),
        0 <= n <= row.len(),
    ensures
        place_of(picked(paths, row).take(n), paths[i]) == (if row.index_of(i) < n {
            Some(row.index_of(i) as usize)
        } else {
            None::<usize>
        }),
        0 <= row.index_of(i) < row.len(),
        row[row.index_of(i)] == i,
    decreases n,
{
    order::lemma_row_complete(row, i);
    let at = row.index_of(i);
    if n > 0 {
        lemma_place_in_arrangement(paths, row, i, n - 1);
        let here = picked(paths, row).take(n);
        assert(here.drop_last() == picked(paths, row).take(n - 1));
        assert(here.last() == paths[row[n - 1]]);
        if row[n - 1] == i {
            assert(at == n - 1);
        } else {
            assert(0 <= row[n - 1] < paths.len());
            if row[n - 1] < i {
                assert(!components::same_path(paths[row[n - 1]], paths[i]));
            } else {
                assert(!components::same_path(paths[i], paths[row[n - 1]]));
            }
        }
    }
}

proof fn lemma_places_of_arrangement(paths: Seq<Seq<char>>, row: Seq<int>, n: int)
    requires
        distinct(paths),
        is_arrangement(row, paths.len()),
        paths.len() <= usize::MAX,
        0 <= n <= paths.len(),
    ensures
        places(picked(paths, row), paths.take(n)) == order::positions_in(row).take(n),
    decreases n,
{
    if n == 0 {
        assert(paths.take(0) == Seq::<Seq<char>>::empty());
        assert(order::positions_in(row).take(0) == Seq::<usize>::empty());
    } else {
        lemma_places_of_arrangement(paths, row, n - 1);
        assert(paths.take(n).drop_last() == paths.take(n - 1));
        assert(paths.take(n).last() == paths[n - 1]);
        lemma_place_in_arrangement(paths, row, n - 1, row.len() as int);
        assert(picked(paths, row).take(row.len() as int) == picked(paths, row));
        let all = order::positions_in(row);
        assert(all.take(n) == all.take(n - 1).push(all[n - 1]));
    }
}

/// Writing how distinct paths are arranged, and reading it again, gives the
/// same arrangement.
pub proof fn lemma_order_round_trip(paths: Seq<Seq<char>>, row: Seq<int>)
    requires
        distinct(paths),
        is_arrangement(row, paths.len()),
        paths.len() <= usize::MAX,
    ensures
        ordered(paths, order::written_positions(places(picked(paths, row), paths))) == picked(
            paths,
            row,
        ),
{
    let n = paths.len();
    lemma_places_of_arrangement(paths, row, n as int);
    assert(paths.take(n as int) == paths);
    let pos = order::positions_in(row);
    assert(pos.take(n as int) == pos);
    if n == 0 {
        assert(picked(paths, row) == paths);
        assert(order::written_positions(pos) == Seq::<char>::empty());
        order::lemma_empty_list();
    } else {
        order::lemma_positions_in(row);
        order::lemma_written_positions_read_back(pos);
    }
}

/// Reading a list that is a permutation, and writing how the paths are then
/// displayed, gives the same positions.
pub proof fn lemma_order_read_write(paths: Seq<Seq<char>>, list: Seq<char>)
    requires
        distinct(paths),
        order::positions(list) is Some,
        order::positions(list)->0.len() == paths.len(),
        order::is_permutation(order::positions(list)->0),
        paths.len() <= usize::MAX,
    ensures
        Some(places(ordered(paths, list), paths)) == order::positions(list),
{
    let pos = order::positions(list)->0;
    let row = order::display(pos);
    order::lemma_by_position(pos, pos.len());
    order::lemma_display_distinct(pos, row, pos.len());
    order::lemma_display_of_permutation(pos);
    lemma_places_of_arrangement(paths, row, paths.len() as int);
    assert(paths.take(paths.len() as int) == paths);
    let back = order::positions_in(row);
    assert(back.take(paths.len() as int) == back);
    assert forall|i: int| 0 <= i < pos.len() implies back[i] == pos[i] by {
        assert(row[pos[i] as int] == i);
        assert(row.contains(i));
        let at = row.index_of(i);
        assert(row[at] == i);
    }
    assert(back == pos);
}

} // verus!
