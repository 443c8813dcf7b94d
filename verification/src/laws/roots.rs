//! Laws of project names, of the root that a project is named after, and of pinning it.
use vstd::prelude::*;

use crate::components;
use crate::components::Part;
use crate::decimal;
use crate::paths;
use crate::pinning;
use crate::search;
use crate::settings;

verus! {

broadcast use vstd::string::group_string_axioms;

/// The last component of a path is the given name.
pub open spec fn ends_in(path: Seq<char>, name: Seq<char>) -> bool {
    let c = components::components(path);
    c.len() > 0 && c[c.len() - 1] == Part::Normal(name)
}

/// The root at an index is the first whose last component is the name.
pub open spec fn first_named(roots: Seq<Seq<char>>, name: Seq<char>, i: int) -> bool {
    &&& 0 <= i < roots.len() && ends_in(roots[i], name)
    &&& forall|k: int| 0 <= k < i ==> !ends_in(#[trigger] roots[k], name)
}

/// The target root is the first whose folder has the project's name; where none has,
/// the first that holds the project's workspace file; where none does, there is none.
pub proof fn law_target_root(roots: Seq<Seq<char>>, name: Seq<char>, holds: Seq<bool>, i: int)
    ensures
        first_named(roots, name, i) ==> pinning::target_root(roots, name, holds) == Some(roots[i]),
        (forall|k: int| 0 <= k < roots.len() ==> !ends_in(#[trigger] roots[k], name)) && 0 <= i
            < roots.len() && i < holds.len() && holds[i] && (forall|k: int|
            0 <= k < i ==> !#[trigger] holds[k]) ==> pinning::target_root(roots, name, holds)
            == Some(roots[i]),
        (forall|k: int| 0 <= k < roots.len() ==> !ends_in(#[trigger] roots[k], name)) && (forall|
            k: int,
        |
            0 <= k < roots.len() && k < holds.len() ==> !#[trigger] holds[k])
            ==> pinning::target_root(roots, name, holds) is None,
{
    let named = pinning::is_named(roots, name);
    let flagged = pinning::is_flagged(holds);
    assert forall|k: int| 0 <= k < roots.len() implies #[trigger] named(k) == ends_in(
        roots[k],
        name,
    ) by {}
    search::lemma_first(roots.len(), named);
    search::lemma_first(roots.len(), flagged);
    if first_named(roots, name, i) {
        assert(named(i));
        search::lemma_first_is(roots.len(), named, i);
    } else if forall|k: int| 0 <= k < roots.len() ==> !ends_in(#[trigger] roots[k], name) {
        if let Some(k) = search::first(roots.len(), named) {
            assert(named(k));
            assert(ends_in(roots[k], name));
        }
        if 0 <= i < roots.len() && i < holds.len() && holds[i] && (forall|k: int|
            0 <= k < i ==> !#[trigger] holds[k]) {
            assert forall|k: int| 0 <= k < i implies !#[trigger] flagged(k) by {
                assert(!holds[k]);
            }
            assert(flagged(i));
            search::lemma_first_is(roots.len(), flagged, i);
        }
        if forall|k: int| 0 <= k < roots.len() && k < holds.len() ==> !#[trigger] holds[k] {
            if let Some(k) = search::first(roots.len(), flagged) {
                assert(flagged(k));
                assert(!holds[k]);
            }
        }
    }
}

/// The primary root is the first whose folder has the project's name and that holds
/// the workspace file; where no such root holds it, the first whose folder has the
/// name; where none has, or the name is empty, there is none.
pub proof fn law_primary_root(roots: Seq<Seq<char>>, name: Seq<char>, holds: Seq<bool>, i: int)
    ensures
        name.len() == 0 ==> settings::primary_root(roots, name, holds) is None,
        name.len() > 0 && 0 <= i < roots.len() && ends_in(roots[i], name) && i < holds.len()
            && holds[i] && (forall|k: int|
            #![trigger roots[k]]
            0 <= k < i ==> !(ends_in(roots[k], name) && k < holds.len() && holds[k]))
            ==> settings::primary_root(roots, name, holds) == Some(i),
        name.len() > 0 && first_named(roots, name, i) && (forall|k: int|
            #![trigger roots[k]]
            0 <= k < roots.len() ==> !(ends_in(roots[k], name) && k < holds.len() && holds[k]))
            ==> settings::primary_root(roots, name, holds) == Some(i),
        (forall|k: int| 0 <= k < roots.len() ==> !ends_in(#[trigger] roots[k], name))
            ==> settings::primary_root(roots, name, holds) is None,
{
    let named = pinning::is_named(roots, name);
    let full = settings::is_full_match(roots, name, holds);
    assert forall|k: int| 0 <= k < roots.len() implies #[trigger] named(k) == ends_in(
        roots[k],
        name,
    ) by {}
    assert forall|k: int| 0 <= k < roots.len() implies #[trigger] full(k) == (ends_in(roots[k], name)
        && k < holds.len() && holds[k]) by {}
    search::lemma_first(roots.len(), named);
    search::lemma_first(roots.len(), full);
    if name.len() > 0 && 0 <= i < roots.len() && ends_in(roots[i], name) && i < holds.len()
        && holds[i] && (forall|k: int|
        #![trigger roots[k]]
        0 <= k < i ==> !(ends_in(roots[k], name) && k < holds.len() && holds[k])) {
        assert(full(i));
        assert forall|k: int| 0 <= k < i implies !#[trigger] full(k) by {
            assert(!(ends_in(roots[k], name) && k < holds.len() && holds[k]));
        }
        search::lemma_first_is(roots.len(), full, i);
    }
    if forall|k: int|
        #![trigger roots[k]]
        0 <= k < roots.len() ==> !(ends_in(roots[k], name) && k < holds.len() && holds[k]) {
        if let Some(k) = search::first(roots.len(), full) {
            assert(full(k));
            assert(!(ends_in(roots[k], name) && k < holds.len() && holds[k]));
        }
        if first_named(roots, name, i) {
            assert(named(i));
            search::lemma_first_is(roots.len(), named, i);
        }
    }
    if forall|k: int| 0 <= k < roots.len() ==> !ends_in(#[trigger] roots[k], name) {
        if let Some(k) = search::first(roots.len(), full) {
            assert(full(k));
            assert(!ends_in(roots[k], name));
        }
        if let Some(k) = search::first(roots.len(), named) {
            assert(named(k));
            assert(!ends_in(roots[k], name));
        }
    }
}

/// Pinning moves the target from behind others to their front and leaves those in
/// their order; it has nothing to do where the target is first or not there.
pub proof fn law_pin(
    a: Seq<Seq<char>>,
    t: Seq<char>,
    b: Seq<Seq<char>>,
    target: Seq<char>,
)
    requires
        forall|i: int| 0 <= i < a.len() ==> paths::normal(#[trigger] a[i]) != paths::normal(target),
    ensures
        pinning::pinned(a, target) is None,
        paths::normal(t) == paths::normal(target) ==> pinning::pinned(a.push(t) + b, target) == (
        if a.len() == 0 {
            None
        } else {
            Some(seq![t] + a + b)
        }),
{
    let p = pinning::is_path(a, target);
    search::lemma_first(a.len(), p);
    if let Some(k) = search::first(a.len(), p) {
        assert(p(k));
        assert(paths::normal(a[k]) != paths::normal(target));
    }
    if paths::normal(t) == paths::normal(target) {
        let row = a.push(t) + b;
        let q = pinning::is_path(row, target);
        let n = a.len() as int;
        assert(row[n] == t);
        assert(q(n));
        assert forall|k: int| 0 <= k < n implies !#[trigger] q(k) by {
            assert(row[k] == a[k]);
        }
        search::lemma_first_is(row.len(), q, n);
        if n > 0 {
            assert(row.remove(n) == a + b);
            assert(seq![row[n]] + row.remove(n) == seq![t] + a + b);
        }
    }
}

/// A project name that starts with a number and a colon has that number, and the rest
/// as its name, less the ending of workspace files; only the first colon counts.
pub proof fn law_project_name(id: i64, name: Seq<char>)
    ensures
        ({
            let raw = decimal::written(id as int) + seq![':'] + name;
            &&& settings::project_name(id, name) == raw
            &&& settings::id_of(raw) == Some(id)
            &&& settings::name_of(raw + ".code-workspace"@) == name
            &&& settings::id_of(raw + ".code-workspace"@) == Some(id)
            &&& (forall|x: Seq<char>| name != #[trigger] (x + ".code-workspace"@))
                ==> settings::name_of(raw) == name
        }),
{
    let end = ".code-workspace"@;
    let raw = decimal::written(id as int) + seq![':'] + name;
    assert(raw == settings::project_name(id, name));
    settings::lemma_project_name_round_trip(id, name);
    let long = name + end;
    assert(raw + end == settings::project_name(id, long));
    settings::lemma_project_name_round_trip(id, long);
    assert(end.is_suffix_of(long));
    assert(long.take(long.len() - end.len()) == name);
    if forall|x: Seq<char>| name != #[trigger] (x + end) {
        if end.is_suffix_of(name) {
            let x = name.take(name.len() - end.len());
            assert(name == x + end);
        }
    }
}

/// A text without a colon, and one whose part in front of its first colon is no number,
/// is a name without a number, and all of it.
pub proof fn law_bare_name(a: Seq<char>, b: Seq<char>)
    requires
        !a.contains(':'),
    ensures
        settings::id_of(a) is None,
        settings::name_of(a) == a,
        settings::id_of(a + seq![':'] + b) == decimal::i64_of(a),
        decimal::i64_of(a) is None ==> settings::name_of(a + seq![':'] + b) == a + seq![':'] + b,
{
    law_colon(a, b);
    let raw = a + seq![':'] + b;
    assert(raw.take(a.len() as int) == a);
}

/// The first colon of a text stands behind all that holds none.
pub proof fn law_colon(a: Seq<char>, b: Seq<char>)
    requires
        !a.contains(':'),
    ensures
        settings::first_colon(a) == a.len(),
        settings::first_colon(a + seq![':'] + b) == a.len(),
    decreases a.len(),
{
    let raw = a + seq![':'] + b;
    if a.len() > 0 {
        assert(a[0] != ':');
        assert forall|i: int| 0 <= i < a.skip(1).len() implies a.skip(1)[i] != ':' by {
            assert(a[i + 1] != ':');
        }
        law_colon(a.skip(1), b);
        assert(raw.skip(1) == a.skip(1) + seq![':'] + b);
        assert(raw[0] == a[0]);
    } else {
        assert(raw[0] == ':');
    }
}

} // verus!
