//! Laws of the operations that choose a root, and of project names.
use vstd::prelude::*;

use crate::decimal;
use crate::hook_client::{FolderCommand, Invocation};
use crate::laws::roots;
use crate::laws::roots::{ends_in, first_named};
use crate::paths;
use crate::pinning;
use crate::settings;
use crate::text;

verus! {

/// `determine_target_root`: the first root whose last component is the name of the project,
/// and no other root before it; where none is called so, the first that holds the
/// workspace file.
pub proof fn law_determine_target_root(
    list: &[String],
    project: &str,
    holds: &[bool],
    r: Option<String>,
    parsed: (Option<i64>, String),
    i: int,
)
    requires
        call_ensures(pinning::determine_target_root, (list, project, holds), r),
        call_ensures(settings::parse_project_name, (project,), parsed),
    ensures
        ({
            let all = text::texts(list@);
            let name = parsed.1@;
            let unnamed = forall|k: int| 0 <= k < all.len() ==> !ends_in(#[trigger] all[k], name);
            &&& first_named(all, name, i) ==> r is Some && r->0@ == list@[i]@
            &&& unnamed && 0 <= i < all.len() && i < holds@.len() && holds@[i] && (forall|k: int|
                0 <= k < i ==> !#[trigger] holds@[k]) ==> r is Some && r->0@ == list@[i]@
            &&& unnamed && (forall|k: int|
                0 <= k < all.len() && k < holds@.len() ==> !#[trigger] holds@[k]) ==> r is None
        }),
{
    roots::law_target_root(text::texts(list@), parsed.1@, holds@, i);
}

/// `find_primary_root`: the first root that bears the name and holds the workspace file, or
/// the first that bears the name.
pub proof fn law_find_primary_root(
    list: &[String],
    project: &str,
    holds: &[bool],
    r: Option<&str>,
    at: Option<usize>,
    parsed: (Option<i64>, String),
    i: int,
)
    requires
        call_ensures(settings::find_primary_root, (list, project, holds), r),
        call_ensures(settings::find_primary_index, (list, project, holds), at),
        call_ensures(settings::parse_project_name, (project,), parsed),
    ensures
        ({
            let all = text::texts(list@);
            let name = parsed.1@;
            let full = |k: int| ends_in(all[k], name) && k < holds@.len() && holds@[k];
            let first_full = 0 <= i < all.len() && full(i) && forall|k: int|
                0 <= k < i ==> !#[trigger] full(k);
            let none_full = forall|k: int| 0 <= k < all.len() ==> !#[trigger] full(k);
            &&& name.len() == 0 ==> r is None && at is None
            &&& name.len() > 0 && (first_full || none_full && first_named(all, name, i)) ==> r is Some
                && r->0@ == list@[i]@ && at == Some(i as usize)
            &&& (forall|k: int| 0 <= k < all.len() ==> !ends_in(#[trigger] all[k], name)) ==> r is None
                && at is None
        }),
{
    let all = text::texts(list@);
    let name = parsed.1@;
    let full = |k: int| ends_in(all[k], name) && k < holds@.len() && holds@[k];
    if forall|k: int| 0 <= k < i ==> !#[trigger] full(k) {
        assert forall|k: int| #![trigger all[k]] 0 <= k < i implies !(ends_in(all[k], name) && k
            < holds@.len() && holds@[k]) by {
            assert(!full(k));
        }
    }
    if forall|k: int| 0 <= k < all.len() ==> !#[trigger] full(k) {
        assert forall|k: int| #![trigger all[k]] 0 <= k < all.len() implies !(ends_in(all[k], name)
            && k < holds@.len() && holds@[k]) by {
            assert(!full(k));
        }
    }
    roots::law_primary_root(all, name, holds@, i);
}

/// `ensure_target_root_first`: the target comes to the front and the others keep their
/// order; nothing is due where it stands there, or is missing.
pub proof fn law_ensure_first(
    list: &[String],
    target: &str,
    r: Option<Vec<String>>,
    a: Seq<Seq<char>>,
    t: Seq<char>,
    b: Seq<Seq<char>>,
)
    requires
        call_ensures(pinning::ensure_target_root_first, (list, target), r),
        forall|i: int| 0 <= i < a.len() ==> paths::normal(#[trigger] a[i]) != paths::normal(target@),
    ensures
        text::texts(list@) == a ==> r is None,
        text::texts(list@) == a.push(t) + b && paths::normal(t) == paths::normal(target@)
            && a.len() == 0 ==> r is None,
        text::texts(list@) == a.push(t) + b && paths::normal(t) == paths::normal(target@)
            && a.len() > 0 ==> r is Some && text::texts(r->0@) == seq![t] + a + b,
{
    roots::law_pin(a, t, b, target@);
}

/// `pin_target_root` opens the folders anew in the order that `ensure_target_root_first`
/// gives, in the channel that it was handed, and does nothing where that gives none.
pub proof fn law_pin_target_root(
    list: &[String],
    target: &str,
    channel: Option<&str>,
    row: Option<Vec<String>>,
    r: Option<Invocation>,
)
    requires
        call_ensures(pinning::ensure_target_root_first, (list, target), row),
        call_ensures(pinning::pin_target_root, (list, target, channel), r),
    ensures
        r is Some <==> row is Some,
        r matches Some(i) ==> i.command == FolderCommand::Reuse && text::texts(i.paths@)
            == text::texts(row->0@) && text::opt(i.channel) == text::opt_str(channel),
{
}

/// `parse_project_name` takes back `format_project_name`: the number, and the name without
/// the ending of a workspace file.
pub proof fn law_name_back(
    id: i64,
    name: &str,
    raw: String,
    s: &str,
    r: (Option<i64>, String),
)
    requires
        call_ensures(settings::format_project_name, (id, name), raw),
        call_ensures(settings::parse_project_name, (s,), r),
        s@ == raw@ || s@ == raw@ + ".code-workspace"@,
    ensures
        raw@ == decimal::written(id as int) + seq![':'] + name@,
        r.0 == Some(id),
        s@ == raw@ + ".code-workspace"@ ==> r.1@ == name@,
        s@ == raw@ && (forall|x: Seq<char>| name@ != #[trigger] (x + ".code-workspace"@)) ==> r.1@
            == name@,
{
    roots::law_project_name(id, name@);
}

/// `parse_project_name` and `split_project_name`: what has no colon, or no number in front of
/// its first, has no number and is all name.
pub proof fn law_bare(
    s: &str,
    a: Seq<char>,
    b: Seq<char>,
    r: (Option<i64>, String),
    cut: Option<(i64, String)>,
)
    requires
        call_ensures(settings::parse_project_name, (s,), r),
        call_ensures(settings::split_project_name, (s,), cut),
        !a.contains(':'),
    ensures
        s@ == a ==> r.0 is None && r.1@ == a && cut is None,
        s@ == a + seq![':'] + b ==> r.0 == decimal::i64_of(a),
        s@ == a + seq![':'] + b && decimal::i64_of(a) is None ==> r.1@ == s@ && cut is None,
        s@ == a + seq![':'] + b && decimal::i64_of(a) is Some ==> (cut matches Some(c)
            && Some(c.0) == decimal::i64_of(a) && c.1@ == b),
{
    roots::law_bare_name(a, b);
    roots::law_colon(a, b);
    if s@ == a + seq![':'] + b {
        assert(s@.skip(a.len() + 1int) == b);
    }
}

} // verus!
