//! Telling the SQL by which Zed writes a workspace.
use vstd::prelude::*;
use vstd::utf8::encode_utf8;

use crate::text;

verus! {

broadcast use vstd::string::group_string_axioms;

/// There is no workspace file, and no search for one: no SQL is looked at.
pub const TARGET_NONE: u8 = 0;

/// There is a workspace file to keep in step.
pub const TARGET_SET: u8 = 1;

/// The workspace file has yet to be discovered.
pub const TARGET_PENDING: u8 = 2;

/// The small form of an ASCII letter.
pub open spec fn small(c: char) -> char {
    if 'A' <= c <= 'Z' {
        (c as int + 32) as char
    } else {
        c
    }
}

/// `pat` stands in `s` at `at`, but for the case of ASCII letters.
pub open spec fn occurs_loosely(pat: Seq<char>, s: Seq<char>, at: int) -> bool {
    0 <= at <= s.len() - pat.len() && forall|k: int|
        0 <= k < pat.len() ==> small(#[trigger] s[at + k]) == small(pat[k])
}

/// `pat` stands somewhere in `s`, but for the case of ASCII letters.
pub open spec fn holds_loosely(pat: Seq<char>, s: Seq<char>) -> bool {
    exists|at: int| occurs_loosely(pat, s, at)
}

/// The SQL inserts, updates or deletes, is at least 20 bytes long, and speaks of
/// workspaces.
pub open spec fn writes_workspace(sql: Seq<char>) -> bool {
    let s = text::trim_start(sql);
    &&& encode_utf8(s).len() >= 20
    &&& occurs_loosely("INSERT "@, s, 0) || occurs_loosely("UPDATE "@, s, 0) || occurs_loosely(
        "DELETE "@,
        s,
        0,
    )
    &&& holds_loosely("workspaces"@, s)
}

fn small_of(c: char) -> (r: char)
    ensures
        r == small(c),
{
    if 'A' <= c && c <= 'Z' {
        ((c as u8) + 32) as char
    } else {
        c
    }
}

fn stands_at(pat: &[char], s: &[char], at: usize) -> (r: bool)
    requires
        at <= s@.len(),
    ensures
        r == occurs_loosely(pat@, s@, at as int),
{
    if pat.len() > s.len() - at {
        return false;
    }
    let mut k: usize = 0;
    while k < pat.len()
        invariant
            k <= pat.len() <= s.len() - at,
            forall|j: int| 0 <= j < k ==> small(#[trigger] s@[at + j]) == small(pat@[j]),
        decreases pat.len() - k,
    {
        if small_of(s[at + k]) != small_of(pat[k]) {
            assert(small(s@[at + k]) != small(pat@[k as int]));
            return false;
        }
        k = k + 1;
    }
    true
}

/// Whether SQL writes a workspace of Zed's.
pub fn is_workspace_write(sql: &str) -> (r: bool)
    ensures
        r == writes_workspace(sql@),
{
    let all = text::chars_of(sql);
    let s = text::trim_start_chars(all.as_slice());
    let trimmed = text::text_of(s);
    if trimmed.as_str().as_bytes().len() < 20 {
        return false;
    }
    let insert = text::chars_of("INSERT ");
    let update = text::chars_of("UPDATE ");
    let delete = text::chars_of("DELETE ");
    if !stands_at(insert.as_slice(), s, 0) && !stands_at(update.as_slice(), s, 0) && !stands_at(
        delete.as_slice(),
        s,
        0,
    ) {
        return false;
    }
    let table = text::chars_of("workspaces");
    let mut at: usize = 0;
    loop
        invariant
            at <= s.len(),
            s@ == text::trim_start(sql@),
            table@ == "workspaces"@,
            encode_utf8(s@).len() >= 20,
            occurs_loosely("INSERT "@, s@, 0) || occurs_loosely("UPDATE "@, s@, 0)
                || occurs_loosely("DELETE "@, s@, 0),
            forall|k: int| 0 <= k < at ==> !occurs_loosely("workspaces"@, s@, k),
        decreases s.len() - at,
    {
        if stands_at(table.as_slice(), s, at) {
            return true;
        }
        if at == s.len() {
            return false;
        }
        at = at + 1;
    }
}

/// White space in front of SQL makes no difference.
pub proof fn lemma_leading_space(space: Seq<char>, sql: Seq<char>)
    requires
        forall|k: int| 0 <= k < space.len() ==> text::is_white(#[trigger] space[k]),
    ensures
        writes_workspace(space + sql) == writes_workspace(sql),
    decreases space.len(),
{
    if space.len() == 0 {
        assert(space + sql == sql);
    } else {
        assert((space + sql)[0] == space[0]);
        assert((space + sql).skip(1) == space.skip(1) + sql);
        assert forall|k: int| 0 <= k < space.skip(1).len() implies text::is_white(
            #[trigger] space.skip(1)[k],
        ) by {
            assert(space.skip(1)[k] == space[k + 1]);
        }
        lemma_leading_space(space.skip(1), sql);
    }
}

/// Looks at SQL that Zed prepares: in which state it matters at all.
pub fn should_inspect(state: u8) -> (r: bool)
    ensures
        r == (state != TARGET_NONE),
{
    state != TARGET_NONE
}

} // verus!
