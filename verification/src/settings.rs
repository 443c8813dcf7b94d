//! The `project_name` of a workspace and the settings text that holds it.
//!
//! A project name is `{workspace_id}:{name}`. The name is the folder name of the
//! workspace's home and, with `.code-workspace` behind it, the name of its
//! workspace file. Older texts carry that suffix in the project name itself.
use vstd::prelude::*;
use vstd::slice::slice_subrange;

use crate::components;
use crate::decimal;
use crate::json;
use crate::json::{Entry, Field, Scalar};
use crate::pinning;
use crate::search;
use crate::text;

verus! {

broadcast use vstd::string::group_string_axioms;

pub open spec fn suffix() -> Seq<char> {
    ".code-workspace"@
}

/// The position of the first colon of a text, or its length where it has none.
pub open spec fn first_colon(s: Seq<char>) -> int
    decreases s.len(),
{
    if s.len() == 0 || s[0] == ':' {
        0
    } else {
        1 + first_colon(s.skip(1))
    }
}

/// A name without the suffix of workspace files.
pub open spec fn bare_name(s: Seq<char>) -> Seq<char> {
    if suffix().is_suffix_of(s) {
        s.take(s.len() - suffix().len())
    } else {
        s
    }
}

/// The workspace id that a project name starts with.
pub open spec fn id_of(raw: Seq<char>) -> Option<i64> {
    if first_colon(raw) < raw.len() {
        decimal::i64_of(raw.take(first_colon(raw)))
    } else {
        None
    }
}

/// The name that a project name ends with; all of it where it has no id.
pub open spec fn name_of(raw: Seq<char>) -> Seq<char> {
    if id_of(raw) is Some {
        bare_name(raw.skip(first_colon(raw) + 1))
    } else {
        raw
    }
}

/// The project name of a workspace.
pub open spec fn project_name(workspace_id: i64, name: Seq<char>) -> Seq<char> {
    decimal::written(workspace_id as int).push(':') + name
}

/// The workspace file of the given name in a folder.
pub open spec fn workspace_file(root: Seq<char>, name: Seq<char>) -> Seq<char> {
    components::join(root, name + suffix())
}

proof fn lemma_first_colon(s: Seq<char>, at: int)
    requires
        0 <= at <= s.len(),
        at < s.len() ==> s[at] == ':',
        forall|k: int| 0 <= k < at ==> s[k] != ':',
    ensures
        first_colon(s) == at,
    decreases at,
{
    if at > 0 {
        let t = s.skip(1);
        assert forall|k: int| 0 <= k < at - 1 implies t[k] != ':' by {
            assert(t[k] == s[k + 1]);
        }
        lemma_first_colon(t, at - 1);
        assert(s[0] != ':');
    }
}

/// A project name parses back into the id and the name that it was made of;
/// a name that ends in the suffix of workspace files comes back without it.
pub proof fn lemma_project_name_round_trip(workspace_id: i64, name: Seq<char>)
    ensures
        id_of(project_name(workspace_id, name)) == Some(workspace_id),
        name_of(project_name(workspace_id, name)) == bare_name(name),
        !suffix().is_suffix_of(name) ==> name_of(project_name(workspace_id, name)) == name,
{
    let d = decimal::written(workspace_id as int);
    let raw = project_name(workspace_id, name);
    decimal::lemma_written_reads_back(workspace_id as int);
    assert forall|k: int| 0 <= k < d.len() implies raw[k] != ':' by {
        let n = if workspace_id < 0 {
            (-workspace_id) as nat
        } else {
            workspace_id as nat
        };
        decimal::lemma_digits_of(n);
        assert(raw[k] == d[k]);
        if workspace_id < 0 {
            if k > 0 {
                assert(decimal::is_digit(decimal::digits_of(n)[k - 1]));
            }
        } else {
            assert(decimal::is_digit(decimal::digits_of(n)[k]));
        }
    }
    lemma_first_colon(raw, d.len() as int);
    assert(raw.take(d.len() as int) == d);
    assert(raw.skip(d.len() as int + 1) == name);
}

/// A name without the suffix of workspace files.
fn strip_suffix(s: &str) -> (r: String)
    ensures
        r@ == bare_name(s@),
{
    if text::ends_with_text(s, ".code-workspace") {
        let v = text::chars_of(s);
        let n: usize = v.len() - text::chars_of(".code-workspace").len();
        assert(v@.subrange(0, n as int) == v@.take(n as int));
        text::text_of(slice_subrange(v.as_slice(), 0, n))
    } else {
        s.to_string()
    }
}

/// Splits a project name behind its first colon, where a workspace id stands before it.
pub fn split_project_name(raw: &str) -> (r: Option<(i64, String)>)
    ensures
        match id_of(raw@) {
            Some(id) => r matches Some(p) && p.0 == id && p.1@ == raw@.skip(
                first_colon(raw@) + 1,
            ),
            None => r is None,
        },
{
    let v = text::chars_of(raw);
    match text::find_char(v.as_slice(), ':') {
        Some(at) => {
            proof {
                assert forall|k: int| 0 <= k < at implies raw@[k] != ':' by {
                    assert(raw@.take(at as int)[k] == raw@[k]);
                }
                lemma_first_colon(raw@, at as int);
                assert(v@.subrange(0, at as int) == v@.take(at as int));
                assert(v@.subrange(at + 1, v@.len() as int) == v@.skip(at + 1));
            }
            let id_part = text::text_of(slice_subrange(v.as_slice(), 0, at));
            match decimal::parse_i64(id_part.as_str()) {
                Some(id) => {
                    let n: usize = v.len();
                    Some((id, text::text_of(slice_subrange(v.as_slice(), at + 1, n))))
                },
                None => None,
            }
        },
        None => {
            proof {
                lemma_first_colon(raw@, raw@.len() as int);
            }
            None
        },
    }
}

/// Parses a project name into the workspace id and the name.
pub fn parse_project_name(raw: &str) -> (r: (Option<i64>, String))
    ensures
        r.0 == id_of(raw@),
        r.1@ == name_of(raw@),
{
    match split_project_name(raw) {
        Some((id, name)) => (Some(id), strip_suffix(name.as_str())),
        None => (None, raw.to_string()),
    }
}

/// Formats the project name of a workspace.
pub fn format_project_name(workspace_id: i64, name: &str) -> (r: String)
    ensures
        r@ == project_name(workspace_id, name@),
{
    let mut r = decimal::write_i64(workspace_id);
    r.push(':');
    r.append(name);
    r
}

/// The path of the workspace file of the given name in a folder.
pub fn workspace_file_for_name(root: &str, name: &str) -> (r: String)
    ensures
        r@ == workspace_file(root@, name@),
{
    let mut file = name.to_string();
    file.append(".code-workspace");
    components::join_path(root, file.as_str())
}

/// The key that holds the project name in a settings text.
pub open spec fn key() -> Seq<char> {
    "project_name"@
}

/// The path of a folder's settings.
pub open spec fn settings_path(root: Seq<char>) -> Seq<char> {
    components::join(components::join(root, ".zed"@), "settings.json"@)
}

/// The project name that the entries of a settings text hold.
pub open spec fn name_in(m: json::Entries) -> Option<Seq<char>> {
    if m.contains_key(key()) && m[key()] is Text {
        Some(m[key()]->Text_0)
    } else {
        None
    }
}

/// The project name that a settings text holds.
pub open spec fn project_name_in(content: Seq<char>) -> Option<Seq<char>> {
    match json::object_in(content) {
        Some(m) => name_in(m),
        None => None,
    }
}

/// The entries of a settings text; none where it is missing or denotes no object.
pub open spec fn settings_in(content: Option<Seq<char>>) -> json::Entries {
    match content {
        Some(t) => match json::object_in(t) {
            Some(m) => m,
            None => json::no_entries(),
        },
        None => json::no_entries(),
    }
}

/// A settings text with the project name set and every other entry as it was.
pub open spec fn named_settings(content: Option<Seq<char>>, name: Seq<char>) -> Seq<char> {
    json::pretty(settings_in(content).insert(key(), Entry::Text(name)))
}

/// The text is that of settings with the given entries: it parses as JSON and holds
/// them and no others, unless they hold a number that does not survive being
/// written and read. With such a number, where the text parses, it holds the same
/// keys, with the same values but for those with such a number.
pub open spec fn holds_settings(content: Seq<char>, m: json::Entries) -> bool {
    &&& json::steady(m) ==> json::object_in(content) == Some(m)
    &&& json::parsed(content) is Ok ==> json::object_in(content) is Some && json::reads_back(
        m,
        json::object_in(content)->0,
    )
}

/// The path of a folder's settings.
pub fn settings_file(root: &str) -> (r: String)
    ensures
        r@ == settings_path(root@),
{
    components::join_path(components::join_path(root, ".zed").as_str(), "settings.json")
}

/// Reads the project name from a settings text.
pub fn read_project_name(content: &str) -> (r: Option<String>)
    ensures
        match project_name_in(content@) {
            Some(n) => r matches Some(t) && t@ == n,
            None => r is None,
        },
{
    match json::parse_object(content) {
        Ok(Some(m)) => match json::get(&m, "project_name") {
            Some(Field::Text(t)) => Some(t),
            _ => None,
        },
        _ => None,
    }
}

/// The text is a settings text with the project name set: it parses as JSON, holds
/// the project name and every other entry as it was, and no more, unless the
/// settings hold a number that does not survive being written and read.
pub open spec fn is_named(content: Option<Seq<char>>, name: Seq<char>, r: Seq<char>) -> bool {
    &&& r == named_settings(content, name)
    &&& holds_settings(r, settings_in(content).insert(key(), Entry::Text(name)))
    &&& json::steady(settings_in(content)) ==> json::object_in(r) == Some(
        settings_in(content).insert(key(), Entry::Text(name)),
    )
    &&& json::steady(settings_in(content)) || json::parsed(r) is Ok ==> project_name_in(r) == Some(
        name,
    )
}

/// The settings text with the project name set, given the current text where
/// there is one; every other entry is as it was, and there are no more.
pub fn write_project_name(content: Option<&str>, project_name: &str) -> (r: String)
    ensures
        is_named(text::opt_str(content), project_name@, r@),
{
    let mut m = match content {
        Some(t) => match json::parse_object(t) {
            Ok(Some(m)) => m,
            _ => json::new_object(),
        },
        None => json::new_object(),
    };
    let ghost before = json::entries(m);
    json::put(&mut m, "project_name", Scalar::Text(project_name.to_string()));
    proof {
        let after = before.insert(key(), Entry::Text(project_name@));
        assert(after.contains_key(key()) && after[key()] == Entry::Text(project_name@));
        json::lemma_edited(before, key(), project_name@);
    }
    json::to_pretty(&m).unwrap()
}

/// The settings texts of several folders with the project name set in each.
pub fn write_project_name_to_roots(contents: &[Option<String>], project_name: &str) -> (r: Vec<
    String,
>)
    ensures
        r@.len() == contents@.len(),
        forall|i: int|
            0 <= i < r@.len() ==> is_named(
                content_at(contents@, i),
                project_name@,
                (#[trigger] r@[i])@,
            ),
{
    let mut r: Vec<String> = Vec::new();
    let mut i: usize = 0;
    while i < contents.len()
        invariant
            i <= contents.len(),
            r@.len() == i,
            forall|k: int|
                0 <= k < i ==> is_named(
                    content_at(contents@, k),
                    project_name@,
                    (#[trigger] r@[k])@,
                ),
        decreases contents.len() - i,
    {
        let content = text::borrow_opt(&contents[i]);
        assert(text::opt_str(content) == content_at(contents@, i as int));
        r.push(write_project_name(content, project_name));
        i = i + 1;
    }
    r
}

/// The text at an index of a row of optional texts.
pub open spec fn content_at(contents: Seq<Option<String>>, i: int) -> Option<Seq<char>> {
    if i < contents.len() {
        text::opt(contents[i])
    } else {
        None
    }
}

/// The folder of a root has the given name.
pub open spec fn bears(root: Seq<char>, name: Seq<char>) -> bool {
    components::file_name(root) == Some(name)
}

/// Whether the folder of a root has the given name.
pub fn bears_name(root: &str, name: &str) -> (r: bool)
    ensures
        r == bears(root@, name@),
{
    match components::file_name_of(root) {
        Some(folder) => text::text_eq(folder.as_str(), name),
        None => false,
    }
}

/// The root at an index has the given folder name and holds its workspace file.
pub open spec fn is_full_match(
    roots: Seq<Seq<char>>,
    name: Seq<char>,
    holds_file: Seq<bool>,
) -> spec_fn(int) -> bool {
    |i: int| components::file_name(roots[i]) == Some(name) && pinning::flag(holds_file, i)
}

/// The index of the primary root: the first root named like the project that
/// holds the workspace file, else the first one named like the project.
pub open spec fn primary_root(
    roots: Seq<Seq<char>>,
    name: Seq<char>,
    holds_file: Seq<bool>,
) -> Option<int> {
    if name.len() == 0 {
        None
    } else {
        match search::first(roots.len(), is_full_match(roots, name, holds_file)) {
            Some(i) => Some(i),
            None => search::first(roots.len(), pinning::is_named(roots, name)),
        }
    }
}

/// The primary root of a project is a root that bears its name.
pub proof fn lemma_primary_root(
    roots: Seq<Seq<char>>,
    name: Seq<char>,
    holds_file: Seq<bool>,
)
    ensures
        primary_root(roots, name, holds_file) matches Some(i) ==> 0 <= i < roots.len() && bears(
            roots[i],
            name,
        ),
{
    search::lemma_first(roots.len(), is_full_match(roots, name, holds_file));
    search::lemma_first(roots.len(), pinning::is_named(roots, name));
}

/// Finds the index of the primary root of a project, see `find_primary_root`.
pub fn find_primary_index(
    roots: &[String],
    project_name: &str,
    holds_workspace_file: &[bool],
) -> (r: Option<usize>)
    ensures
        match primary_root(
            text::texts(roots@),
            name_of(project_name@),
            holds_workspace_file@,
        ) {
            Some(i) => 0 <= i < roots@.len() && (r matches Some(k) && k == i),
            None => r is None,
        },
{
    let (_, name) = parse_project_name(project_name);
    if name.as_str().is_empty() {
        return None;
    }
    let ghost all = text::texts(roots@);
    let ghost full = is_full_match(all, name@, holds_workspace_file@);
    let ghost named = pinning::is_named(all, name@);
    let mut folder_match: Option<usize> = None;
    let mut i: usize = 0;
    while i < roots.len()
        invariant
            i <= roots.len(),
            name@ == name_of(project_name@),
            name@.len() > 0,
            all == text::texts(roots@),
            full == is_full_match(all, name@, holds_workspace_file@),
            named == pinning::is_named(all, name@),
            forall|k: int| 0 <= k < i ==> !#[trigger] full(k),
            match folder_match {
                Some(j) => j < i && named(j as int) && forall|k: int|
                    0 <= k < j ==> !#[trigger] named(k),
                None => forall|k: int| 0 <= k < i ==> !#[trigger] named(k),
            },
        decreases roots.len() - i,
    {
        if let Some(folder) = components::file_name_of(roots[i].as_str()) {
            if text::text_eq(folder.as_str(), name.as_str()) {
                if i < holds_workspace_file.len() && holds_workspace_file[i] {
                    proof {
                        assert(full(i as int));
                        search::lemma_first_is(all.len(), full, i as int);
                    }
                    return Some(i);
                }
                assert(named(i as int));
                if folder_match.is_none() {
                    folder_match = Some(i);
                }
            }
        }
        i = i + 1;
    }
    proof {
        search::lemma_first(all.len(), full);
        search::lemma_first(all.len(), named);
        if let Some(j) = folder_match {
            search::lemma_first_is(all.len(), named, j as int);
        }
    }
    folder_match
}

/// Finds the primary root of a project.
///
/// `holds_workspace_file` says of each root whether the file
/// `workspace_file_for_name(root, name)` exists, where `name` is the name
/// portion of the project name.
pub fn find_primary_root<'a>(
    roots: &'a [String],
    project_name: &str,
    holds_workspace_file: &[bool],
) -> (r: Option<&'a str>)
    ensures
        match primary_root(
            text::texts(roots@),
            name_of(project_name@),
            holds_workspace_file@,
        ) {
            Some(i) => 0 <= i < roots@.len() && (r matches Some(p) && p@ == roots@[i]@),
            None => r is None,
        },
{
    match find_primary_index(roots, project_name, holds_workspace_file) {
        Some(i) => Some(roots[i].as_str()),
        None => None,
    }
}

/// What becomes of a folder's settings when a stale project name is cleaned up.
#[derive(Debug)]
pub enum Cleanup {
    /// The settings stay as they are.
    Keep,
    /// Nothing but the project name was in them: the file is removed.
    RemoveFile,
    /// The text is replaced.
    Rewrite(String),
}

/// How cleaning up treats the settings of a folder: a rewritten text holds no project
/// name, and every other entry as it was.
pub open spec fn is_cleanup(
    root: Seq<char>,
    primary: Seq<char>,
    content: Option<Seq<char>>,
    c: Cleanup,
) -> bool {
    let m = settings_in(content);
    if components::same_path(root, primary) || !m.contains_key(key()) {
        c is Keep
    } else if m.remove(key()) == json::no_entries() {
        c is RemoveFile
    } else {
        c matches Cleanup::Rewrite(t) && {
            &&& t@ == json::pretty(m.remove(key()))
            &&& holds_settings(t@, m.remove(key()))
            &&& json::steady(m) ==> json::object_in(t@) == Some(m.remove(key()))
            &&& project_name_in(t@) is None
        }
    }
}

/// Decides how the settings of one folder are cleaned up.
pub fn cleanup_stale_project_name(root: &str, primary_root: &str, content: Option<&str>) -> (c:
    Cleanup)
    ensures
        is_cleanup(root@, primary_root@, text::opt_str(content), c),
{
    if components::is_same_path(root, primary_root) {
        return Cleanup::Keep;
    }
    match content {
        Some(t) => match json::parse_object(t) {
            Ok(Some(m)) => {
                let mut m = m;
                let ghost before = json::entries(m);
                if !json::take_out(&mut m, "project_name") {
                    return Cleanup::Keep;
                }
                if json::is_empty(&m) {
                    return Cleanup::RemoveFile;
                }
                proof {
                    assert(!before.remove(key()).contains_key(key()));
                    json::lemma_edited(before, key(), Seq::<char>::empty());
                }
                Cleanup::Rewrite(json::to_pretty(&m).unwrap())
            },
            _ => Cleanup::Keep,
        },
        None => Cleanup::Keep,
    }
}

/// Decides how the settings of all folders but the primary root are cleaned up.
pub fn cleanup_stale_project_names(
    roots: &[String],
    primary_root: &str,
    contents: &[Option<String>],
) -> (r: Vec<Cleanup>)
    ensures
        r@.len() == roots@.len(),
        forall|i: int|
            0 <= i < r@.len() ==> is_cleanup(
                roots@[i]@,
                primary_root@,
                content_at(contents@, i),
                #[trigger] r@[i],
            ),
{
    let mut r: Vec<Cleanup> = Vec::new();
    let mut i: usize = 0;
    while i < roots.len()
        invariant
            i <= roots.len(),
            r@.len() == i,
            forall|k: int|
                0 <= k < i ==> is_cleanup(
                    roots@[k]@,
                    primary_root@,
                    content_at(contents@, k),
                    #[trigger] r@[k],
                ),
        decreases roots.len() - i,
    {
        let content = if i < contents.len() {
            text::borrow_opt(&contents[i])
        } else {
            None
        };
        assert(text::opt_str(content) == content_at(contents@, i as int));
        r.push(cleanup_stale_project_name(roots[i].as_str(), primary_root, content));
        i = i + 1;
    }
    r
}

} // verus!
