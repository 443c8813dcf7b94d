//! What Zed's workspace database holds: its records, the keys by which they are
//! found, and where the database lies.
use vstd::prelude::*;

use crate::components;
use crate::order;
use crate::paths;
use crate::pinning;
use crate::search;
use crate::text;
use crate::workspace_file;

verus! {

broadcast use vstd::string::group_string_axioms;

/// Why the database cannot be read.
#[derive(Debug, PartialEq, Eq)]
pub enum Error {
    /// There is no database at, or in, the path.
    NotFound(String),
    /// The home directory is not known.
    NoDataDir,
}

/// A workspace of Zed's database.
#[derive(Debug, Clone)]
pub struct WorkspaceRecord {
    pub workspace_id: i64,
    /// The paths in lexicographic order.
    pub paths: Vec<String>,
    /// The position on display of the path at each index.
    pub paths_order: Vec<usize>,
    pub timestamp: String,
    /// The workspace file, where the database knows it.
    pub workspace_file_path: Option<String>,
}

/// The paths in the order of display; positions that do not fit are passed over.
pub open spec fn displayed(paths: Seq<Seq<char>>, pos: Seq<usize>) -> Seq<Seq<char>> {
    if paths::fits(pos, paths.len()) {
        paths::picked(paths, order::display(pos))
    } else {
        paths
    }
}

/// The positions that a list holds; an empty or malformed list holds none.
pub open spec fn stored_positions(list: Seq<char>) -> Seq<usize> {
    match order::positions(list) {
        Some(pos) => pos,
        None => Seq::<usize>::empty(),
    }
}

/// A record displays its paths as its row of the database says.
pub proof fn lemma_displayed(paths: Seq<Seq<char>>, list: Seq<char>)
    ensures
        displayed(paths, stored_positions(list)) == paths::ordered(paths, list),
{
    let pos = stored_positions(list);
    if pos.len() == 0 && paths.len() == 0 {
        assert(paths::picked(paths, order::display(pos)) == paths);
    }
}

impl WorkspaceRecord {
    /// The paths of the workspace in the order of display.
    pub fn ordered_paths(&self) -> (r: Vec<String>)
        ensures
            text::texts(r@) == displayed(text::texts(self.paths@), self.paths_order@),
    {
        let list = order::write_positions(self.paths_order.as_slice());
        proof {
            let all = text::texts(self.paths@);
            if self.paths_order@.len() > 0 {
                order::lemma_written_positions_read_back(self.paths_order@);
            } else {
                assert(list@ == Seq::<char>::empty());
                order::lemma_empty_list();
                if all.len() == 0 {
                    assert(paths::picked(all, order::display(self.paths_order@)) == all);
                }
            }
        }
        paths::reconstruct_ordered_paths(self.paths.as_slice(), list.as_str())
    }
}

/// The record of a row of the database.
pub fn record_from_row(
    workspace_id: i64,
    paths_str: &str,
    paths_order_str: &str,
    timestamp: &str,
) -> (r: WorkspaceRecord)
    ensures
        r.workspace_id == workspace_id,
        text::texts(r.paths@) == paths::listed(paths_str@),
        r.paths_order@ == stored_positions(paths_order_str@),
        r.timestamp@ == timestamp@,
        r.workspace_file_path is None,
{
    let paths_order: Vec<usize> = match order::parse_positions(paths_order_str) {
        Some(order) => order,
        None => Vec::new(),
    };
    WorkspaceRecord {
        workspace_id,
        paths: paths::parse_workspace_paths(paths_str),
        paths_order,
        timestamp: timestamp.to_string(),
        workspace_file_path: None,
    }
}

/// Puts a text into a sorted row, behind its equals.
pub open spec fn put_text(row: Seq<Seq<char>>, t: Seq<char>) -> Seq<Seq<char>>
    decreases row.len(),
{
    if row.len() > 0 && text::text_less(t, row.last()) {
        put_text(row.drop_last(), t).push(row.last())
    } else {
        row.push(t)
    }
}

/// A list of texts in lexicographic order.
pub open spec fn sorted_texts(list: Seq<Seq<char>>) -> Seq<Seq<char>>
    decreases list.len(),
{
    if list.len() == 0 {
        list
    } else {
        put_text(sorted_texts(list.drop_last()), list.last())
    }
}

/// The text under which Zed stores a set of folders: their normalized paths in
/// lexicographic order, one in a line.
pub open spec fn key_of(folders: Seq<Seq<char>>) -> Seq<char> {
    text::join_with(sorted_texts(workspace_file::normals(folders)), '\n')
}

fn insert_text(row: &mut Vec<String>, t: String)
    ensures
        text::texts(final(row)@) == put_text(text::texts(old(row)@), t@),
{
    let ghost all = text::texts(row@);
    let mut i: usize = row.len();
    assert(all.take(all.len() as int) == all);
    assert(put_text(all, t@) == put_text(all, t@) + all.skip(all.len() as int));
    while i > 0 && text::text_lt(t.as_str(), row[i - 1].as_str())
        invariant
            i <= row.len(),
            all == text::texts(row@),
            put_text(all, t@) == put_text(all.take(i as int), t@) + all.skip(i as int),
        decreases i,
    {
        proof {
            let here = all.take(i as int);
            assert(here.last() == row@[i - 1]@);
            assert(here.drop_last() == all.take(i - 1));
            let smaller = put_text(all.take(i - 1), t@);
            assert(smaller.push(here.last()) + all.skip(i as int) == smaller + all.skip(i - 1));
        }
        i = i - 1;
    }
    proof {
        let here = all.take(i as int);
        if i > 0 {
            assert(here.last() == row@[i - 1]@);
        }
        assert(here.push(t@) + all.skip(i as int) == all.insert(i as int, t@));
    }
    row.insert(i, t);
    assert(text::texts(row@) == all.insert(i as int, t@));
}

/// The key under which the workspace of the given folders is found.
pub fn paths_key(folder_paths: &[String]) -> (r: String)
    ensures
        r@ == key_of(text::texts(folder_paths@)),
{
    let ghost all = workspace_file::normals(text::texts(folder_paths@));
    let mut sorted: Vec<String> = Vec::new();
    let mut i: usize = 0;
    assert(all.take(0) == Seq::<Seq<char>>::empty());
    assert(text::texts(sorted@) == Seq::<Seq<char>>::empty());
    while i < folder_paths.len()
        invariant
            i <= folder_paths.len(),
            all == workspace_file::normals(text::texts(folder_paths@)),
            text::texts(sorted@) == sorted_texts(all.take(i as int)),
        decreases folder_paths.len() - i,
    {
        proof {
            assert(all.take(i + 1).drop_last() == all.take(i as int));
            assert(all.take(i + 1).last() == all[i as int]);
        }
        let n = paths::normalize_path(folder_paths[i].as_str());
        insert_text(&mut sorted, n);
        i = i + 1;
    }
    assert(all.take(all.len() as int) == all);
    text::join_text(sorted.as_slice(), '\n')
}

/// A row in lexicographic order.
pub open spec fn texts_sorted(row: Seq<Seq<char>>) -> bool {
    forall|i: int, j: int|
        0 <= i < j < row.len() ==> !text::text_less(#[trigger] row[j], #[trigger] row[i])
}

proof fn lemma_put_text(row: Seq<Seq<char>>, t: Seq<char>)
    requires
        texts_sorted(row),
    ensures
        texts_sorted(put_text(row, t)),
        put_text(row, t).to_multiset() == row.to_multiset().insert(t),
    decreases row.len(),
{
    let out = put_text(row, t);
    if row.len() > 0 && text::text_less(t, row.last()) {
        let d = row.drop_last();
        let last = row.last();
        assert(texts_sorted(d)) by {
            assert forall|i: int, j: int| 0 <= i < j < d.len() implies !text::text_less(
                #[trigger] d[j],
                #[trigger] d[i],
            ) by {
                assert(!text::text_less(row[j], row[i]));
            }
        }
        lemma_put_text(d, t);
        let smaller = put_text(d, t);
        vstd::seq_lib::to_multiset_build(d, last);
        vstd::seq_lib::to_multiset_build(smaller, last);
        assert(d.push(last) == row);
        assert(out.to_multiset() =~= row.to_multiset().insert(t));
        assert forall|i: int, j: int| 0 <= i < j < out.len() implies !text::text_less(
            #[trigger] out[j],
            #[trigger] out[i],
        ) by {
            if j < smaller.len() {
                assert(!text::text_less(smaller[j], smaller[i]));
            } else {
                vstd::seq_lib::to_multiset_contains(smaller, smaller[i]);
                assert(smaller.contains(smaller[i]));
                if smaller[i] == t {
                    text::lemma_text_less(t, last);
                } else {
                    vstd::seq_lib::to_multiset_contains(d, smaller[i]);
                    assert(d.contains(smaller[i]));
                    let k = choose|k: int| 0 <= k < d.len() && d[k] == smaller[i];
                    assert(!text::text_less(row[row.len() - 1], row[k]));
                }
            }
        }
    } else {
        vstd::seq_lib::to_multiset_build(row, t);
        assert forall|i: int, j: int| 0 <= i < j < out.len() implies !text::text_less(
            #[trigger] out[j],
            #[trigger] out[i],
        ) by {
            if j == row.len() {
                let last = row[row.len() - 1];
                if text::text_less(t, row[i]) {
                    if i < row.len() - 1 {
                        assert(!text::text_less(last, row[i]));
                        text::lemma_text_less(row[i], last);
                        if row[i] != last {
                            text::lemma_text_less_transitive(t, row[i], last);
                        }
                    }
                }
            }
        }
    }
}

/// Sorting keeps every text and puts them in lexicographic order.
pub proof fn lemma_sorted_texts(list: Seq<Seq<char>>)
    ensures
        texts_sorted(sorted_texts(list)),
        sorted_texts(list).to_multiset() == list.to_multiset(),
    decreases list.len(),
{
    if list.len() > 0 {
        let d = list.drop_last();
        lemma_sorted_texts(d);
        lemma_put_text(sorted_texts(d), list.last());
        vstd::seq_lib::to_multiset_build(d, list.last());
        assert(d.push(list.last()) == list);
    }
}

/// The key of a set of folders does not depend on the order in which they are
/// given, nor on how their paths are written.
pub proof fn lemma_key_ignores_order(a: Seq<Seq<char>>, b: Seq<Seq<char>>)
    requires
        workspace_file::normals(a).to_multiset() == workspace_file::normals(b).to_multiset(),
    ensures
        key_of(a) == key_of(b),
{
    let (x, y) = (
        sorted_texts(workspace_file::normals(a)),
        sorted_texts(workspace_file::normals(b)),
    );
    lemma_sorted_texts(workspace_file::normals(a));
    lemma_sorted_texts(workspace_file::normals(b));
    let leq = |s: Seq<char>, t: Seq<char>| !text::text_less(t, s);
    assert forall|s: Seq<char>, t: Seq<char>| (#[trigger] leq(s, t) || #[trigger] leq(t, s)) && (
    leq(s, t) && leq(t, s) ==> s == t) by {
        text::lemma_text_less(s, t);
    }
    assert forall|s: Seq<char>| #[trigger] leq(s, s) by {
        text::lemma_text_less(s, s);
    }
    assert forall|s: Seq<char>, t: Seq<char>, u: Seq<char>| #[trigger]
        leq(s, t) && #[trigger] leq(t, u) implies leq(s, u) by {
        if text::text_less(u, s) {
            text::lemma_text_less(t, u);
            if t != u {
                text::lemma_text_less_transitive(t, u, s);
            }
        }
    }
    vstd::seq_lib::lemma_sorted_unique(x, y, leq);
}

/// The pattern for paths that hold a folder.
pub fn like_pattern(folder_path: &str) -> (r: String)
    ensures
        r@ == "%"@ + folder_path@ + "%"@,
{
    text::concat(text::concat("%", folder_path).as_str(), "%")
}

/// The directory of Zed's databases below a home directory.
pub open spec fn db_dir_in(home: Seq<char>) -> Seq<char> {
    components::join(home, "Library/Application Support/Zed/db"@)
}

/// The database of a scope.
pub open spec fn db_in(db_dir: Seq<char>, scope: Seq<char>) -> Seq<char> {
    components::join(components::join(db_dir, scope), "db.sqlite"@)
}

/// The database of a channel, where one is given.
pub open spec fn db_of_channel(db_dir: Seq<char>, channel: Option<Seq<char>>) -> Seq<Seq<char>> {
    match channel {
        Some(c) => seq![db_in(db_dir, "0-"@ + c)],
        None => Seq::<Seq<char>>::empty(),
    }
}

/// A directory that may hold the database of another channel.
pub open spec fn is_other_scope(name: Seq<char>) -> bool {
    "0-"@.is_prefix_of(name) && name != "0-global"@
}

/// The databases of the other channels among the directories of the given names.
pub open spec fn other_dbs(db_dir: Seq<char>, names: Seq<Seq<char>>) -> Seq<Seq<char>>
    decreases names.len(),
{
    if names.len() == 0 {
        Seq::<Seq<char>>::empty()
    } else {
        let before = other_dbs(db_dir, names.drop_last());
        if is_other_scope(names.last()) {
            before.push(db_in(db_dir, names.last()))
        } else {
            before
        }
    }
}

/// The home directory of the user, as `dirs::home_dir` gives it.
///
/// Nothing is said of the result, since it depends on the machine and the
/// environment.
#[verifier::external_body]
pub(crate) fn home_dir() -> Option<String> {
    dirs::home_dir().map(|p| p.to_string_lossy().into_owned())
}

/// The directory of Zed's databases below a home directory, where that is known.
pub fn db_dir_of(home: Option<&str>) -> (r: Result<String, Error>)
    ensures
        match text::opt_str(home) {
            Some(h) => r matches Ok(d) && d@ == db_dir_in(h),
            None => r matches Err(Error::NoDataDir),
        },
{
    match home {
        Some(h) => Ok(components::join_path(h, "Library/Application Support/Zed/db")),
        None => Err(Error::NoDataDir),
    }
}

/// The directory of Zed's databases below the user's home directory.
pub fn default_db_dir() -> (r: Result<String, Error>)
    ensures
        match r {
            Ok(d) => exists|home: Seq<char>| d@ == #[trigger] db_dir_in(home),
            Err(e) => e is NoDataDir,
        },
{
    let home = home_dir();
    db_dir_of(text::borrow_opt(&home))
}

/// The database of a scope.
pub fn scope_db(db_dir: &str, scope: &str) -> (r: String)
    ensures
        r@ == db_in(db_dir@, scope@),
{
    components::join_path(components::join_path(db_dir, scope).as_str(), "db.sqlite")
}

/// Appends the databases of the other channels.
pub fn push_other_dbs(list: &mut Vec<String>, db_dir: &str, names: &[String])
    ensures
        text::texts(final(list)@) == text::texts(old(list)@) + other_dbs(
            db_dir@,
            text::texts(names@),
        ),
{
    let ghost all = text::texts(names@);
    let ghost start = text::texts(list@);
    let mut i: usize = 0;
    assert(all.take(0) == Seq::<Seq<char>>::empty());
    assert(start + other_dbs(db_dir@, all.take(0)) == start);
    while i < names.len()
        invariant
            i <= names.len(),
            all == text::texts(names@),
            start == text::texts(old(list)@),
            text::texts(list@) == start + other_dbs(db_dir@, all.take(i as int)),
        decreases names.len() - i,
    {
        let ghost before = text::texts(list@);
        proof {
            assert(all.take(i + 1).drop_last() == all.take(i as int));
            assert(all.take(i + 1).last() == names@[i as int]@);
        }
        let name = names[i].as_str();
        if text::starts_with_text(name, "0-") && !text::text_eq(name, "0-global") {
            let p = scope_db(db_dir, name);
            list.push(p);
            assert(text::texts(list@) == before.push(p@));
            assert(text::texts(list@) == start + other_dbs(db_dir@, all.take(i as int)).push(p@));
        }
        i = i + 1;
    }
    assert(all.take(all.len() as int) == all);
}

/// The places where the database may lie, in the order in which they are tried:
/// the channel asked for, the channel of the running program, the preview, the
/// stable channel, any other channel found.
pub open spec fn db_places(
    db_dir: Seq<char>,
    hint: Option<Seq<char>>,
    detected: Option<Seq<char>>,
    names: Seq<Seq<char>>,
) -> Seq<Seq<char>> {
    db_of_channel(db_dir, hint) + db_of_channel(db_dir, detected) + seq![
        db_in(db_dir, "0-preview"@),
        db_in(db_dir, "0-stable"@),
    ] + other_dbs(db_dir, names)
}

/// Lists the places where the database may lie.
///
/// `detected` is the channel of the running program; `names` are the names of
/// the directories below `db_dir`.
pub fn db_candidates(
    db_dir: &str,
    channel_hint: Option<&str>,
    detected: Option<&str>,
    names: &[String],
) -> (r: Vec<String>)
    ensures
        text::texts(r@) == db_places(
            db_dir@,
            text::opt_str(channel_hint),
            text::opt_str(detected),
            text::texts(names@),
        ),
{
    let ghost hinted = db_of_channel(db_dir@, text::opt_str(channel_hint));
    let ghost found = db_of_channel(db_dir@, text::opt_str(detected));
    let mut r: Vec<String> = Vec::new();
    if let Some(c) = channel_hint {
        r.push(scope_db(db_dir, text::concat("0-", c).as_str()));
    }
    assert(text::texts(r@) == hinted);
    if let Some(c) = detected {
        let p = scope_db(db_dir, text::concat("0-", c).as_str());
        r.push(p);
        assert(text::texts(r@) == hinted.push(p@));
    }
    assert(text::texts(r@) == hinted + found);
    let preview = scope_db(db_dir, "0-preview");
    let stable = scope_db(db_dir, "0-stable");
    let ghost both = seq![preview@, stable@];
    r.push(preview);
    r.push(stable);
    assert(text::texts(r@) == hinted + found + both);
    push_other_dbs(&mut r, db_dir, names);
    r
}

/// Picks the database in use: the first of the given places that exists, see
/// `db_candidates`. `exists` says of each place whether it does.
pub fn default_db_path(db_dir: &str, places: &[String], exists: &[bool]) -> (r: Result<
    String,
    Error,
>)
    ensures
        match search::first(places@.len(), pinning::is_flagged(exists@)) {
            Some(i) => r matches Ok(p) && p == places@[i],
            None => r matches Err(Error::NotFound(d)) && d@ == db_dir@,
        },
{
    let ghost flagged = pinning::is_flagged(exists@);
    let mut i: usize = 0;
    while i < places.len()
        invariant
            i <= places.len(),
            flagged == pinning::is_flagged(exists@),
            forall|k: int| 0 <= k < i ==> !#[trigger] flagged(k),
        decreases places.len() - i,
    {
        if i < exists.len() && exists[i] {
            proof {
                search::lemma_first_is(places@.len(), flagged, i as int);
            }
            return Ok(places[i].clone());
        }
        i = i + 1;
    }
    proof {
        search::lemma_first(places@.len(), flagged);
    }
    Err(Error::NotFound(db_dir.to_string()))
}

/// A question to the database that at most one workspace answers.
#[derive(Debug, PartialEq, Eq)]
pub enum Lookup {
    /// The workspace of a number.
    ById(i64),
    /// The workspace stored under a key, see `paths_key`.
    ByPaths(String),
    /// The latest workspace with a path that holds the folder.
    ByFolder(String),
    /// The latest workspace.
    Latest,
}

/// A question as the contracts see it.
pub enum Query {
    ById(i64),
    ByPaths(Seq<char>),
    ByFolder(Seq<char>),
    Latest,
}

impl View for Lookup {
    type V = Query;

    open spec fn view(&self) -> Query {
        match self {
            Lookup::ById(id) => Query::ById(*id),
            Lookup::ByPaths(k) => Query::ByPaths(k@),
            Lookup::ByFolder(f) => Query::ByFolder(f@),
            Lookup::Latest => Query::Latest,
        }
    }
}

pub open spec fn queries(v: Seq<Lookup>) -> Seq<Query> {
    v.map_values(|l: Lookup| l@)
}

/// By the folders of a workspace: all of them, then the first one.
pub open spec fn folder_queries(folders: Seq<Seq<char>>) -> Seq<Query> {
    seq![Query::ByPaths(key_of(folders))] + (if folders.len() > 0 {
        seq![Query::ByFolder(folders[0])]
    } else {
        Seq::<Query>::empty()
    })
}

/// The questions that look for the workspace of a workspace file, in the order
/// in which they are asked until one is answered: by the number of the mapping
/// beside the file, then by the folders of the file, where it can be read.
pub fn lookups_for_file(mapping_id: Option<i64>, folders: Option<&[String]>) -> (r: Vec<Lookup>)
    ensures
        queries(r@) == (match mapping_id {
            Some(id) => seq![Query::ById(id)],
            None => Seq::<Query>::empty(),
        }) + (match folders {
            Some(f) => folder_queries(text::texts(f@)),
            None => Seq::<Query>::empty(),
        }),
{
    let mut r: Vec<Lookup> = Vec::new();
    if let Some(id) = mapping_id {
        r.push(Lookup::ById(id));
    }
    let ghost start = queries(r@);
    assert(start == (match mapping_id {
        Some(id) => seq![Query::ById(id)],
        None => Seq::<Query>::empty(),
    }));
    if let Some(f) = folders {
        push_folder_lookups(&mut r, f);
    } else {
        assert(start + Seq::<Query>::empty() == start);
    }
    r
}

fn push_folder_lookups(r: &mut Vec<Lookup>, folders: &[String])
    ensures
        queries(final(r)@) == queries(old(r)@) + folder_queries(text::texts(folders@)),
{
    let ghost start = queries(r@);
    let key = paths_key(folders);
    r.push(Lookup::ByPaths(key));
    if folders.len() > 0 {
        assert(text::texts(folders@)[0] == folders@[0]@);
        r.push(Lookup::ByFolder(folders[0].clone()));
    }
    assert(queries(r@) == start + folder_queries(text::texts(folders@)));
}

/// The questions that look for the workspace of a file whose number Zed has
/// given up: by the folders of the file.
pub fn lookups_for_folders(folders: &[String]) -> (r: Vec<Lookup>)
    ensures
        queries(r@) == (if folders@.len() == 0 {
            Seq::<Query>::empty()
        } else {
            folder_queries(text::texts(folders@))
        }),
{
    let mut r: Vec<Lookup> = Vec::new();
    assert(queries(r@) == Seq::<Query>::empty());
    if folders.len() > 0 {
        push_folder_lookups(&mut r, folders);
        assert(Seq::<Query>::empty() + folder_queries(text::texts(folders@)) == folder_queries(
            text::texts(folders@),
        ));
    }
    r
}

/// The questions that look for the workspace of a set of roots: by all of them,
/// by the first one, and at last the latest workspace.
pub fn lookups_for_roots(roots: &[String]) -> (r: Vec<Lookup>)
    ensures
        queries(r@) == folder_queries(text::texts(roots@)).push(Query::Latest),
{
    let mut r: Vec<Lookup> = Vec::new();
    push_folder_lookups(&mut r, roots);
    r.push(Lookup::Latest);
    assert(queries(r@) == folder_queries(text::texts(roots@)).push(Query::Latest));
    r
}

} // verus!
