//! What the smoke checks of an installation say.
use vstd::prelude::*;

use crate::decimal;
use crate::json;
use crate::json::Entry;
use crate::text;
use crate::xtask;

verus! {

broadcast use vstd::string::group_string_axioms;

/// What one check found.
#[derive(Debug)]
pub enum Finding {
    /// Whether the application runs.
    Process { app: String, running: bool },
    /// The latest log of the hook.
    Log(Option<Found>),
    /// The server's program, with its size in bytes where it is there.
    Program { path: String, size: Option<u64> },
    /// The line with which the server answered.
    Answer(Option<String>),
    /// The mapping file, with what reading it gave where it is there.
    Mapping { path: String, read: Option<Result<String, String>> },
    /// The workspace file, with what reading it gave where it is there.
    Workspace { path: String, content: Option<Result<String, String>> },
    /// Zed's database.
    Database(Database),
}

/// A file, with its content or the reason why it could not be read.
#[derive(Debug)]
pub struct Found {
    pub path: String,
    pub content: Result<String, String>,
}

/// What asking Zed's database gave.
#[derive(Debug)]
pub enum Database {
    /// There is no program to ask it with.
    NoProgram,
    /// There is no database.
    NoFile,
    /// The rows, or the reason why there are none.
    Asked { path: String, rows: Result<String, String> },
}

/// The lines of a check, and the reason why no further check makes sense.
#[derive(Debug)]
pub struct Report {
    pub lines: Vec<String>,
    pub failure: Option<String>,
}

/// A line below the title of a check.
pub open spec fn below(s: Seq<char>) -> Seq<char> {
    "  "@ + s
}

pub open spec fn all_below(lines: Seq<Seq<char>>) -> Seq<Seq<char>> {
    lines.map_values(|s: Seq<char>| below(s))
}

/// The last lines of a log that are shown.
pub open spec fn log_tail(content: Seq<char>) -> Seq<Seq<char>> {
    let all = text::lines(content);
    if all.len() > 5 {
        all.skip(all.len() - 5)
    } else {
        all
    }
}

/// The path that an item of a workspace file's folders gives.
pub open spec fn path_of(folder: Entry) -> Option<Seq<char>> {
    match folder {
        Entry::Object(o) => if o.contains_key("path"@) {
            match o["path"@] {
                Entry::Text(p) => Some(p),
                _ => None,
            }
        } else {
            None
        },
        _ => None,
    }
}

/// The paths of the folders in a workspace file, with nothing for a folder that
/// gives none. Where there is no list of folders, there are none.
pub open spec fn folders_in(file: Option<json::Entries>) -> Seq<Option<Seq<char>>> {
    match file {
        Some(m) => if m.contains_key("folders"@) {
            match m["folders"@] {
                Entry::List(v) => v.map_values(|e: Entry| path_of(e)),
                _ => Seq::<Option<Seq<char>>>::empty(),
            }
        } else {
            Seq::<Option<Seq<char>>>::empty()
        },
        None => Seq::<Option<Seq<char>>>::empty(),
    }
}

/// What optional strings say.
pub open spec fn opts(v: Seq<Option<String>>) -> Seq<Option<Seq<char>>> {
    v.map_values(|p: Option<String>| text::opt(p))
}

/// The lines for the paths among the folders of a workspace file.
pub open spec fn folder_lines(folders: Seq<Option<Seq<char>>>) -> Seq<Seq<char>>
    decreases folders.len(),
{
    if folders.len() == 0 {
        Seq::<Seq<char>>::empty()
    } else {
        let before = folder_lines(folders.drop_last());
        match folders.last() {
            Some(p) => before.push(below(p)),
            None => before,
        }
    }
}

/// The lines of a check.
pub open spec fn lines_of(f: Finding) -> Seq<Seq<char>> {
    match f {
        Finding::Process { app, running } => seq!["[1] Checking target app process..."@] + (
        if running {
            seq![below(app@ + " is running"@)]
        } else {
            Seq::<Seq<char>>::empty()
        }),
        Finding::Log(found) => seq!["[2] Checking hook log..."@] + (match found {
            Some(l) => seq![below("Hook log: "@ + l.path@)] + (match l.content {
                Ok(c) => all_below(log_tail(c@)),
                Err(e) => seq![below("WARNING: failed to read log: "@ + e@)],
            }),
            None => seq![below("WARNING: no hook log found"@)],
        }),
        Finding::Program { path, size } => seq!["\n[3] Checking MCP binary..."@] + (match size {
            Some(n) => seq![
                below("Binary: "@ + path@ + " ("@ + decimal::written(n as int) + " bytes)"@),
            ],
            None => Seq::<Seq<char>>::empty(),
        }),
        Finding::Answer(line) => seq![
            "\n[4] MCP workspace_status smoke test..."@,
            below(
                match line {
                    Some(l) => l@,
                    None => "(MCP timeout or no result payload)"@,
                },
            ),
        ],
        Finding::Mapping { path, read } => seq!["\n[5] Mapping file checks..."@] + (match read {
            Some(r) => seq![
                below("FOUND: "@ + path@),
                below(
                    match r {
                        Ok(c) => c@,
                        Err(e) => "WARNING: cannot read mapping file: "@ + e@,
                    },
                ),
            ],
            None => seq![below("NOT FOUND: "@ + path@)],
        }),
        Finding::Workspace { path, content } => seq!["\n[6] .code-workspace checks..."@] + (
        match content {
            Some(r) => seq![below("File: "@ + path@)] + (match r {
                Ok(c) => match json::parsed(c@) {
                    Ok(file) => {
                        let all = folders_in(json::entries_of(file));
                        seq![below("Folders: "@ + decimal::written(all.len() as int))]
                            + folder_lines(all)
                    },
                    Err(_) => Seq::<Seq<char>>::empty(),
                },
                Err(_) => Seq::<Seq<char>>::empty(),
            }),
            None => seq![below("NOT FOUND: "@ + path@)],
        }),
        Finding::Database(d) => seq!["\n[7] Zed DB checks..."@] + (match d {
            Database::NoProgram => seq![below("sqlite3 not found; skip DB query"@)],
            Database::NoFile => seq![below("DB not found"@)],
            Database::Asked { path, rows } => seq![
                below("DB: "@ + path@),
                below(
                    match rows {
                        Ok(t) => if text::trim(t@).len() == 0 {
                            "(no rows)"@
                        } else {
                            text::trim(t@)
                        },
                        Err(e) => "WARNING: sqlite3 query failed: "@ + text::trim(e@),
                    },
                ),
            ],
        }),
    }
}

/// Why no further check makes sense: the application does not run, the server's
/// program is missing, or the workspace file cannot be read or is no JSON.
pub open spec fn failure_of(f: Finding) -> Option<Seq<char>> {
    match f {
        Finding::Process { app, running: false } => Some(
            app@ + " is not running. Start it first."@,
        ),
        Finding::Program { path, size: None } => Some(
            "MCP binary not found at "@ + path@
                + "\nRun: cargo build --release -p zed-prj-workspace-mcp"@,
        ),
        Finding::Workspace { path, content: Some(Err(e)) } => Some(
            "failed to read "@ + path@ + ": "@ + e@,
        ),
        Finding::Workspace { path, content: Some(Ok(c)) } => match json::parsed(c@) {
            Ok(_) => None,
            Err(e) => Some("invalid json in "@ + path@ + ": "@ + e),
        },
        _ => None,
    }
}

fn below_of(a: &str, b: &str) -> (r: String)
    ensures
        r@ == below(a@ + b@),
{
    let line = text::concat(a, b);
    text::concat("  ", line.as_str())
}

fn push_below(lines: &mut Vec<String>, a: &str, b: &str)
    ensures
        text::texts(final(lines)@) == text::texts(old(lines)@).push(below(a@ + b@)),
{
    let ghost before = text::texts(lines@);
    let l = below_of(a, b);
    lines.push(l);
    assert(text::texts(lines@) == before.push(l@));
}

fn push_line(lines: &mut Vec<String>, a: &str)
    ensures
        text::texts(final(lines)@) == text::texts(old(lines)@).push(below(a@)),
{
    let ghost before = text::texts(lines@);
    let l = text::concat("  ", a);
    lines.push(l);
    assert(text::texts(lines@) == before.push(l@));
}

fn push_all(lines: &mut Vec<String>, more: &[String])
    ensures
        text::texts(final(lines)@) == text::texts(old(lines)@) + all_below(text::texts(more@)),
{
    let ghost start = text::texts(lines@);
    let ghost all = all_below(text::texts(more@));
    let mut i: usize = 0;
    assert(start + all.take(0) == start);
    while i < more.len()
        invariant
            i <= more.len(),
            all == all_below(text::texts(more@)),
            text::texts(lines@) == start + all.take(i as int),
        decreases more.len() - i,
    {
        push_line(lines, more[i].as_str());
        proof {
            assert(all[i as int] == below(more@[i as int]@));
            assert((start + all.take(i as int)).push(all[i as int]) == start + all.take(i + 1));
        }
        i = i + 1;
    }
    assert(all.take(all.len() as int) == all);
}

fn push_folders(lines: &mut Vec<String>, folders: &[Option<String>])
    ensures
        text::texts(final(lines)@) == text::texts(old(lines)@) + folder_lines(opts(folders@)),
{
    let ghost start = text::texts(lines@);
    let ghost all = opts(folders@);
    let mut i: usize = 0;
    assert(all.take(0).len() == 0);
    assert(start + folder_lines(all.take(0)) == start);
    while i < folders.len()
        invariant
            i <= folders.len(),
            all == opts(folders@),
            text::texts(lines@) == start + folder_lines(all.take(i as int)),
        decreases folders.len() - i,
    {
        let ghost before = folder_lines(all.take(i as int));
        proof {
            assert(all.take(i + 1).drop_last() == all.take(i as int));
            assert(all.take(i + 1).last() == text::opt(folders@[i as int]));
        }
        if let Some(p) = &folders[i] {
            push_line(lines, p.as_str());
            assert((start + before).push(below(p@)) == start + before.push(below(p@)));
        }
        i = i + 1;
    }
    assert(all.take(all.len() as int) == all);
}

/// The path that an item of a workspace file's folders gives.
fn item_path(item: &json::Item, Ghost(e): Ghost<Entry>) -> (r: Option<String>)
    requires
        item.shows(e),
    ensures
        text::opt(r) == path_of(e),
{
    match item {
        json::Item::Object(o) => match json::get(o, "path") {
            Some(json::Field::Text(p)) => Some(p),
            _ => None,
        },
        _ => None,
    }
}

/// The paths of the folders in a workspace file.
pub fn paths_in(file: Option<&serde_json::Map<String, serde_json::Value>>) -> (r: Vec<
    Option<String>,
>)
    ensures
        opts(r@) == folders_in(
            match file {
                Some(m) => Some(json::entries(*m)),
                None => None,
            },
        ),
{
    let mut r: Vec<Option<String>> = Vec::new();
    let m = match file {
        Some(m) => m,
        None => {
            assert(opts(r@) =~= Seq::<Option<Seq<char>>>::empty());
            return r;
        },
    };
    let items = match json::get(m, "folders") {
        Some(json::Field::List(items)) => items,
        _ => {
            assert(opts(r@) =~= Seq::<Option<Seq<char>>>::empty());
            return r;
        },
    };
    let ghost v = json::entries(*m)["folders"@]->List_0;
    let ghost want = folders_in(Some(json::entries(*m)));
    let mut i: usize = 0;
    while i < items.len()
        invariant
            i <= items.len(),
            items@.len() == v.len(),
            want == v.map_values(|e: Entry| path_of(e)),
            forall|k: int| 0 <= k < v.len() ==> (#[trigger] items@[k]).shows(v[k]),
            opts(r@) == want.take(i as int),
        decreases items.len() - i,
    {
        let ghost before = opts(r@);
        let p = item_path(&items[i], Ghost(v[i as int]));
        let ghost said = text::opt(p);
        r.push(p);
        i = i + 1;
        assert(opts(r@) == before.push(said));
        assert(opts(r@) == want.take(i as int));
    }
    assert(want.take(want.len() as int) == want);
    r
}

/// The paths of the folders that the text of a workspace file holds, or why it is
/// no JSON.
pub fn folder_paths(content: &str) -> (r: Result<Vec<Option<String>>, String>)
    ensures
        match json::parsed(content@) {
            Ok(file) => r matches Ok(v) && opts(v@) == folders_in(json::entries_of(file)),
            Err(e) => r matches Err(why) && why@ == e,
        },
{
    match json::parse_object(content) {
        Ok(Some(m)) => Ok(paths_in(Some(&m))),
        Ok(None) => Ok(paths_in(None)),
        Err(e) => Err(e),
    }
}

/// Why a file stops the checks.
fn why_stopped(what: &str, path: &str, error: &str) -> (r: String)
    ensures
        r@ == what@ + path@ + ": "@ + error@,
{
    let start = text::concat(what, path);
    let start = text::concat(start.as_str(), ": ");
    text::concat(start.as_str(), error)
}

fn titled(title: &str) -> (r: Vec<String>)
    ensures
        text::texts(r@) == seq![title@],
{
    let mut r: Vec<String> = Vec::new();
    r.push(title.to_string());
    assert(text::texts(r@) =~= seq![title@]);
    r
}

/// Reports on one check.
pub fn run_doctor(finding: &Finding) -> (r: Report)
    ensures
        text::texts(r.lines@) == lines_of(*finding),
        text::opt(r.failure) == failure_of(*finding),
{
    match finding {
        Finding::Process { app, running } => {
            let mut lines = titled("[1] Checking target app process...");
            if *running {
                push_below(&mut lines, app.as_str(), " is running");
                Report { lines, failure: None }
            } else {
                let why = text::concat(app.as_str(), " is not running. Start it first.");
                Report { lines, failure: Some(why) }
            }
        },
        Finding::Log(found) => {
            let mut lines = titled("[2] Checking hook log...");
            match found {
                Some(l) => {
                    push_below(&mut lines, "Hook log: ", l.path.as_str());
                    match &l.content {
                        Ok(c) => {
                            let tail = xtask::last_lines(c.as_str(), 5);
                            push_all(&mut lines, tail.as_slice());
                            assert(text::texts(tail@) == log_tail(c@));
                        },
                        Err(e) => {
                            push_below(&mut lines, "WARNING: failed to read log: ", e.as_str());
                        },
                    }
                },
                None => {
                    push_line(&mut lines, "WARNING: no hook log found");
                },
            }
            assert(text::texts(lines@) == lines_of(*finding));
            Report { lines, failure: None }
        },
        Finding::Program { path, size } => {
            let mut lines = titled("\n[3] Checking MCP binary...");
            match size {
                Some(n) => {
                    let start = text::concat("Binary: ", path.as_str());
                    let number = text::concat(" (", decimal::write_u64(*n).as_str());
                    let end = text::concat(number.as_str(), " bytes)");
                    proof {
                        assert(start@ + end@ == "Binary: "@ + path@ + " ("@ + decimal::written(
                            *n as int,
                        ) + " bytes)"@);
                    }
                    push_below(&mut lines, start.as_str(), end.as_str());
                    Report { lines, failure: None }
                },
                None => {
                    let start = text::concat("MCP binary not found at ", path.as_str());
                    let why = text::concat(
                        start.as_str(),
                        "\nRun: cargo build --release -p zed-prj-workspace-mcp",
                    );
                    Report { lines, failure: Some(why) }
                },
            }
        },
        Finding::Answer(line) => {
            let mut lines = titled("\n[4] MCP workspace_status smoke test...");
            match line {
                Some(l) => push_line(&mut lines, l.as_str()),
                None => push_line(&mut lines, "(MCP timeout or no result payload)"),
            }
            assert(text::texts(lines@) == lines_of(*finding));
            Report { lines, failure: None }
        },
        Finding::Mapping { path, read } => {
            let mut lines = titled("\n[5] Mapping file checks...");
            match read {
                Some(r) => {
                    push_below(&mut lines, "FOUND: ", path.as_str());
                    match r {
                        Ok(c) => push_line(&mut lines, c.as_str()),
                        Err(e) => push_below(
                            &mut lines,
                            "WARNING: cannot read mapping file: ",
                            e.as_str(),
                        ),
                    }
                },
                None => push_below(&mut lines, "NOT FOUND: ", path.as_str()),
            }
            assert(text::texts(lines@) == lines_of(*finding));
            Report { lines, failure: None }
        },
        Finding::Workspace { path, content } => {
            let mut lines = titled("\n[6] .code-workspace checks...");
            let mut failure: Option<String> = None;
            match content {
                Some(r) => {
                    push_below(&mut lines, "File: ", path.as_str());
                    match r {
                        Ok(c) => match folder_paths(c.as_str()) {
                            Ok(all) => {
                                assert(opts(all@).len() == all@.len());
                                let n: u64 = all.len() as u64;
                                push_below(&mut lines, "Folders: ", decimal::write_u64(n).as_str());
                                push_folders(&mut lines, all.as_slice());
                            },
                            Err(e) => {
                                failure = Some(
                                    why_stopped("invalid json in ", path.as_str(), e.as_str()),
                                );
                            },
                        },
                        Err(e) => {
                            failure = Some(
                                why_stopped("failed to read ", path.as_str(), e.as_str()),
                            );
                        },
                    }
                },
                None => push_below(&mut lines, "NOT FOUND: ", path.as_str()),
            }
            assert(text::texts(lines@) == lines_of(*finding));
            Report { lines, failure }
        },
        Finding::Database(d) => {
            let mut lines = titled("\n[7] Zed DB checks...");
            match d {
                Database::NoProgram => push_line(&mut lines, "sqlite3 not found; skip DB query"),
                Database::NoFile => push_line(&mut lines, "DB not found"),
                Database::Asked { path, rows } => {
                    push_below(&mut lines, "DB: ", path.as_str());
                    match rows {
                        Ok(t) => {
                            let shown = text::trim_text(t.as_str());
                            if shown.as_str().is_empty() {
                                push_line(&mut lines, "(no rows)");
                            } else {
                                push_line(&mut lines, shown.as_str());
                            }
                        },
                        Err(e) => {
                            let why = text::trim_text(e.as_str());
                            push_below(
                                &mut lines,
                                "WARNING: sqlite3 query failed: ",
                                why.as_str(),
                            );
                        },
                    }
                },
            }
            assert(text::texts(lines@) == lines_of(*finding));
            Report { lines, failure: None }
        },
    }
}

} // verus!
