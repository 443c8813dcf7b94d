//! The hook's side of the socket: reading a request, deciding on it, answering.
use vstd::prelude::*;

use crate::components;
use crate::hook_client;
use crate::json;
use crate::json::{Entry, Field, Item, Scalar};
use crate::mapping;
use crate::text;

verus! {

broadcast use vstd::string::group_string_axioms;

/// The version that the hook reports.
pub const VERSION: &'static str = "0.1.0";

/// A request to the hook.
#[derive(Debug)]
pub struct Request {
    pub cmd: String,
    pub paths: Vec<String>,
}

/// What the hook does about a request.
#[derive(Debug)]
pub enum Dispatch {
    /// Answer at once.
    Answer(String),
    /// Have Zed open the paths, and answer with what comes of it.
    Open { reuse: bool },
}

/// The path of the hook's socket.
pub fn socket_path(channel: &str, pid: u32) -> (r: String)
    ensures
        r@ == mapping::socket_of(channel@, pid as int),
{
    mapping::hook_socket_path(channel, pid)
}

/// The strings among the items of an array.
pub open spec fn strings(items: Seq<Entry>) -> Seq<Seq<char>>
    decreases items.len(),
{
    if items.len() == 0 {
        Seq::<Seq<char>>::empty()
    } else {
        let before = strings(items.drop_last());
        match items.last() {
            Entry::Text(s) => before.push(s),
            _ => before,
        }
    }
}

/// The strings of the array that an object holds under a key.
pub open spec fn strings_at(m: json::Entries, key: Seq<char>) -> Seq<Seq<char>> {
    if m.contains_key(key) && m[key] is List {
        strings(m[key]->List_0)
    } else {
        Seq::<Seq<char>>::empty()
    }
}

/// The command of a request; empty where it names none.
pub open spec fn command_in(line: Seq<char>) -> Seq<char> {
    match hook_client::string_in(line, "cmd"@) {
        Some(c) => c,
        None => Seq::<char>::empty(),
    }
}

/// The paths of a request.
pub open spec fn paths_in(line: Seq<char>) -> Seq<Seq<char>> {
    match json::object_in(line) {
        Some(m) => strings_at(m, "paths"@),
        None => Seq::<Seq<char>>::empty(),
    }
}

/// All items of an array of strings are strings.
pub proof fn lemma_strings_of_all(v: Seq<Seq<char>>)
    ensures
        strings(json::texts(v)->List_0) == v,
    decreases v.len(),
{
    let all = json::texts(v)->List_0;
    if v.len() > 0 {
        lemma_strings_of_all(v.drop_last());
        assert(all.drop_last() == json::texts(v.drop_last())->List_0);
        assert(all.last() == Entry::Text(v.last()));
        assert(v.drop_last().push(v.last()) == v);
    } else {
        assert(all.len() == 0);
        assert(strings(all) == v);
    }
}

/// The hook reads from a client's request the command and the paths that the
/// client put into it.
pub proof fn lemma_request_arrives(line: Seq<char>, cmd: Seq<char>, paths: Seq<Seq<char>>)
    requires
        json::object_in(line) == Some(hook_client::paths_request(cmd, paths)),
    ensures
        command_in(line) == cmd,
        paths_in(line) == paths,
{
    reveal_strlit("cmd");
    reveal_strlit("paths");
    assert("cmd"@.len() != "paths"@.len());
    lemma_strings_of_all(paths);
}

/// A client reads from an error answer that the request was refused, and why.
pub proof fn lemma_error_arrives(line: Seq<char>, msg: Seq<char>)
    requires
        json::object_in(line) == Some(error_entries(msg)),
    ensures
        !hook_client::flag_in(line, "ok"@),
        hook_client::string_in(line, "error"@) == Some(msg),
{
    reveal_strlit("ok");
    reveal_strlit("error");
    assert("ok"@.len() != "error"@.len());
}

/// A client reads from the answer to a request that was carried out that it was.
pub proof fn lemma_ok_arrives(line: Seq<char>)
    requires
        json::object_in(line) == Some(ok_entries()),
    ensures
        hook_client::flag_in(line, "ok"@),
        hook_client::string_in(line, "error"@) is None,
{
    reveal_strlit("ok");
    reveal_strlit("error");
    assert("ok"@.len() != "error"@.len());
}

/// A client reads from an answer about the hook that the hook is alive.
pub proof fn lemma_status_arrives(line: Seq<char>, channel: Seq<char>, pid: u32)
    requires
        json::object_in(line) == Some(status_entries(channel, pid)),
    ensures
        hook_client::flag_in(line, "ok"@),
        hook_client::string_in(line, "error"@) is None,
        hook_client::string_in(line, "channel"@) == Some(channel),
        hook_client::string_in(line, "version"@) == Some(VERSION@),
{
    reveal_strlit("ok");
    reveal_strlit("pid");
    reveal_strlit("error");
    reveal_strlit("channel");
    reveal_strlit("version");
    assert("ok"@.len() == 2 && "pid"@.len() == 3 && "error"@.len() == 5);
    assert("channel"@.len() == 7 && "version"@.len() == 7);
    assert("channel"@[0] == 'c' && "version"@[0] == 'v');
}

fn keep_strings(items: &[Item]) -> (r: Vec<String>)
    ensures
        forall|v: Seq<Entry>|
            v.len() == items@.len() && (forall|i: int|
                0 <= i < v.len() ==> (#[trigger] items@[i]).shows(v[i])) ==> text::texts(r@)
                == #[trigger] strings(v),
{
    let ghost kept = |n: int, r: Seq<String>|
        forall|v: Seq<Entry>|
            v.len() == n && (forall|i: int| 0 <= i < n ==> (#[trigger] items@[i]).shows(v[i]))
                ==> text::texts(r) == #[trigger] strings(v);
    let mut r: Vec<String> = Vec::new();
    let mut i: usize = 0;
    assert(text::texts(r@) == Seq::<Seq<char>>::empty());
    assert(kept(0, r@));
    while i < items.len()
        invariant
            i <= items.len(),
            kept == |n: int, r: Seq<String>|
                forall|v: Seq<Entry>|
                    v.len() == n && (forall|i: int|
                        0 <= i < n ==> (#[trigger] items@[i]).shows(v[i])) ==> text::texts(r)
                        == #[trigger] strings(v),
            kept(i as int, r@),
        decreases items.len() - i,
    {
        let ghost before = r@;
        if let Item::Text(s) = &items[i] {
            let t = s.clone();
            r.push(t);
            assert(text::texts(r@) == text::texts(before).push(t@));
        }
        proof {
            assert forall|v: Seq<Entry>|
                v.len() == i + 1 && (forall|j: int|
                    0 <= j < i + 1 ==> (#[trigger] items@[j]).shows(v[j])) implies text::texts(r@)
                == #[trigger] strings(v) by {
                let d = v.drop_last();
                assert forall|j: int| 0 <= j < i implies (#[trigger] items@[j]).shows(d[j]) by {}
                assert(text::texts(before) == strings(d));
                assert(items@[i as int].shows(v[i as int]));
            }
        }
        i = i + 1;
    }
    r
}

/// Reads a request; for a line that is no JSON, gives the answer that says so.
pub fn read_request(line: &str) -> (r: Result<Request, String>)
    ensures
        match json::parsed(line@) {
            Ok(_) => r matches Ok(req) && req.cmd@ == command_in(line@) && text::texts(req.paths@)
                == paths_in(line@),
            Err(e) => r matches Err(m) && m@ == json::compact(
                error_entries("invalid JSON: "@ + e),
            ) && json::object_in(m@) == Some(error_entries("invalid JSON: "@ + e)) && !m@.contains(
                '\n',
            ),
        },
{
    match json::parse_object(line) {
        Ok(Some(m)) => {
            let cmd = match json::get(&m, "cmd") {
                Some(Field::Text(t)) => t,
                _ => String::new(),
            };
            let paths: Vec<String> = match json::get(&m, "paths") {
                Some(Field::List(items)) => keep_strings(items.as_slice()),
                _ => {
                    let none: Vec<String> = Vec::new();
                    assert(text::texts(none@) == Seq::<Seq<char>>::empty());
                    none
                },
            };
            Ok(Request { cmd, paths })
        },
        Ok(None) => {
            let none: Vec<String> = Vec::new();
            assert(text::texts(none@) == Seq::<Seq<char>>::empty());
            Ok(Request { cmd: String::new(), paths: none })
        },
        Err(e) => Err(error_response(text::concat("invalid JSON: ", e.as_str()).as_str())),
    }
}

/// The entries of an answer that tells about the hook.
pub open spec fn status_entries(channel: Seq<char>, pid: u32) -> json::Entries {
    json::no_entries().insert("ok"@, Entry::Flag(true)).insert(
        "pid"@,
        Entry::Whole(pid as int),
    ).insert("channel"@, Entry::Text(channel)).insert("version"@, Entry::Text(VERSION@))
}

/// The entries of an answer that refuses a request.
pub open spec fn error_entries(msg: Seq<char>) -> json::Entries {
    json::no_entries().insert("ok"@, Entry::Flag(false)).insert("error"@, Entry::Text(msg))
}

/// The answer that tells about the hook.
fn status_response(channel: &str, pid: u32) -> (r: String)
    ensures
        r@ == json::compact(status_entries(channel@, pid)),
        json::object_in(r@) == Some(status_entries(channel@, pid)),
        !r@.contains('\n'),
{
    let mut m = json::new_object();
    json::put(&mut m, "ok", Scalar::Flag(true));
    json::put(&mut m, "pid", Scalar::Number(pid as i64));
    json::put(&mut m, "channel", Scalar::Text(channel.to_string()));
    json::put(&mut m, "version", Scalar::Text(VERSION.to_string()));
    proof {
        let all = json::entries(m);
        assert forall|k: Seq<char>| #[trigger] all.contains_key(k) implies json::is_shallow(
            all[k],
        ) by {
            assert(k == "ok"@ || k == "pid"@ || k == "channel"@ || k == "version"@);
        }
        json::lemma_shallow(all);
    }
    json::to_compact(&m).unwrap()
}

/// The entries of the answer to a request that was carried out.
pub open spec fn ok_entries() -> json::Entries {
    json::single("ok"@, Entry::Flag(true))
}

/// The answer to a request that was carried out.
pub fn ok_response() -> (r: String)
    ensures
        r@ == "{\"ok\":true}"@,
        json::object_in(r@) == Some(ok_entries()),
        !r@.contains('\n'),
{
    let mut m = json::new_object();
    json::put(&mut m, "ok", Scalar::Flag(true));
    proof {
        let all = json::entries(m);
        assert forall|k: Seq<char>| #[trigger] all.contains_key(k) implies json::is_shallow(
            all[k],
        ) by {
            assert(k == "ok"@);
        }
        reveal_strlit("ok");
        reveal_strlit("{\"");
        reveal_strlit("\":true}");
        reveal_strlit("{\"ok\":true}");
        assert(json::is_letters("ok"@));
        assert(all == ok_entries());
        assert("{\""@ + "ok"@ + "\":true}"@ == "{\"ok\":true}"@);
        json::lemma_shallow(all);
    }
    json::to_compact(&m).unwrap()
}

/// The answer to a request that was refused, or that failed.
pub fn error_response(msg: &str) -> (r: String)
    ensures
        r@ == json::compact(error_entries(msg@)),
        json::object_in(r@) == Some(error_entries(msg@)),
        !r@.contains('\n'),
{
    let mut m = json::new_object();
    json::put(&mut m, "ok", Scalar::Flag(false));
    json::put(&mut m, "error", Scalar::Text(msg.to_string()));
    proof {
        let all = json::entries(m);
        assert forall|k: Seq<char>| #[trigger] all.contains_key(k) implies json::is_shallow(
            all[k],
        ) by {
            assert(k == "ok"@ || k == "error"@);
        }
        json::lemma_shallow(all);
    }
    json::to_compact(&m).unwrap()
}

/// What is done about a request. An answer is one line.
pub open spec fn dispatched(
    cmd: Seq<char>,
    paths: Seq<Seq<char>>,
    channel: Seq<char>,
    pid: u32,
    d: Dispatch,
) -> bool {
    let answered = |m: json::Entries|
        d matches Dispatch::Answer(t) && t@ == json::compact(m) && json::object_in(t@) == Some(m)
            && !t@.contains('\n');
    if cmd == "ping"@ || cmd == "status"@ {
        answered(status_entries(channel, pid))
    } else if cmd == "add_folders"@ || cmd == "reuse_folders"@ {
        if paths.len() == 0 {
            answered(error_entries("paths array is empty"@))
        } else {
            d == Dispatch::Open { reuse: cmd == "reuse_folders"@ }
        }
    } else {
        answered(error_entries("unknown command: "@ + cmd))
    }
}

/// Decides on a request.
pub fn dispatch_command(req: &Request, channel: &str, pid: u32) -> (d: Dispatch)
    ensures
        dispatched(req.cmd@, text::texts(req.paths@), channel@, pid, d),
{
    let cmd = req.cmd.as_str();
    proof {
        reveal_strlit("add_folders");
        reveal_strlit("reuse_folders");
        assert("add_folders"@.len() != "reuse_folders"@.len());
        assert(text::texts(req.paths@).len() == req.paths@.len());
    }
    if text::text_eq(cmd, "ping") || text::text_eq(cmd, "status") {
        Dispatch::Answer(status_response(channel, pid))
    } else if text::text_eq(cmd, "add_folders") {
        if req.paths.len() == 0 {
            Dispatch::Answer(error_response("paths array is empty"))
        } else {
            Dispatch::Open { reuse: false }
        }
    } else if text::text_eq(cmd, "reuse_folders") {
        if req.paths.len() == 0 {
            Dispatch::Answer(error_response("paths array is empty"))
        } else {
            Dispatch::Open { reuse: true }
        }
    } else {
        Dispatch::Answer(error_response(text::concat("unknown command: ", cmd).as_str()))
    }
}

/// The answer once Zed was asked to open the paths: it did, or why it did not.
pub fn open_response(failure: Option<&str>) -> (r: String)
    ensures
        match text::opt_str(failure) {
            None => r@ == "{\"ok\":true}"@ && json::object_in(r@) == Some(ok_entries()),
            Some(e) => r@ == json::compact(error_entries(e)) && json::object_in(r@) == Some(
                error_entries(e),
            ),
        },
        !r@.contains('\n'),
{
    match failure {
        None => ok_response(),
        Some(e) => error_response(e),
    }
}

/// The path with its last component replaced by a name, or with the name behind
/// it where it has none.
pub open spec fn with_file_name(path: Seq<char>, name: Seq<char>) -> Seq<char> {
    let dir = match components::file_name(path) {
        Some(_) => components::render(components::components(path).drop_last()),
        None => path,
    };
    components::join(dir, name)
}

/// The command line program of the Zed whose main program is given: its sibling `cli`.
pub fn cli_beside(main_exe: &str) -> (r: String)
    ensures
        r@ == with_file_name(main_exe@, "cli"@),
{
    let dir = match components::file_name_of(main_exe) {
        Some(_) => match components::parent_of(main_exe) {
            Some(dir) => dir,
            None => main_exe.to_string(),
        },
        None => main_exe.to_string(),
    };
    components::join_path(dir.as_str(), "cli")
}

/// The arguments with which that program opens paths.
pub fn open_args(paths: &[String], reuse: bool) -> (r: Vec<String>)
    ensures
        text::texts(r@) == seq![
            (if reuse {
                "--reuse"@
            } else {
                "--add"@
            }),
        ] + text::texts(paths@),
{
    hook_client::cli_args(
        if reuse {
            "--reuse"
        } else {
            "--add"
        },
        paths,
    )
}

} // verus!
