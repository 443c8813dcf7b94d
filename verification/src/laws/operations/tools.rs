//! Laws of the tools: the commands for Zed, the plans that they follow, and the command line.
use vstd::prelude::*;

use crate::components;
use crate::decimal;
use crate::hook::socket_server;
use crate::hook_client;
use crate::hook_client::{FolderCommand, Invocation, InvocationEvent, InvocationStep};
use crate::laws::database;
use crate::laws::folders;
use crate::laws::texts;
use crate::laws::tools;
use crate::mapping;
use crate::mapping::{FoundFile, WorkspaceMapping};
use crate::mcp;
use crate::mcp::{BootstrapPlan, OpenPlan};
use crate::paths;
use crate::pinning;
use crate::settings;
use crate::sync_engine;
use crate::sync_engine::{SyncDirection, SyncStamps};
use crate::text;
use crate::workspace_db;
use crate::workspace_db::{Lookup, Query};
use crate::workspace_file;
use crate::xtask;
use crate::xtask::{Quit, Task, Wait};

verus! {

/// `Invocation::next`: the hook's yes ends it, its no and its absence run the program of the
/// channel with the option of the command and the paths, and what fails fails.
pub proof fn law_invocation_next(i: &Invocation, e: InvocationEvent, s: InvocationStep, k: int)
    requires
        call_ensures(Invocation::next, (i, e), s),
    ensures
        s == (InvocationStep::Done { by_hook: true }) <==> (e matches InvocationEvent::HookReplied(
            h,
        ) && h.ok),
        s == (InvocationStep::Done { by_hook: false }) <==> e is CliSucceeded,
        s is RunCli <==> e is NoHook || (e matches InvocationEvent::HookReplied(h) && !h.ok),
        s is Failed <==> e is HookFailed || e is CliFailed || e is CliNotStarted,
        s matches InvocationStep::RunCli { program, args } ==> {
            &&& program@ == mapping::cli_of(text::opt(i.channel))
            &&& args@.len() == i.paths@.len() + 1
            &&& text::texts(args@)[0] == (if i.command == FolderCommand::Reuse {
                "--reuse"@
            } else {
                "--add"@
            })
            &&& 0 <= k < i.paths@.len() ==> text::texts(args@)[k + 1] == i.paths@[k]@
        },
{
    tools::law_follows(*i, e, s);
    tools::law_invocation(*i);
    if 0 <= k < i.paths@.len() {
        let _ = i.paths@[k];
    }
}

/// The commands for Zed hold the paths that they were made with, in their order, behind a
/// root that is there already where one is given, and the channel.
pub proof fn law_commands(
    path: &str,
    channel: Option<&str>,
    root: Option<&str>,
    list: &[String],
    added: Invocation,
    alone: Invocation,
    reused: Result<Invocation, String>,
)
    requires
        call_ensures(hook_client::invoke_zed_add, (path, channel, root), added),
        call_ensures(sync_engine::invoke_zed_add, (path, channel), alone),
        call_ensures(hook_client::invoke_zed_reuse, (list, channel), reused),
    ensures
        added.command == FolderCommand::Add && alone.command == FolderCommand::Add,
        added.paths@.len() > 0 && added.paths@.last()@ == path@,
        root matches Some(x) ==> added.paths@.len() == 2 && added.paths@[0]@ == x@,
        root is None ==> added.paths@.len() == 1,
        alone.paths@.len() == 1 && alone.paths@[0]@ == path@,
        reused is Ok <==> list@.len() > 0,
        reused matches Ok(i) ==> i.command == FolderCommand::Reuse && i.paths@ == list@ && text::opt(
            i.channel,
        ) == text::opt_str(channel),
        text::opt(added.channel) == text::opt_str(channel),
        text::opt(alone.channel) == text::opt_str(channel),
{
    let t = text::texts(added.paths@);
    let u = text::texts(alone.paths@);
    assert(t.len() == added.paths@.len() && u.len() == alone.paths@.len());
    assert(t.last() == added.paths@.last()@);
    assert(t[0] == added.paths@[0]@);
    assert(u[0] == alone.paths@[0]@);
}

/// `open_args` and `cli_args`: the option and then the paths, in their order.
pub proof fn law_args(list: &[String], reuse: bool, option: &str, a: Vec<String>, b: Vec<String>)
    requires
        call_ensures(socket_server::open_args, (list, reuse), a),
        call_ensures(hook_client::cli_args, (option, list), b),
    ensures
        text::texts(a@).len() == list@.len() + 1 && text::texts(b@).len() == list@.len() + 1,
        text::texts(a@)[0] == "--reuse"@ <==> reuse,
        text::texts(a@)[0] == "--add"@ <==> !reuse,
        text::texts(b@)[0] == option@,
        text::texts(a@).skip(1) == text::texts(list@),
        text::texts(b@).skip(1) == text::texts(list@),
{
    reveal_strlit("--reuse");
    reveal_strlit("--add");
    assert("--reuse"@.len() != "--add"@.len());
}

/// `workspace_open`: `add` and `reuse` are commands for a running Zed, and anything else is a
/// new window; each gets all the folders, in their order.
pub proof fn law_open(
    mode: Option<&str>,
    list: &[String],
    channel: Option<&str>,
    r: Result<OpenPlan, String>,
)
    requires
        call_ensures(mcp::workspace_open, (mode, list, channel), r),
    ensures
        r is Ok <==> list@.len() > 0,
        r matches Ok(OpenPlan::Invoke(i)) ==> i.paths@ == list@ && text::opt(i.channel)
            == text::opt_str(channel) && (i.command == FolderCommand::Add <==> text::opt_str(mode)
            == Some("add"@)) && (i.command == FolderCommand::Reuse <==> text::opt_str(mode) == Some(
            "reuse"@,
        )),
        r matches Ok(OpenPlan::NewWindow { program, args }) ==> args@ == list@ && program@
            == mapping::cli_of(text::opt_str(channel)) && text::opt_str(mode) != Some("add"@)
            && text::opt_str(mode) != Some("reuse"@),
{
    reveal_strlit("add");
    reveal_strlit("reuse");
    assert("add"@.len() != "reuse"@.len());
}

/// `workspace_bootstrap`: a workspace file in the first folder, under the name asked for or
/// that of the folder, with all the folders.
pub proof fn law_bootstrap(
    list: &[String],
    asked: Option<&str>,
    r: Result<BootstrapPlan, String>,
    i: int,
)
    requires
        call_ensures(mcp::workspace_bootstrap, (list, asked), r),
    ensures
        r is Ok <==> list@.len() > 0,
        r matches Ok(p) ==> {
            let first = list@[0]@;
            &&& asked matches Some(n) ==> p.name@ == n@
            &&& asked is None && components::file_name(first) is Some ==> components::file_name(first)
                == Some(p.name@)
            &&& p.path@ == settings::workspace_file(first, p.name@)
            &&& p.folders@.len() == list@.len()
            &&& 0 <= i < list@.len() ==> p.folders@[i]@.path == paths::relative(first, list@[i]@)
                && p.folders@[i]@.name is None
        },
{
    if let Ok(p) = r {
        let first = list@[0]@;
        let all = text::texts(list@);
        folders::law_resolve(first, Seq::empty(), all);
        let fs = workspace_file::folders_of(p.folders@);
        assert(fs.len() == p.folders@.len());
        if 0 <= i < list@.len() {
            assert(fs[i] == p.folders@[i]@);
            let _ = workspace_file::written_folders(first, all)[i];
            assert(all[i] == list@[i]@);
        }
    }
}

/// `discover_roots`: the folders of the workspace file, or else the given folder.
pub proof fn law_discover_roots(
    file: Option<Vec<String>>,
    folder: Option<&str>,
    r: Option<Vec<String>>,
)
    requires
        call_ensures(mcp::discover_roots, (file, folder), r),
    ensures
        file is Some ==> r == file,
        file is None && folder is Some ==> r is Some && r->0@.len() == 1 && r->0@[0]@ == folder->0@,
        file is None && folder is None ==> r is None,
{
    if file is None && folder is Some {
        let t = text::texts(r->0@);
        assert(t.len() == r->0@.len());
        assert(t[0] == r->0@[0]@);
    }
}

/// `try_db_lookup`: by the number in the project name, by that of the mapping, by all the
/// folders and by the first of them, in this order.
pub proof fn law_try_db_lookup(
    project: &str,
    id: i64,
    list: &[String],
    r: Vec<Lookup>,
    parsed: (Option<i64>, String),
    key: String,
)
    requires
        call_ensures(mcp::try_db_lookup, (Some(project), Some(id), list), r),
        call_ensures(settings::parse_project_name, (project,), parsed),
        call_ensures(workspace_db::paths_key, (list,), key),
    ensures
        ({
            let n: int = if parsed.0 is Some {
                1
            } else {
                0
            };
            &&& parsed.0 matches Some(x) ==> r@[0]@ == Query::ById(x)
            &&& r@[n]@ == Query::ById(id)
            &&& r@[n + 1]@ == Query::ByPaths(key@)
            &&& list@.len() > 0 ==> r@[n + 2]@ == Query::ByFolder(list@[0]@)
            &&& r@.len() == n + 2 + (if list@.len() > 0 {
                1int
            } else {
                0int
            })
        }),
{
    let all = text::texts(list@);
    database::law_folder_queries(all);
    let qs = workspace_db::folder_queries(all);
    let a = workspace_db::queries(r@);
    let n: int = if parsed.0 is Some {
        1
    } else {
        0
    };
    assert(a.len() == r@.len());
    assert(a[0] == r@[0]@);
    assert(a[n] == r@[n]@);
    assert(a[n + 1] == r@[n + 1]@ && a[n + 1] == qs[0]);
    if all.len() > 0 {
        assert(all[0] == list@[0]@);
        assert(a[n + 2] == r@[n + 2]@ && a[n + 2] == qs[1]);
    }
}

/// `try_pin_target_root` shows the target root in front where there is one that is not.
pub proof fn law_try_pin(
    list: &[String],
    project: &str,
    holds: &[bool],
    channel: Option<&str>,
    target: Option<String>,
    t: &str,
    front: Option<Vec<String>>,
    r: Option<Invocation>,
)
    requires
        call_ensures(mcp::try_pin_target_root, (list, project, holds, channel), r),
        call_ensures(pinning::determine_target_root, (list, project, holds), target),
        target matches Some(s) ==> s@ == t@,
        call_ensures(pinning::ensure_target_root_first, (list, t), front),
    ensures
        r is Some <==> target is Some && front is Some,
        r matches Some(i) ==> i.command == FolderCommand::Reuse && text::texts(i.paths@)
            == text::texts(front->0@) && text::opt(i.channel) == text::opt_str(channel),
{
}

/// `workspace_status` and `parent_is_gone`.
pub proof fn law_running(
    connected: bool,
    pinged: bool,
    found: bool,
    s: (bool, bool),
    initial: i32,
    current: i32,
    gone: bool,
)
    requires
        call_ensures(mcp::workspace_status, (connected, pinged, found), s),
        call_ensures(mcp::parent_is_gone, (initial, current), gone),
    ensures
        s.0 <==> connected || found,
        s.1 <==> connected && pinged,
        gone <==> current != initial || current <= 1,
{
}

/// `parse_pids`: the numbers of the lines, but for one's own.
pub proof fn law_parse_pids(output: &str, own: u32, r: Vec<u32>)
    requires
        call_ensures(mcp::parse_pids, (output, own), r),
    ensures
        r@ == text::lines(output@).filter_map(
            |l: Seq<char>| decimal::u32_of(text::trim(l)),
        ).filter(|n: u32| n != own),
{
    tools::law_other_pids(text::lines(output@), own);
}

/// `is_parent_zed`: a line with a number other than those of the system and a command that
/// speaks of Zed.
pub proof fn law_is_parent_zed(
    output: &str,
    r: bool,
    a: Seq<char>,
    parent: Seq<char>,
    w: Seq<char>,
    command: Seq<char>,
    b: Seq<char>,
)
    requires
        call_ensures(mcp::is_parent_zed, (output,), r),
        output@ == a + (parent + w + command) + b,
        texts::all_white(a),
        texts::all_white(w),
        texts::all_white(b),
        parent.len() > 0,
        forall|i: int| 0 <= i < parent.len() ==> !text::is_white(#[trigger] parent[i]),
        w.len() > 0,
        command.len() > 0,
        texts::is_trimmed(command),
    ensures
        r <==> parent != seq!['0'] && parent != seq!['1'] && (text::occurs_in("zed"@, command)
            || text::occurs_in("Zed"@, command)),
{
    tools::law_parent_line(a, parent, w, command, b);
}

/// The channel of a workspace: that of its own mapping, of the one above it, or what the
/// path of the database tells.
pub proof fn law_channel(
    own: Option<&WorkspaceMapping>,
    above: Option<&WorkspaceMapping>,
    db: Option<&str>,
    r: Option<String>,
    near: Option<String>,
)
    requires
        call_ensures(sync_engine::resolve_channel_for_path, (own, above, db), r),
        call_ensures(mcp::resolve_channel, (own, db), near),
    ensures
        own matches Some(m) ==> text::opt(r) == text::opt(m.zed_channel) && text::opt(near)
            == text::opt(m.zed_channel),
        own is None ==> (above matches Some(m) ==> text::opt(r) == text::opt(m.zed_channel)),
        own is None && above is None ==> (db matches Some(d) ==> text::opt(r)
            == mapping::channel_of_db(d@)),
        own is None ==> (db matches Some(d) ==> text::opt(near) == mapping::channel_of_db(d@)),
        own is None && above is None && db is None ==> r is None && near is None,
{
}

/// `SyncDirection::parse` and `SyncStamps::conflict`: three names, and a conflict where both
/// sides have changed since the last sync.
pub proof fn law_directions(
    s: &str,
    r: Result<SyncDirection, String>,
    stamps: &SyncStamps,
    c: bool,
)
    requires
        call_ensures(SyncDirection::parse, (s,), r),
        call_ensures(SyncStamps::conflict, (stamps,), c),
    ensures
        r == Ok::<SyncDirection, String>(SyncDirection::FileToZed) <==> s@ == "file_to_zed"@,
        r == Ok::<SyncDirection, String>(SyncDirection::ZedToFile) <==> s@ == "zed_to_file"@,
        r == Ok::<SyncDirection, String>(SyncDirection::Bidirectional) <==> s@ == "bidirectional"@,
        c <==> stamps.db is Some && stamps.file is Some && stamps.last_sync is Some
            && stamps.last_sync->0 < stamps.db->0 && stamps.last_sync->0 < stamps.file->0,
{
    tools::law_direction(s@);
}

/// `first_non_flag`: the first argument behind the program that is no flag.
pub proof fn law_first_non_flag(
    args: &[String],
    r: Option<&str>,
    program: Seq<char>,
    flags: Seq<Seq<char>>,
    sub: Seq<char>,
    rest: Seq<Seq<char>>,
)
    requires
        call_ensures(xtask::first_non_flag, (args,), r),
        forall|i: int| 0 <= i < flags.len() ==> (#[trigger] flags[i]).len() > 0 && flags[i][0] == '-',
        sub.len() == 0 || sub[0] != '-',
    ensures
        text::texts(args@) == seq![program] + flags.push(sub) + rest ==> r is Some && r->0@ == sub,
        text::texts(args@) == seq![program] + flags ==> r is None,
{
    tools::law_subcommand(program, flags, sub, rest);
}

/// `strip_custom_subcommand`: the arguments behind the program without the first that is the
/// command.
pub proof fn law_strip(
    args: &[String],
    sub: &str,
    r: Vec<String>,
    program: Seq<char>,
    a: Seq<Seq<char>>,
    b: Seq<Seq<char>>,
)
    requires
        call_ensures(xtask::strip_custom_subcommand, (args, sub), r),
        sub@.len() > 0 && sub@[0] != '-',
        forall|i: int| 0 <= i < a.len() ==> #[trigger] a[i] != sub@,
    ensures
        text::texts(args@) == seq![program] + a.push(sub@) + b ==> text::texts(r@) == a + b,
        text::texts(args@) == seq![program] + a ==> text::texts(r@) == a,
{
    tools::law_strip(a, sub@, b);
    assert(text::texts(args@).len() == args@.len());
    assert((seq![program] + a.push(sub@) + b).skip(1) == a.push(sub@) + b);
    assert((seq![program] + a).skip(1) == a);
}

/// `stack_args`: what `strip_custom_subcommand` leaves, with `--no-build` behind it unless a
/// build is settled already.
pub proof fn law_stack_args(args: &[String], stack: &str, kept: Vec<String>, r: Vec<String>)
    requires
        call_ensures(xtask::stack_args, (args,), r),
        stack@ == "stack"@,
        call_ensures(xtask::strip_custom_subcommand, (args, stack), kept),
    ensures
        ({
            let k = text::texts(kept@);
            &&& k.contains("--no-build"@) || k.contains("--dylib"@) ==> text::texts(r@) == k
            &&& !k.contains("--no-build"@) && !k.contains("--dylib"@) ==> text::texts(r@) == k.push(
                "--no-build"@,
            )
        }),
{
}

/// `choose_task`: by the command that `first_non_flag` finds, and its help where that is
/// asked for.
pub proof fn law_choose_task(args: &[String], sub: Option<&str>, r: Task)
    requires
        call_ensures(xtask::choose_task, (args,), r),
        call_ensures(xtask::first_non_flag, (args,), sub),
    ensures
        ({
            let all = text::texts(args@);
            let help = all.contains("--help"@) || all.contains("-h"@);
            let s = text::opt_str(sub);
            &&& (r is Stack || r is StackHelp) <==> s == Some("stack"@)
            &&& (r is Doctor || r is DoctorHelp) <==> s == Some("doctor"@)
            &&& (r is StackHelp || r is DoctorHelp || r is PatchHelp) <==> help
        }),
{
    reveal_strlit("stack");
    reveal_strlit("doctor");
    assert("stack"@.len() != "doctor"@.len());
}

/// `expand_tilde`: the home directory in place of `~` in front of a slash, and nothing else.
pub proof fn law_tilde(path: &str, home: Option<&str>, r: String, rest: Seq<char>)
    requires
        call_ensures(xtask::expand_tilde, (path, home), r),
    ensures
        home matches Some(h) ==> (path@ == seq!['~', '/'] + rest ==> r@ == components::join(h@, rest)),
        home is None ==> r@ == path@,
        path@.len() < 2 || path@[0] != '~' || path@[1] != '/' ==> r@ == path@,
{
    match home {
        Some(h) => {
            tools::law_tilde(rest, h@, path@);
        },
        None => {
            tools::law_tilde(rest, Seq::empty(), path@);
        },
    }
}

/// `matches_simple_glob`: a pattern without a star matches itself, one with a star at its end
/// matches what starts so, and nothing matches a star between two texts but what starts with
/// the one and ends with the other.
pub proof fn law_glob(s: &str, pattern: &str, r: bool, a: Seq<char>, b: Seq<char>)
    requires
        call_ensures(xtask::matches_simple_glob, (s, pattern), r),
        !a.contains('*'),
        !b.contains('*'),
        b.len() > 0,
    ensures
        pattern@ == a ==> (r <==> s@ == a),
        pattern@ == a + seq!['*'] ==> (r <==> a.is_prefix_of(s@)),
        pattern@ == a + seq!['*'] + b && r ==> exists|y: Seq<char>| s@ == #[trigger] (a + y + b),
{
    tools::law_glob(a, s@);
    if pattern@ == a + seq!['*'] + b && r {
        let y = tools::law_glob_parts(a, b, s@);
        assert(s@ == a + y + b);
    }
}

/// `resolve_glob_latest`: a file whose name matches, with none changed later; and one wherever
/// some match.
pub proof fn law_latest(pattern: &str, files: &[FoundFile], r: Option<String>, k: int, n: Seq<char>)
    requires
        call_ensures(xtask::resolve_glob_latest, (pattern, files), r),
        0 <= k < files@.len(),
        components::file_name(files@[k].path@) == Some(n),
        xtask::matches_glob(n, pattern@),
    ensures
        r is Some,
        exists|i: int|
            0 <= i < files@.len() && (#[trigger] files@[i]).path@ == r->0@ && (
            components::file_name(files@[i].path@) matches Some(m) && xtask::matches_glob(
                m,
                pattern@,
            )) && (files@[k].modified is Some && files@[i].modified is Some ==> files@[k].modified->0
                <= files@[i].modified->0),
{
    assert(xtask::is_log(files@[k], pattern@));
    if let Some(p) = r {
        let i = choose|i: int| xtask::is_latest(files@, pattern@, i) && files@[i].path@ == p@;
        tools::law_latest(files@, pattern@, i, k, n);
        assert(files@[i].path@ == r->0@);
    }
}

/// `last_lines`: the end of the lines, of the given length where there are as many.
pub proof fn law_last_lines(
    content: &str,
    n: usize,
    r: Vec<String>,
    a: Seq<Seq<char>>,
    b: Seq<Seq<char>>,
)
    requires
        call_ensures(xtask::last_lines, (content, n), r),
        text::lines(content@) == a + b,
        b.len() == n || a.len() == 0 && b.len() <= n,
    ensures
        text::texts(r@) == b,
{
    if a.len() > 0 {
        assert((a + b).skip(a.len() as int) == b);
    } else {
        assert(a + b == b);
        assert(b.skip(0) == b);
    }
}

/// `result_line`: the first line that holds a result, or else the first line, unless all of
/// it is blank.
pub proof fn law_result_line(
    output: &str,
    r: Option<String>,
    a: Seq<Seq<char>>,
    l: Seq<char>,
    b: Seq<Seq<char>>,
)
    requires
        call_ensures(xtask::result_line, (output,), r),
        forall|i: int| 0 <= i < a.len() ==> !text::occurs_in("\"result\""@, #[trigger] a[i]),
    ensures
        text::lines(output@) == a.push(l) + b && text::occurs_in("\"result\""@, l) ==> r is Some
            && r->0@ == l,
        text::lines(output@) == a && text::trim(output@).len() == 0 ==> r is None,
        text::lines(output@) == a && text::trim(output@).len() > 0 && a.len() > 0 ==> r is Some
            && r->0@ == a[0],
{
    tools::law_result_line(a, l, b);
    if text::lines(output@) == a.push(l) + b {
        assert((a.push(l) + b)[a.len() as int] == l);
    }
}

/// `injected_hooks`: the lines that speak of a hook, without the white space round them.
pub proof fn law_injected_hooks(output: &str, r: Vec<String>)
    requires
        call_ensures(xtask::injected_hooks, (output,), r),
    ensures
        text::texts(r@) == text::lines(output@).filter(
            |l: Seq<char>| text::occurs_in("yolo"@, l) || text::occurs_in("prj"@, l),
        ).map_values(|l: Seq<char>| text::trim(l)),
{
    tools::law_hook_lines(text::lines(output@));
}

/// `await_answer` and `await_quit`: what has ended is taken, what has had its time is stopped,
/// and anything else is waited for.
pub proof fn law_waits(
    ended: bool,
    waited: u64,
    limit: u64,
    w: Wait,
    running: bool,
    waits: u64,
    q: Quit,
)
    requires
        call_ensures(xtask::await_answer, (ended, waited, limit), w),
        call_ensures(xtask::await_quit, (running, waits), q),
    ensures
        w is Take <==> ended,
        w is GiveUp <==> !ended && waited >= limit,
        w is Sleep <==> !ended && waited < limit,
        w is Sleep ==> w == (Wait::Sleep { ms: 100 }),
        q is Stopped <==> !running,
        q is Sleep <==> running && waits < 10,
        q is Kill <==> running && waits >= 10,
        q is Sleep ==> q == (Quit::Sleep { ms: 500 }),
        q is Kill ==> q == (Quit::Kill { ms: 2000 }),
{
}

/// `detect_db_path`: the two places for an application, that of the stable one and the
/// others'.
pub proof fn law_detect_db(home: &str, app: &str, r: Vec<String>)
    requires
        call_ensures(xtask::detect_db_path, (home, app), r),
        home@.len() > 0,
        home@[home@.len() - 1] != '/',
    ensures
        ({
            let dir = home@ + seq!['/'] + "Library/Application Support/Zed/db"@;
            &&& text::texts(r@).len() == 2
            &&& app@ == "zed-stable"@ ==> text::texts(r@)[0] == components::join(dir, "0/db.sqlite"@)
                && text::texts(r@)[1] == components::join(dir, "0-stable/db.sqlite"@)
            &&& app@ != "zed-stable"@ ==> text::texts(r@)[0] == components::join(
                dir,
                "0-preview/db.sqlite"@,
            ) && text::texts(r@)[1] == components::join(dir, "0/db.sqlite"@)
        }),
{
    tools::law_db_dir(home@);
}

} // verus!
