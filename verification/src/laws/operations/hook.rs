//! Laws of the hook's operations: the writes that it watches, when it acts on one, what it
//! does then, and what it and its clients say to each other.
use vstd::prelude::*;

use vstd::utf8::encode_utf8;

use crate::components;
use crate::hook::config;
use crate::hook::picker_sort;
use crate::hook::picker_sort::NameWords;
use crate::hook::socket_server;
use crate::hook::socket_server::{Dispatch, Request};
use crate::hook::sqlite3_bind;
use crate::hook::sqlite3_prepare;
use crate::hook::sqlite3_prepare::{TARGET_NONE, TARGET_PENDING, TARGET_SET};
use crate::hook::startup;
use crate::hook::startup::{Startup, Surroundings};
use crate::hook::symbols;
use crate::hook::symbols::Place;
use crate::hook::sync;
use crate::hook::sync::{Course, Debounce, Gate, Lookup, PinPlan, SyncQueue, Synced, WriteTask};
use crate::hook_client;
use crate::hook_client::{FolderCommand, HookClient, HookResponse};
use crate::json;
use crate::laws::folders;
use crate::laws::hook;
use crate::laws::hook::{is_verb, spells};
use crate::laws::texts;
use crate::order;
use crate::paths;
use crate::pinning;
use crate::settings;
use crate::sync_engine;
use crate::sync_engine::{SyncDirection, SyncOutcome, SyncStamps};
use crate::text;
use crate::workspace_db::WorkspaceRecord;
use crate::workspace_file;
use crate::workspace_file::{CodeWorkspaceFile, Error};

verus! {

/// `is_workspace_write`: a verb that writes and, anywhere behind it, the name of the table,
/// whatever stands in front of the name and whatever behind it, in any case and with white
/// space in front, where that is long enough.
pub proof fn law_is_workspace_write(
    sql: &str,
    r: bool,
    space: Seq<char>,
    verb: Seq<char>,
    a: Seq<char>,
    table: Seq<char>,
    b: Seq<char>,
)
    requires
        call_ensures(sqlite3_prepare::is_workspace_write, (sql,), r),
        sql@ == space + (verb + a + table + b),
        texts::all_white(space),
        is_verb(verb),
        spells(table, "workspaces"@),
    ensures
        r <==> encode_utf8(verb + a + table + b).len() >= 20,
{
    hook::law_workspace_write(space, verb, a, table, b);
}

/// `is_workspace_write` holds of nothing else.
pub proof fn law_no_other_write(sql: &str, r: bool) -> (t: (
    Seq<char>,
    Seq<char>,
    Seq<char>,
    Seq<char>,
    Seq<char>,
))
    requires
        call_ensures(sqlite3_prepare::is_workspace_write, (sql,), r),
    ensures
        r ==> sql@ == t.0 + (t.1 + t.2 + t.3 + t.4) && texts::all_white(t.0) && is_verb(t.1)
            && spells(t.3, "workspaces"@) && encode_utf8(t.1 + t.2 + t.3 + t.4).len() >= 20,
{
    if r {
        hook::law_no_other_write(sql@)
    } else {
        (sql@, sql@, sql@, sql@, sql@)
    }
}

/// A write is looked at unless there is no target; its workspace is the first value bound to
/// a statement that is watched; and a function stands replaced where the one it replaced is
/// known.
pub proof fn law_watch(state: u8, watched: bool, index: i32, value: i64, original: usize)
    ensures
        call_ensures(sqlite3_prepare::should_inspect, (state,), true) ==> state != TARGET_NONE,
        call_ensures(sqlite3_prepare::should_inspect, (state,), false) ==> state == TARGET_NONE,
        TARGET_NONE != TARGET_SET && TARGET_SET != TARGET_PENDING && TARGET_NONE != TARGET_PENDING,
        forall|r: Option<i64>| #[trigger]
            call_ensures(sqlite3_bind::captured_workspace, (watched, index, value), r) ==> (r is Some
                <==> watched && index == 1) && (r is Some ==> r->0 == value),
        forall|r: bool| #[trigger]
            call_ensures(sqlite3_bind::is_installed, (original,), r) ==> (r <==> original != 0),
{
}

/// `SyncQueue`: a workspace waits once, behind those that waited before; one thread is
/// asked for at a time, and it takes out the workspace that has waited longest.
pub proof fn law_queue(q: &mut SyncQueue, id: i64, started: bool, t: &mut SyncQueue, taken: Option<i64>)
    requires
        old(q).wf(),
        old(t).wf(),
        call_ensures(SyncQueue::enqueue_workspace_sync, (q, id), started),
        call_ensures(SyncQueue::take_next, (t,), taken),
    ensures
        final(q).wf() && final(t).wf(),
        old(q).waits().contains(id) ==> final(q).waits() == old(q).waits(),
        !old(q).waits().contains(id) ==> final(q).waits() == old(q).waits().push(id),
        started <==> !old(q).is_draining(),
        final(q).is_draining(),
        taken is None <==> old(t).waits().len() == 0,
        taken matches Some(n) ==> old(t).waits() == seq![n] + final(t).waits(),
        final(t).is_draining() <==> taken is Some,
{
    if let Some(n) = taken {
        assert(t.waits() =~= seq![n] + t.waits().skip(1));
    }
}

/// `Debounce`: a workspace cools for the given time after it was recorded, and recording it
/// says nothing of the others.
pub proof fn law_debounce(
    d: &mut Debounce,
    id: i64,
    at: u64,
    after: &Debounce,
    other: i64,
    passed: u64,
    cooldown: u64,
    r: bool,
    before: bool,
    same: bool,
)
    requires
        call_ensures(Debounce::record, (d, id, at), ()),
        *after == *final(d),
        at + passed <= u64::MAX,
        other != id,
        call_ensures(Debounce::cooling, (after, id, (at + passed) as u64, cooldown), r),
        call_ensures(Debounce::cooling, (&*old(d), other, at, cooldown), before),
        call_ensures(Debounce::cooling, (after, other, at, cooldown), same),
    ensures
        r <==> passed < cooldown,
        same == before,
{
    hook::law_cooldown(at, passed, cooldown);
}

/// `run_sync`: a sync runs where there is a target that does not cool and whose file is
/// there.
pub proof fn law_run_sync(
    target: Option<i64>,
    d: &Debounce,
    now: u64,
    cooldown: u64,
    file: bool,
    cools: bool,
    r: Gate,
)
    requires
        call_ensures(sync::run_sync, (target, d, now, cooldown, file), r),
        target matches Some(id) ==> call_ensures(Debounce::cooling, (d, id, now, cooldown), cools),
    ensures
        r is NoTarget <==> target is None,
        r is Cooling <==> target is Some && cools,
        r is Lost <==> target is Some && !cools && !file,
        r is Sync <==> target is Some && !cools && file,
{
}

/// `run_discovery_due`: a discovery is due that never ran, or whose time has passed.
pub proof fn law_discovery_due(last: u64, passed: u64, cooldown: u64, r: bool)
    requires
        last + passed <= u64::MAX,
        call_ensures(sync::run_discovery_due, (last, (last + passed) as u64, cooldown), r),
    ensures
        r <==> last == 0 || passed >= cooldown,
{
    hook::law_cooldown(last, passed, cooldown);
}

/// A write starts work unless a sync waits already, and looks for the target only where
/// that is pending; a workspace that is gone is asked for by its folders, and is given up
/// where those are unknown too.
pub proof fn law_on_write(
    pending: bool,
    state: u8,
    task: Option<WriteTask>,
    record: WorkspaceRecord,
)
    requires
        call_ensures(sync::on_workspace_write_detected, (pending, state), task),
    ensures
        task is Some <==> !pending,
        task matches Some(t) ==> (t.discover <==> state == TARGET_PENDING),
        forall|c: Course| #[trigger]
            call_ensures(sync::follow_workspace, (Lookup::ById(Some(record)),), c) ==> c
                == Course::Sync(record),
        forall|c: Course| #[trigger]
            call_ensures(sync::follow_workspace, (Lookup::ByFolders(Some(record)),), c) ==> c
                == Course::Retarget(record),
        forall|c: Course| #[trigger]
            call_ensures(sync::follow_workspace, (Lookup::ById(None),), c) ==> c is AskByFolders,
        forall|c: Course| #[trigger]
            call_ensures(sync::follow_workspace, (Lookup::ByFolders(None),), c) ==> c == (
            Course::Drop { state: TARGET_PENDING }),
{
}

/// `do_event_driven_sync` leaves the file as `execute_sync` does that lets it follow Zed, and
/// changes it exactly where the folders of the two differ, or their order.
pub proof fn law_event_sync(
    ws: &mut CodeWorkspaceFile,
    other: &mut CodeWorkspaceFile,
    path: &str,
    db: &[String],
    stamps: SyncStamps,
    r: Result<bool, Error>,
    o: Result<SyncOutcome, Error>,
    base: Seq<char>,
)
    requires
        call_ensures(sync::do_event_driven_sync, (ws, path, db), r),
        call_ensures(
            sync_engine::execute_sync,
            (other, path, db, SyncDirection::ZedToFile, stamps),
            o,
        ),
        *old(ws) == *old(other),
        components::parent(path@) == Some(base),
    ensures
        final(ws).list() == final(other).list(),
        final(ws).extra == old(ws).extra,
        r is Ok,
        ({
            let file = workspace_file::targets(base, old(ws).list());
            let d = text::texts(db@);
            !r->Ok_0 <==> file.len() == d.len() && forall|i: int|
                #![trigger file[i]]
                0 <= i < file.len() ==> paths::normal(file[i]) == paths::normal(d[i])
        }),
        !r->Ok_0 ==> final(ws).list() == old(ws).list(),
{
    folders::law_matches(workspace_file::targets(base, ws.list()), text::texts(db@));
}

/// `check_pinning_needed`: there is a target root, and it does not stand in front.
pub proof fn law_check_pinning(
    shown: &[String],
    project: &str,
    holds: &[bool],
    target: Option<String>,
    t: &str,
    front: Option<Vec<String>>,
    r: bool,
)
    requires
        call_ensures(sync::check_pinning_needed, (shown, project, holds), r),
        call_ensures(pinning::determine_target_root, (shown, project, holds), target),
        target matches Some(s) ==> s@ == t@,
        call_ensures(pinning::ensure_target_root_first, (shown, t), front),
    ensures
        r <==> target is Some && front is Some,
{
}

/// `sync_and_check` edits the file as `do_event_driven_sync` does, and asks for a pinning
/// where there is a project name for which `check_pinning_needed` does.
pub proof fn law_sync_and_check(
    ws: &mut CodeWorkspaceFile,
    other: &mut CodeWorkspaceFile,
    path: &str,
    db: &[String],
    project: Option<&str>,
    holds: &[bool],
    r: Result<Synced, Error>,
    o: Result<bool, Error>,
    due: bool,
)
    requires
        call_ensures(sync::sync_and_check, (ws, path, db, project, holds), r),
        call_ensures(sync::do_event_driven_sync, (other, path, db), o),
        *old(ws) == *old(other),
        project matches Some(p) ==> call_ensures(sync::check_pinning_needed, (db, p, holds), due),
    ensures
        r is Ok <==> o is Ok,
        r is Ok ==> final(ws).list() == final(other).list() && r->Ok_0.modified == o->Ok_0,
        r is Ok ==> (r->Ok_0.repin <==> project is Some && due),
{
}

/// `run_pinning`: the target root of the paths as they are shown, with the order that
/// corrects theirs and the command that shows it in front.
pub proof fn law_run_pinning(
    record: &WorkspaceRecord,
    project: &str,
    holds: &[bool],
    channel: Option<&str>,
    shown: Vec<String>,
    row: &[String],
    target: Option<String>,
    t: &str,
    front: Option<Vec<String>>,
    lex: &[String],
    positions: &[usize],
    list: String,
    written: &str,
    fixed: Option<String>,
    r: Option<PinPlan>,
)
    requires
        call_ensures(sync::run_pinning, (record, project, holds, channel), r),
        call_ensures(WorkspaceRecord::ordered_paths, (record,), shown),
        row@ == shown@,
        call_ensures(pinning::determine_target_root, (row, project, holds), target),
        target matches Some(s) ==> s@ == t@,
        call_ensures(pinning::ensure_target_root_first, (row, t), front),
        lex@ == record.paths@,
        positions@ == record.paths_order@,
        call_ensures(order::write_positions, (positions,), list),
        written@ == list@,
        call_ensures(pinning::correct_paths_order, (lex, written, t), fixed),
    ensures
        r is Some <==> target is Some,
        r matches Some(p) ==> {
            &&& p.target@ == t@
            &&& text::opt(p.new_order) == text::opt(fixed)
            &&& p.reuse is Some <==> front is Some
            &&& p.reuse matches Some(i) ==> i.command == FolderCommand::Reuse && text::texts(i.paths@)
                == text::texts(front->0@) && text::opt(i.channel) == text::opt_str(channel)
        },
{
}

/// `find_project_name`: the first name among the roots, or else that of the directory.
pub proof fn law_find_project_name(
    names: &[Option<String>],
    dir: Option<&str>,
    a: Seq<Option<String>>,
    n: String,
    b: Seq<Option<String>>,
    r: Option<String>,
)
    requires
        call_ensures(sync::find_project_name, (names, dir), r),
        forall|i: int| 0 <= i < a.len() ==> #[trigger] a[i] is None,
    ensures
        names@ == a.push(Some(n)) + b ==> r is Some && r->0@ == n@,
        names@ == a ==> text::opt(r) == text::opt_str(dir),
{
    hook::law_name_given(a, n, b, text::opt_str(dir));
}

/// `update_workspace_target`: the name stays and the number is the new one.
pub proof fn law_update_target(
    raw: &str,
    id: i64,
    parsed: (Option<i64>, String),
    name: &str,
    wanted: String,
    r: String,
)
    requires
        call_ensures(sync::update_workspace_target, (raw, id), r),
        call_ensures(settings::parse_project_name, (raw,), parsed),
        name@ == parsed.1@,
        call_ensures(settings::format_project_name, (id, name), wanted),
    ensures
        r@ == wanted@,
{
}

/// `find_target`: the place of the first entry of that name, unless it is in front.
pub proof fn law_find_target(names: &[Option<String>], target: &str, r: Option<usize>, i: int)
    requires
        call_ensures(picker_sort::find_target, (names, target), r),
    ensures
        0 <= i < names@.len() && (names@[i] matches Some(n) && n@ == target@) && (forall|k: int|
            0 <= k < i ==> !(#[trigger] names@[k] matches Some(n) && n@ == target@)) ==> r == (if i
            > 0 {
            Some(i as usize)
        } else {
            None
        }),
        (forall|k: int|
            0 <= k < names@.len() ==> !(#[trigger] names@[k] matches Some(n) && n@ == target@))
            ==> r is None,
{
    hook::law_picker_entry(names@, target@, i);
}

/// `pin_target_to_front`: the entry comes to the front, and the others keep their order.
pub proof fn law_pin_to_front(
    data: &[u8],
    index: usize,
    r: Vec<u8>,
    a: Seq<u8>,
    e: Seq<u8>,
    b: Seq<u8>,
)
    requires
        call_ensures(picker_sort::pin_target_to_front, (data, index), r),
        data@ == a + e + b,
        a.len() == index * 88,
        e.len() == 88,
    ensures
        r@ == e + a + b,
{
    hook::law_rotate(a, e, b, index as int);
}

/// `read_entry_name`: the text of a borrowed name starts where it says, that of a shared one
/// two words behind; names of no length, of too great a length, and such as lie at no address
/// have none.
pub proof fn law_read_entry_name(w: NameWords, r: Option<(u64, u64)>)
    requires
        call_ensures(picker_sort::read_entry_name, (Some(w),), r),
    ensures
        r matches Some(p) ==> p.1 == w.len && (w.tag == 0 || w.tag == 1) && 1 <= w.len <= 4096,
        r matches Some(p) ==> (w.tag == 0 ==> p.0 == w.base),
        r matches Some(p) ==> (w.tag == 1 && w.base + 16 <= u64::MAX ==> p.0 == w.base + 16),
        w.tag == 0 && 1 <= w.len <= 4096 ==> (r is Some <==> w.base >= 4096),
        w.tag == 1 && 1 <= w.len <= 4096 && 0 < w.base && w.base + 16 <= u64::MAX ==> (r is Some
            <==> w.base + 16 >= 4096),
{
    hook::law_entry_name(w);
}

/// `find_by_pattern`: the first export whose name holds all that is wanted and nothing that
/// is not, or else the first such symbol.
pub proof fn law_find_by_pattern(
    exports: &[String],
    others: &[String],
    wanted: &[String],
    unwanted: &[String],
    r: Option<Place>,
    i: int,
)
    requires
        call_ensures(symbols::find_by_pattern, (exports, others, wanted, unwanted), r),
        exports@.len() <= usize::MAX,
        others@.len() <= usize::MAX,
    ensures
        ({
            let w = text::texts(wanted@);
            let u = text::texts(unwanted@);
            let fits = |n: Seq<char>|
                (forall|k: int| 0 <= k < w.len() ==> text::occurs_in(#[trigger] w[k], n)) && (forall|
                    k: int,
                |
                    0 <= k < u.len() ==> !text::occurs_in(#[trigger] u[k], n));
            let first = |row: Seq<Seq<char>>|
                0 <= i < row.len() && fits(row[i]) && forall|k: int|
                    0 <= k < i ==> !fits(#[trigger] row[k]);
            let none = |row: Seq<Seq<char>>|
                forall|k: int| 0 <= k < row.len() ==> !fits(#[trigger] row[k]);
            &&& first(text::texts(exports@)) ==> r == Some(Place::Export(i as usize))
            &&& none(text::texts(exports@)) && first(text::texts(others@)) ==> r == Some(
                Place::Symbol(i as usize),
            )
            &&& none(text::texts(exports@)) && none(text::texts(others@)) ==> r is None
        }),
{
    hook::law_found(
        text::texts(exports@),
        text::texts(others@),
        text::texts(wanted@),
        text::texts(unwanted@),
        i,
    );
}

/// What a client writes arrives: the hook reads the command and the paths that the client
/// sent, and acts on them.
pub proof fn law_request_arrives(
    client: &HookClient,
    paths: &[String],
    added: String,
    reused: String,
    a: &str,
    b: &str,
    x: Result<Request, String>,
    y: Result<Request, String>,
)
    requires
        call_ensures(HookClient::add_folders, (client, paths), added),
        call_ensures(HookClient::reuse_folders, (client, paths), reused),
        a@ == added@,
        b@ == reused@,
        call_ensures(socket_server::read_request, (a,), x),
        call_ensures(socket_server::read_request, (b,), y),
    ensures
        x is Ok && y is Ok,
        x->Ok_0.cmd@ == "add_folders"@ && y->Ok_0.cmd@ == "reuse_folders"@,
        text::texts(x->Ok_0.paths@) == text::texts(paths@),
        text::texts(y->Ok_0.paths@) == text::texts(paths@),
        !added@.contains('\n') && !reused@.contains('\n'),
{
    socket_server::lemma_request_arrives(a@, "add_folders"@, text::texts(paths@));
    socket_server::lemma_request_arrives(b@, "reuse_folders"@, text::texts(paths@));
}

/// `dispatch_command`: folders are opened for the two commands that bring some; the two
/// questions are answered with the channel; and anything else is refused.
pub proof fn law_dispatch_command(req: &Request, channel: &str, pid: u32, d: Dispatch)
    requires
        call_ensures(socket_server::dispatch_command, (req, channel, pid), d),
    ensures
        req.cmd@ == "add_folders"@ && req.paths@.len() > 0 ==> d == (Dispatch::Open { reuse: false }),
        req.cmd@ == "reuse_folders"@ && req.paths@.len() > 0 ==> d == (Dispatch::Open {
            reuse: true,
        }),
        d is Open ==> req.paths@.len() > 0 && (req.cmd@ == "add_folders"@ || req.cmd@
            == "reuse_folders"@),
        req.cmd@ == "ping"@ || req.cmd@ == "status"@ ==> (d matches Dispatch::Answer(t)
            && json::object_in(t@) == Some(socket_server::status_entries(channel@, pid))),
        d matches Dispatch::Answer(t) ==> (hook_client::flag_in(t@, "ok"@) <==> req.cmd@ == "ping"@
            || req.cmd@ == "status"@) && !t@.contains('\n'),
{
    reveal_strlit("add_folders");
    reveal_strlit("reuse_folders");
    reveal_strlit("ping");
    reveal_strlit("status");
    reveal_strlit("ok");
    reveal_strlit("pid");
    reveal_strlit("channel");
    reveal_strlit("version");
    reveal_strlit("error");
    assert("add_folders"@.len() == 11 && "reuse_folders"@.len() == 13 && "ping"@.len() == 4
        && "status"@.len() == 6);
    assert("ok"@.len() == 2 && "pid"@.len() == 3 && "channel"@.len() == 7 && "version"@.len() == 7
        && "error"@.len() == 5);
}

/// What the hook answers arrives: a refusal that is no blank line is read as one with its
/// reason, and a yes as a yes without any.
pub proof fn law_answer_arrives(
    msg: &str,
    no: String,
    yes: String,
    a: &str,
    b: &str,
    x: Option<Result<HookResponse, String>>,
    y: Option<Result<HookResponse, String>>,
)
    requires
        call_ensures(socket_server::error_response, (msg,), no),
        call_ensures(socket_server::ok_response, (), yes),
        a@ == no@,
        b@ == yes@,
        text::trim(a@).len() > 0,
        call_ensures(hook_client::read_reply, (a,), x),
        call_ensures(hook_client::read_reply, (b,), y),
    ensures
        x matches Some(Ok(h)) && !h.ok && text::opt(h.error) == Some(msg@),
        y matches Some(Ok(h)) && h.ok && h.error is None,
{
    reveal_strlit("ok");
    reveal_strlit("error");
    reveal_strlit("{\"ok\":true}");
    assert("ok"@.len() == 2 && "error"@.len() == 5);
    let none = Seq::<char>::empty();
    assert(b@.len() == 11 && b@[0] == '{' && b@[10] == '}');
    assert(none + b@ + none == b@);
    texts::law_trim(none, b@, none);
}

/// `init_inner`: the hook is installed where it is switched on and writes can be seen, with
/// what was found of the rest.
pub proof fn law_init(s: Surroundings, r: Startup)
    requires
        call_ensures(startup::init_inner, (s,), r),
    ensures
        r is Disabled <==> !s.enabled,
        r is NotInstalled <==> s.enabled && !s.prepare,
        r is Install <==> s.enabled && s.prepare,
        r matches Startup::Install(i) ==> i.bind == s.bind && i.picker == s.picker,
        r matches Startup::Install(i) ==> (s.channel matches Some(c) ==> i.app_id@ == "zed-"@ + c@
            && i.socket_channel@ == c@),
        r matches Startup::Install(i) ==> (s.channel is None ==> i.app_id@ == "zed"@
            && i.socket_channel@ == "unknown"@),
{
    if let Some(c) = s.channel {
        hook::law_app(Seq::empty(), Seq::empty(), c@);
    } else {
        hook::law_app(Seq::empty(), Seq::empty(), Seq::empty());
    }
}

/// `SyncConfig::load`: the environment counts before the file, and the file before what holds
/// without one.
pub proof fn law_load(
    file: Option<config::SyncConfig>,
    var: Option<&str>,
    log: Option<&str>,
    c: config::SyncConfig,
)
    requires
        call_ensures(config::SyncConfig::load, (file, var, log), c),
    ensures
        var matches Some(v) ==> (c.enabled <==> v@ != "0"@ && v@ != "off"@ && v@ != "disabled"@ && v@
            != "false"@),
        var is None ==> (c.enabled <==> file is None || file->0.enabled),
        log matches Some(l) ==> (l@.len() > 0 ==> c.log_level@ == l@),
        log is None ==> c.log_level@ == (match file {
            Some(f) => f.log_level@,
            None => "info"@,
        }),
        file matches Some(f) ==> c.sync_delay_ms == f.sync_delay_ms && c.sync_cooldown_ms
            == f.sync_cooldown_ms && c.discovery_cooldown_s == f.discovery_cooldown_s,
        file is None ==> c.sync_delay_ms == 300 && c.sync_cooldown_ms == 1000
            && c.discovery_cooldown_s == 30,
{
    hook::law_switch(c, file, text::opt_str(var), text::opt_str(log));
}

} // verus!
