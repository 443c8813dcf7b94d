//! Laws of what the hook does inside Zed.
use vstd::prelude::*;
use vstd::utf8::encode_utf8;

use crate::components;
use crate::hook::config;
use crate::hook::config::SyncConfig;
use crate::hook::picker_sort;
use crate::hook::socket_server;
use crate::hook::socket_server::Dispatch;
use crate::hook::sqlite3_prepare;
use crate::hook::symbols;
use crate::hook::symbols::Place;
use crate::hook::sync;
use crate::hook_client;
use crate::json;
use crate::json::Entry;
use crate::laws::paths;
use crate::laws::texts;
use crate::search;
use crate::settings;
use crate::text;

verus! {

broadcast use vstd::string::group_string_axioms;

/// The text is the given one, with any of its small letters as capitals.
pub open spec fn spells(s: Seq<char>, letters: Seq<char>) -> bool {
    s.len() == letters.len() && forall|k: int|
        0 <= k < s.len() ==> (#[trigger] s[k] == letters[k] || ('a' <= letters[k] <= 'z' && s[k] as int
            == letters[k] as int - 32))
}

/// The text is a verb by which SQL writes, with the blank behind it.
pub open spec fn is_verb(v: Seq<char>) -> bool {
    spells(v, "insert "@) || spells(v, "update "@) || spells(v, "delete "@)
}

proof fn lemma_letters()
    ensures
        "INSERT "@.len() == 7 && "UPDATE "@.len() == 7 && "DELETE "@.len() == 7,
        "insert "@.len() == 7 && "update "@.len() == 7 && "delete "@.len() == 7,
        "workspaces"@.len() == 10,
        spells("INSERT "@, "insert "@),
        spells("UPDATE "@, "update "@),
        spells("DELETE "@, "delete "@),
        forall|k: int|
            0 <= k < 7 ==> ('a' <= #[trigger] "insert "@[k] <= 'z' || "insert "@[k] == ' '),
        forall|k: int|
            0 <= k < 7 ==> ('a' <= #[trigger] "update "@[k] <= 'z' || "update "@[k] == ' '),
        forall|k: int|
            0 <= k < 7 ==> ('a' <= #[trigger] "delete "@[k] <= 'z' || "delete "@[k] == ' '),
        forall|k: int| 0 <= k < 10 ==> 'a' <= #[trigger] "workspaces"@[k] <= 'z',
{
    reveal_strlit("INSERT ");
    reveal_strlit("UPDATE ");
    reveal_strlit("DELETE ");
    reveal_strlit("insert ");
    reveal_strlit("update ");
    reveal_strlit("delete ");
    reveal_strlit("workspaces");
}

/// Two spellings of the same small letters are the same but for case, and what is the
/// same but for case is a spelling.
proof fn lemma_spells(s: Seq<char>, at: int, pat: Seq<char>, letters: Seq<char>)
    requires
        spells(pat, letters),
        forall|k: int|
            0 <= k < letters.len() ==> ('a' <= #[trigger] letters[k] <= 'z' || letters[k] == ' '),
    ensures
        sqlite3_prepare::occurs_loosely(pat, s, at) <==> 0 <= at <= s.len() - letters.len()
            && spells(s.subrange(at, at + letters.len()), letters),
{
    let n = letters.len() as int;
    if 0 <= at <= s.len() - n {
        let x = s.subrange(at, at + n);
        assert forall|k: int| 0 <= k < n implies (sqlite3_prepare::small(s[at + k])
            == sqlite3_prepare::small(pat[k])) == (#[trigger] x[k] == letters[k] || ('a' <= letters[k]
            <= 'z' && x[k] as int == letters[k] as int - 32)) by {
            assert(x[k] == s[at + k]);
            assert(pat[k] == letters[k] || ('a' <= letters[k] <= 'z' && pat[k] as int
                == letters[k] as int - 32));
            assert('a' <= letters[k] <= 'z' || letters[k] == ' ');
        }
        if sqlite3_prepare::occurs_loosely(pat, s, at) {
            assert forall|k: int| 0 <= k < x.len() implies (#[trigger] x[k] == letters[k] || ('a'
                <= letters[k] <= 'z' && x[k] as int == letters[k] as int - 32)) by {
                assert(sqlite3_prepare::small(s[at + k]) == sqlite3_prepare::small(pat[k]));
            }
        }
        if spells(x, letters) {
            assert forall|k: int| 0 <= k < pat.len() implies sqlite3_prepare::small(
                #[trigger] s[at + k],
            ) == sqlite3_prepare::small(pat[k]) by {
                assert(x[k] == s[at + k]);
            }
        }
    }
}

proof fn lemma_verb(s: Seq<char>)
    ensures
        (sqlite3_prepare::occurs_loosely("INSERT "@, s, 0) || sqlite3_prepare::occurs_loosely(
            "UPDATE "@,
            s,
            0,
        ) || sqlite3_prepare::occurs_loosely("DELETE "@, s, 0)) <==> s.len() >= 7 && is_verb(
            s.take(7),
        ),
{
    lemma_letters();
    lemma_spells(s, 0, "INSERT "@, "insert "@);
    lemma_spells(s, 0, "UPDATE "@, "update "@);
    lemma_spells(s, 0, "DELETE "@, "delete "@);
    if s.len() >= 7 {
        assert(s.subrange(0, 7) == s.take(7));
    }
}

/// A verb that writes, anything, the name of the table, anything: in any case, and with
/// any white space in front, that writes a workspace where it is long enough.
pub proof fn law_workspace_write(
    space: Seq<char>,
    verb: Seq<char>,
    a: Seq<char>,
    table: Seq<char>,
    b: Seq<char>,
)
    requires
        texts::all_white(space),
        is_verb(verb),
        spells(table, "workspaces"@),
    ensures
        sqlite3_prepare::writes_workspace(space + (verb + a + table + b)) <==> encode_utf8(
            verb + a + table + b,
        ).len() >= 20,
{
    let s = verb + a + table + b;
    lemma_letters();
    assert('a' <= "insert "@[0] <= 'z' && 'a' <= "update "@[0] <= 'z' && 'a' <= "delete "@[0] <= 'z')
        by {
        reveal_strlit("insert ");
        reveal_strlit("update ");
        reveal_strlit("delete ");
    }
    assert(verb[0] == "insert "@[0] || verb[0] as int == "insert "@[0] as int - 32 || verb[0]
        == "update "@[0] || verb[0] as int == "update "@[0] as int - 32 || verb[0] == "delete "@[0]
        || verb[0] as int == "delete "@[0] as int - 32);
    assert(s[0] == verb[0]);
    assert(!text::is_white(s[0]));
    texts::law_trim_start(space, s);
    assert(s.take(7) == verb);
    lemma_verb(s);
    let at = (verb.len() + a.len()) as int;
    assert(s.subrange(at, at + 10) == table);
    lemma_spells(s, at, "workspaces"@, "workspaces"@);
    assert(sqlite3_prepare::occurs_loosely("workspaces"@, s, at));
}

/// Nothing else writes a workspace.
pub proof fn law_no_other_write(sql: Seq<char>) -> (r: (
    Seq<char>,
    Seq<char>,
    Seq<char>,
    Seq<char>,
    Seq<char>,
))
    requires
        sqlite3_prepare::writes_workspace(sql),
    ensures
        sql == r.0 + (r.1 + r.2 + r.3 + r.4),
        texts::all_white(r.0),
        is_verb(r.1),
        spells(r.3, "workspaces"@),
        encode_utf8(r.1 + r.2 + r.3 + r.4).len() >= 20,
{
    let s = text::trim_start(sql);
    let space = lemma_start_splits(sql);
    lemma_letters();
    lemma_verb(s);
    let at = choose|at: int| sqlite3_prepare::occurs_loosely("workspaces"@, s, at);
    lemma_spells(s, at, "workspaces"@, "workspaces"@);
    let verb = s.take(7);
    if at < 7 {
        // The verb ends in a blank, which the name of the table does not hold.
        let table = s.subrange(at, at + 10);
        assert(s[6] == verb[6]);
        assert("insert "@[6] == ' ' && "update "@[6] == ' ' && "delete "@[6] == ' ') by {
            reveal_strlit("insert ");
            reveal_strlit("update ");
            reveal_strlit("delete ");
        }
        assert(s[6] == ' ');
        assert(table[6 - at] == s[6]);
        assert('a' <= "workspaces"@[6 - at] <= 'z');
    }
    let a = s.subrange(7, at);
    let table = s.subrange(at, at + 10);
    let b = s.skip(at + 10);
    assert(s == verb + a + table + b);
    (space, verb, a, table, b)
}

proof fn lemma_start_splits(t: Seq<char>) -> (a: Seq<char>)
    ensures
        texts::all_white(a),
        t == a + text::trim_start(t),
    decreases t.len(),
{
    if t.len() > 0 && text::is_white(t[0]) {
        let a = lemma_start_splits(t.skip(1));
        let front = seq![t[0]] + a;
        assert forall|i: int| 0 <= i < front.len() implies text::is_white(#[trigger] front[i]) by {
            if i > 0 {
                assert(front[i] == a[i - 1]);
            }
        }
        assert(t == seq![t[0]] + t.skip(1));
        assert(t == front + text::trim_start(t));
        front
    } else {
        let a = Seq::<char>::empty();
        assert(a + t == t);
        a
    }
}

/// A workspace is left alone for as long as the cooldown lasts and not longer; a clock
/// that was set back does not end it.
pub proof fn law_cooldown(last: u64, passed: u64, cooldown: u64)
    ensures
        last + passed <= u64::MAX ==> sync::within(last, (last + passed) as u64, cooldown) == (passed
            < cooldown),
        passed <= last && cooldown > 0 ==> sync::within(last, (last - passed) as u64, cooldown),
{
}

/// The project name is that of the first root that has one, whatever stands behind it;
/// the directory's counts where none has.
pub proof fn law_name_given(a: Seq<Option<String>>, n: String, b: Seq<Option<String>>, dir: Option<
    Seq<char>,
>)
    requires
        forall|i: int| 0 <= i < a.len() ==> #[trigger] a[i] is None,
    ensures
        sync::name_given(a.push(Some(n)) + b, dir) == Some(n@),
        sync::name_given(a, dir) == dir,
    decreases a.len(),
{
    let all = a.push(Some(n)) + b;
    if a.len() > 0 {
        assert(a[0] is None);
        let c = a.skip(1);
        assert forall|i: int| 0 <= i < c.len() implies #[trigger] c[i] is None by {
            assert(c[i] == a[i + 1]);
        }
        law_name_given(c, n, b, dir);
        assert(all[0] == a[0]);
        assert(all.skip(1) == c.push(Some(n)) + b);
    } else {
        assert(all[0] == Some(n));
    }
}

/// The picker shows first the folder that the workspace file is named after, whatever
/// the project name; without such a file, the one that the project name names.
pub proof fn law_picker_target(
    base: Seq<char>,
    name: Seq<char>,
    raw: Option<Seq<char>>,
    t: Seq<char>,
)
    requires
        base.len() > 0,
        name.len() > 0,
        !name.contains('/'),
    ensures
        sync::picker_target(Some(components::join(base, name + ".code-workspace"@)), raw) == Some(
            name,
        ),
        sync::picker_target(None, None) is None,
        settings::name_of(t).len() > 0 ==> sync::picker_target(None, Some(t)) == Some(
            settings::name_of(t),
        ),
        settings::name_of(t).len() == 0 ==> sync::picker_target(None, Some(t)) is None,
{
    let end = ".code-workspace"@;
    reveal_strlit(".code-workspace");
    let full = name + end;
    assert(full.len() > 2);
    assert forall|i: int| 0 <= i < full.len() implies full[i] != '/' by {
        if i < name.len() {
            assert(name[i] != '/');
        } else {
            assert(full[i] == end[i - name.len()]);
        }
    }
    assert(components::is_name(full)) by {
        assert(components::dot().len() == 1 && components::dot_dot().len() == 2);
    }
    components::lemma_join_name(base, full);
    reveal_strlit("code-workspace");
    let ext = "code-workspace"@;
    assert forall|i: int| 0 <= i < ext.len() implies ext[i] != '.' by {}
    paths::law_stem(name, ext);
    assert(name + seq!['.'] + ext == full);
}

/// The entry to be moved is the first of the target's name.
pub proof fn law_picker_entry(names: Seq<Option<String>>, target: Seq<char>, i: int)
    ensures
        0 <= i < names.len() && (names[i] matches Some(n) && n@ == target) && (forall|k: int|
            0 <= k < i ==> !(#[trigger] names[k] matches Some(n) && n@ == target)) ==> search::first(
            names.len(),
            picker_sort::is_name_at(names, target),
        ) == Some(i),
        (forall|k: int|
            0 <= k < names.len() ==> !(#[trigger] names[k] matches Some(n) && n@ == target))
            ==> search::first(names.len(), picker_sort::is_name_at(names, target)) is None,
{
    let p = picker_sort::is_name_at(names, target);
    assert forall|k: int| 0 <= k < names.len() implies #[trigger] p(k) == (names[k] matches Some(n)
        && n@ == target) by {}
    search::lemma_first(names.len(), p);
    if 0 <= i < names.len() && (names[i] matches Some(n) && n@ == target) && (forall|k: int|
        0 <= k < i ==> !(#[trigger] names[k] matches Some(n) && n@ == target)) {
        assert(p(i));
        assert forall|k: int| 0 <= k < i implies !#[trigger] p(k) by {
            assert(!(names[k] matches Some(n) && n@ == target));
        }
        search::lemma_first_is(names.len(), p, i);
    }
    if forall|k: int|
        0 <= k < names.len() ==> !(#[trigger] names[k] matches Some(n) && n@ == target) {
        if let Some(k) = search::first(names.len(), p) {
            assert(p(k));
            assert(!(names[k] matches Some(n) && n@ == target));
        }
    }
}

/// Moving an entry to the front: bytes of entries in front of it, of it and behind it
/// come out with it before those that were in front.
pub proof fn law_rotate(a: Seq<u8>, e: Seq<u8>, b: Seq<u8>, i: int)
    requires
        0 <= i,
        a.len() == i * 88,
        e.len() == 88,
    ensures
        picker_sort::rotated(a + e + b, i) == e + a + b,
{
    let data = a + e + b;
    assert(picker_sort::ENTRY_SIZE == 88);
    assert((i + 1) * 88 == i * 88 + 88) by (nonlinear_arith);
    assert(data.subrange(i * 88, (i + 1) * 88) == e);
    assert(data.take(i * 88) == a);
    assert(data.skip((i + 1) * 88) == b);
}

/// Where the text of a name lies: at the base, or behind the two counters of eight bytes
/// each where it is shared; no other tag, no address in the first page, and no empty or
/// overlong text is taken.
pub proof fn law_entry_name(w: picker_sort::NameWords)
    ensures
        w.tag == 0 ==> picker_sort::text_start(w) == w.base,
        w.tag == 1 && w.base + 16 <= u64::MAX ==> picker_sort::text_start(w) == w.base + 16,
        picker_sort::is_plausible(w) ==> (w.tag == 0 || w.tag == 1) && w.base > 0 && 1 <= w.len
            <= 4096,
        w.tag == 0 && 1 <= w.len <= 4096 ==> picker_sort::is_plausible(w) == (w.base >= 4096),
        w.tag == 1 && 1 <= w.len <= 4096 && 0 < w.base && w.base + 16 <= u64::MAX
            ==> picker_sort::is_plausible(w) == (w.base + 16 >= 4096),
{
}

/// A function is found where it is the first export, or with no such export the first
/// symbol, whose name holds every wanted pattern and none of the unwanted.
pub proof fn law_found(
    exports: Seq<Seq<char>>,
    symbols: Seq<Seq<char>>,
    wanted: Seq<Seq<char>>,
    unwanted: Seq<Seq<char>>,
    i: int,
)
    requires
        exports.len() <= usize::MAX,
        symbols.len() <= usize::MAX,
    ensures
        ({
            let fits = |n: Seq<char>|
                (forall|w: int| 0 <= w < wanted.len() ==> text::occurs_in(#[trigger] wanted[w], n))
                    && (forall|w: int|
                    0 <= w < unwanted.len() ==> !text::occurs_in(#[trigger] unwanted[w], n));
            let first = |row: Seq<Seq<char>>|
                0 <= i < row.len() && fits(row[i]) && forall|k: int|
                    0 <= k < i ==> !fits(#[trigger] row[k]);
            let none = |row: Seq<Seq<char>>|
                forall|k: int| 0 <= k < row.len() ==> !fits(#[trigger] row[k]);
            let found = symbols::found(exports, symbols, wanted, unwanted);
            &&& first(exports) ==> found == Some(Place::Export(i as usize))
            &&& none(exports) && first(symbols) ==> found == Some(Place::Symbol(i as usize))
            &&& none(exports) && none(symbols) ==> found is None
        }),
{
    let e = symbols::fits_at(exports, wanted, unwanted);
    let s = symbols::fits_at(symbols, wanted, unwanted);
    let fits = |n: Seq<char>|
        (forall|w: int| 0 <= w < wanted.len() ==> text::occurs_in(#[trigger] wanted[w], n)) && (
        forall|w: int| 0 <= w < unwanted.len() ==> !text::occurs_in(#[trigger] unwanted[w], n));
    assert forall|k: int| #[trigger] e(k) == fits(exports[k]) by {}
    assert forall|k: int| #[trigger] s(k) == fits(symbols[k]) by {}
    search::lemma_first(exports.len(), e);
    search::lemma_first(symbols.len(), s);
    lemma_first_of(exports, e, fits, i);
    lemma_first_of(symbols, s, fits, i);
}

proof fn lemma_first_of(
    row: Seq<Seq<char>>,
    p: spec_fn(int) -> bool,
    fits: spec_fn(Seq<char>) -> bool,
    i: int,
)
    requires
        forall|k: int| #[trigger] p(k) == fits(row[k]),
    ensures
        0 <= i < row.len() && fits(row[i]) && (forall|k: int| 0 <= k < i ==> !fits(#[trigger] row[k]))
            ==> search::first(row.len(), p) == Some(i),
        (forall|k: int| 0 <= k < row.len() ==> !fits(#[trigger] row[k])) ==> search::first(
            row.len(),
            p,
        ) is None,
{
    search::lemma_first(row.len(), p);
    if 0 <= i < row.len() && fits(row[i]) && (forall|k: int|
        0 <= k < i ==> !fits(#[trigger] row[k])) {
        assert(p(i));
        assert forall|k: int| 0 <= k < i implies !#[trigger] p(k) by {
            assert(!fits(row[k]));
        }
        search::lemma_first_is(row.len(), p, i);
    }
    if forall|k: int| 0 <= k < row.len() ==> !fits(#[trigger] row[k]) {
        if let Some(k) = search::first(row.len(), p) {
            assert(p(k));
            assert(!fits(row[k]));
        }
    }
}

/// The paths of a request are the strings among the items of its array, in their order.
pub proof fn law_strings(items: Seq<Entry>)
    ensures
        socket_server::strings(items) == items.filter_map(
            |e: Entry|
                match e {
                    Entry::Text(s) => Some(s),
                    _ => None,
                },
        ),
    decreases items.len(),
{
    if items.len() > 0 {
        law_strings(items.drop_last());
        let f = |e: Entry|
            match e {
                Entry::Text(s) => Some(s),
                _ => None::<Seq<char>>,
            };
        if let Entry::Text(s) = items.last() {
            assert(items.drop_last().filter_map(f) + seq![s] == items.drop_last().filter_map(
                f,
            ).push(s));
        }
    }
}

/// What the client asks is what the hook does: a request to add or to replace folders
/// has Zed open them so, one without folders is refused, and so is an unknown command;
/// who the hook is, it tells on two commands.
pub proof fn law_dispatch(
    line: Seq<char>,
    cmd: Seq<char>,
    paths: Seq<Seq<char>>,
    channel: Seq<char>,
    pid: u32,
    d: Dispatch,
)
    requires
        json::object_in(line) == Some(hook_client::paths_request(cmd, paths)),
        socket_server::dispatched(
            socket_server::command_in(line),
            socket_server::paths_in(line),
            channel,
            pid,
            d,
        ),
    ensures
        paths.len() > 0 && cmd == "add_folders"@ ==> d == (Dispatch::Open { reuse: false }),
        paths.len() > 0 && cmd == "reuse_folders"@ ==> d == (Dispatch::Open { reuse: true }),
        (cmd == "ping"@ || cmd == "status"@) ==> (d matches Dispatch::Answer(t)
            && hook_client::flag_in(t@, "ok"@) && hook_client::string_in(t@, "channel"@) == Some(
            channel,
        )),
        paths.len() == 0 && (cmd == "add_folders"@ || cmd == "reuse_folders"@) ==> (
        d matches Dispatch::Answer(t) && !hook_client::flag_in(t@, "ok"@) && hook_client::string_in(
            t@,
            "error"@,
        ) == Some("paths array is empty"@)),
        cmd != "ping"@ && cmd != "status"@ && cmd != "add_folders"@ && cmd != "reuse_folders"@ ==> (
        d matches Dispatch::Answer(t) && !hook_client::flag_in(t@, "ok"@) && hook_client::string_in(
            t@,
            "error"@,
        ) == Some("unknown command: "@ + cmd)),
{
    socket_server::lemma_request_arrives(line, cmd, paths);
    reveal_strlit("add_folders");
    reveal_strlit("reuse_folders");
    reveal_strlit("ping");
    reveal_strlit("status");
    reveal_strlit("ok");
    reveal_strlit("pid");
    reveal_strlit("channel");
    reveal_strlit("version");
    reveal_strlit("error");
    assert("add_folders"@.len() != "reuse_folders"@.len());
    assert("ok"@.len() == 2 && "pid"@.len() == 3 && "channel"@.len() == 7 && "error"@.len() == 5);
    assert("version"@[0] != "channel"@[0]);
}

/// The environment switches the hook off by four words and on by any other, whatever the
/// file says; without it the file counts, and without a file the hook is on.
pub proof fn law_switch(
    c: SyncConfig,
    file: Option<SyncConfig>,
    var: Option<Seq<char>>,
    log: Option<Seq<char>>,
)
    requires
        c.is_loaded(file, var, log),
    ensures
        (var == Some("0"@) || var == Some("off"@) || var == Some("disabled"@) || var == Some(
            "false"@,
        )) ==> !c.enabled,
        var is Some && var != Some("0"@) && var != Some("off"@) && var != Some("disabled"@) && var
            != Some("false"@) ==> c.enabled,
        var is None ==> c.enabled == (file is None || file->0.enabled),
        log is Some && log->0.len() > 0 ==> c.log_level@ == log->0,
        (log is None || log->0.len() == 0) ==> c.log_level@ == (match file {
            Some(f) => f.log_level@,
            None => "info"@,
        }),
        file matches Some(f) ==> c.sync_delay_ms == f.sync_delay_ms && c.sync_cooldown_ms
            == f.sync_cooldown_ms && c.discovery_cooldown_s == f.discovery_cooldown_s,
        file is None ==> c.sync_delay_ms == 300 && c.sync_cooldown_ms == 1000
            && c.discovery_cooldown_s == 30,
{
}

/// The application of a program below `Zed Preview` is the preview's, of one below another
/// `Zed.app` the stable one; and a hook registers as the application of its channel.
pub proof fn law_app(a: Seq<char>, b: Seq<char>, c: Seq<char>)
    ensures
        config::app_of(Some(a + "Zed Preview"@ + b)) == config::registered_as(Some("preview"@)),
        !text::occurs_in("Zed Preview"@, a + "Zed.app"@ + b) ==> config::app_of(
            Some(a + "Zed.app"@ + b),
        ) == config::registered_as(Some("stable"@)),
        !text::occurs_in("Zed Preview"@, a) && !text::occurs_in("Zed.app"@, a) ==> config::app_of(
            Some(a),
        ) == config::registered_as(None),
        config::app_of(None) == config::registered_as(None),
        config::registered_as(None) == "zed"@,
        config::registered_as(Some(c)) == "zed-"@ + c,
{
    texts::law_occurs(a, "Zed Preview"@, b);
    texts::law_occurs(a, "Zed.app"@, b);
    reveal_strlit("zed-");
    reveal_strlit("preview");
    reveal_strlit("stable");
    reveal_strlit("zed-preview");
    reveal_strlit("zed-stable");
    assert("zed-"@ + "preview"@ == "zed-preview"@);
    assert("zed-"@ + "stable"@ == "zed-stable"@);
}

} // verus!
