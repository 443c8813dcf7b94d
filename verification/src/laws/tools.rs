//! Laws of the tools: what they read from texts and files, and what they pick.
use vstd::prelude::*;

use crate::components;
use crate::components::Part;
use crate::decimal;
use crate::discovery;
use crate::doctor;
use crate::doctor::Finding;
use crate::hook::config;
use crate::hook::socket_server;
use crate::hook_client::{FolderCommand, Invocation, InvocationEvent, InvocationStep};
use crate::json;
use crate::json::Entry;
use crate::laws::folders;
use crate::laws::paths as path_laws;
use crate::laws::texts;
use crate::mapping;
use crate::mapping::{FoundFile, WorkspaceMapping};
use crate::mcp;
use crate::paths;
use crate::search;
use crate::settings;
use crate::sync_engine;
use crate::sync_engine::{SyncDirection, SyncStamps};
use crate::text;
use crate::workspace_db;
use crate::workspace_file;
use crate::workspace_file::Folder;
use crate::xtask;

verus! {

broadcast use vstd::string::group_string_axioms;

/// Adding a folder at a position: those before the position stay in front of it, those
/// behind it come behind, and a position behind the end is the end.
pub proof fn law_add_at(base: Seq<char>, a: Seq<Folder>, b: Seq<Folder>, path: Seq<char>, more: nat)
    requires
        forall|i: int|
            0 <= i < (a + b).len() ==> !folders::stands_for(base, #[trigger] (a + b)[i], path),
    ensures
        mcp::with_folder_at(base, a + b, path, a.len() as int) == a.push(
            Folder { path: paths::relative(base, path), name: None },
        ) + b,
        mcp::with_folder_at(base, a, path, (a.len() + more) as int) == a.push(
            Folder { path: paths::relative(base, path), name: None },
        ),
{
    let fs = a + b;
    let f = Folder { path: paths::relative(base, path), name: None };
    folders::law_resolve(base, fs, Seq::<Seq<char>>::empty());
    folders::law_resolve(base, a, Seq::<Seq<char>>::empty());
    let all = workspace_file::targets(base, fs);
    if all.contains(paths::normal(path)) {
        let i = choose|i: int| 0 <= i < all.len() && all[i] == paths::normal(path);
        assert(folders::stands_for(base, fs[i], path));
    }
    let some = workspace_file::targets(base, a);
    if some.contains(paths::normal(path)) {
        let i = choose|i: int| 0 <= i < some.len() && some[i] == paths::normal(path);
        assert(fs[i] == a[i]);
        assert(folders::stands_for(base, fs[i], path));
    }
    assert(fs.insert(a.len() as int, f) == a.push(f) + b);
    assert(a.insert(a.len() as int, f) == a.push(f));
}

/// A folder that the file has is not added again, wherever it is asked for.
pub proof fn law_add_at_again(base: Seq<char>, fs: Seq<Folder>, path: Seq<char>, i: int, at: int)
    requires
        0 <= i < fs.len(),
        folders::stands_for(base, fs[i], path),
    ensures
        mcp::with_folder_at(base, fs, path, at) == fs,
{
    folders::law_resolve(base, fs, Seq::<Seq<char>>::empty());
    assert(workspace_file::targets(base, fs)[i] == paths::normal(path));
}

/// The other processes are the numbers of the lines, in their order, less one's own.
pub proof fn law_other_pids(lines: Seq<Seq<char>>, own: u32)
    ensures
        mcp::other_pids(lines, own) == lines.filter_map(
            |l: Seq<char>| decimal::u32_of(text::trim(l)),
        ).filter(|n: u32| n != own),
    decreases lines.len(),
{
    let f = |l: Seq<char>| decimal::u32_of(text::trim(l));
    let g = |n: u32| n != own;
    reveal(Seq::filter);
    if lines.len() > 0 {
        law_other_pids(lines.drop_last(), own);
        let before = lines.drop_last().filter_map(f);
        if let Some(n) = f(lines.last()) {
            let now = before + seq![n];
            assert(now.drop_last() == before);
            assert(now.last() == n);
        }
    }
}

/// A line about a process tells a Zed as parent exactly where its command speaks of Zed
/// and the parent is neither the first process nor none; white space round the line and
/// between the two does not matter, and a line of one word tells none.
pub proof fn law_parent_line(
    a: Seq<char>,
    parent: Seq<char>,
    w: Seq<char>,
    command: Seq<char>,
    b: Seq<char>,
)
    requires
        texts::all_white(a),
        texts::all_white(w),
        texts::all_white(b),
        parent.len() > 0,
        forall|i: int| 0 <= i < parent.len() ==> !text::is_white(#[trigger] parent[i]),
        w.len() > 0,
        command.len() > 0,
        texts::is_trimmed(command),
    ensures
        mcp::tells_zed(a + (parent + w + command) + b) <==> parent != seq!['0'] && parent != seq!['1']
            && (text::occurs_in("zed"@, command) || text::occurs_in("Zed"@, command)),
        !mcp::tells_zed(a + parent + b),
{
    let line = parent + w + command;
    reveal_strlit("1");
    reveal_strlit("0");
    assert("1"@ == seq!['1'] && "0"@ == seq!['0']);
    assert(line[0] == parent[0] && line[line.len() - 1] == command[command.len() - 1]);
    texts::law_trim(a, line, b);
    texts::law_trim(a, parent, b);
    lemma_first_white(parent, w + command);
    assert(parent + (w + command) == line);
    assert((w + command)[0] == w[0]);
    let at = parent.len() as int;
    assert(line.take(at) == parent);
    assert(line.skip(at + 1) == w.skip(1) + command + Seq::<char>::empty());
    assert forall|i: int| 0 <= i < w.skip(1).len() implies text::is_white(#[trigger] w.skip(1)[i])
        by {
        assert(w.skip(1)[i] == w[i + 1]);
    }
    texts::law_trim(w.skip(1), command, Seq::<char>::empty());
    lemma_first_white(parent, Seq::<char>::empty());
    assert(parent + Seq::<char>::empty() == parent);
}

proof fn lemma_first_white(p: Seq<char>, rest: Seq<char>)
    requires
        forall|i: int| 0 <= i < p.len() ==> !text::is_white(#[trigger] p[i]),
        rest.len() > 0 ==> text::is_white(rest[0]),
    ensures
        mcp::first_white(p + rest) == p.len(),
    decreases p.len(),
{
    if p.len() > 0 {
        assert(!text::is_white(p[0]));
        assert((p + rest).skip(1) == p.skip(1) + rest);
        assert((p + rest)[0] == p[0]);
        assert forall|i: int| 0 <= i < p.skip(1).len() implies !text::is_white(
            #[trigger] p.skip(1)[i],
        ) by {
            assert(p.skip(1)[i] == p[i + 1]);
        }
        lemma_first_white(p.skip(1), rest);
    } else {
        assert(p + rest == rest);
    }
}

/// The workspace file of a name in a folder: it lies in the folder, is named after the
/// name, and is known as a workspace file, from which the name is got back.
pub proof fn law_workspace_file(root: Seq<char>, name: Seq<char>)
    requires
        root.len() > 0,
        name.len() > 0,
        !name.contains('/'),
    ensures
        ({
            let file = settings::workspace_file(root, name);
            &&& components::components(file) == components::components(root).push(
                Part::Normal(name + ".code-workspace"@),
            )
            &&& components::file_extension(file) == Some("code-workspace"@)
            &&& discovery::name_for_file(file) == name
            &&& discovery::last_name(file) == name + ".code-workspace"@
            &&& discovery::display_name(name + ".code-workspace"@) == name
        }),
{
    let end = ".code-workspace"@;
    let ext = "code-workspace"@;
    reveal_strlit(".code-workspace");
    reveal_strlit("code-workspace");
    let full = name + end;
    assert(full == name + seq!['.'] + ext);
    assert forall|i: int| 0 <= i < full.len() implies full[i] != '/' by {
        if i < name.len() {
            assert(name[i] != '/');
        } else {
            assert(full[i] == end[i - name.len()]);
        }
    }
    assert(components::is_name(full)) by {
        assert(components::dot().len() == 1 && components::dot_dot().len() == 2);
    }
    assert(path_laws::is_name(full));
    assert forall|i: int| 0 <= i < ext.len() implies ext[i] != '.' by {}
    components::lemma_join_name(root, full);
    path_laws::law_stem(name, ext);
    path_laws::law_components_of_one(full);
}

/// The workspace files among files are those with the extension, in their order.
pub proof fn law_workspace_files(files: Seq<Seq<char>>)
    ensures
        discovery::workspace_files(files) == files.filter(
            |f: Seq<char>|
                components::file_name(f) matches Some(n) && components::extension(n) == Some(
                    "code-workspace"@,
                ),
        ),
    decreases files.len(),
{
    reveal(Seq::filter);
    if files.len() > 0 {
        law_workspace_files(files.drop_last());
    }
}

/// A project name of the old form tells the number before its first colon and the file
/// behind it.
pub proof fn law_v1(id: i64, file: Seq<char>)
    ensures
        discovery::v1_parts(decimal::written(id as int) + seq![':'] + file) == Some((id, file)),
{
    let d = decimal::written(id as int);
    let raw = d + seq![':'] + file;
    settings::lemma_project_name_round_trip(id, file);
    assert(raw == settings::project_name(id, file));
    lemma_no_colon(id);
    crate::laws::roots::law_colon(d, file);
    assert(raw.skip(d.len() as int + 1) == file);
}

proof fn lemma_no_colon(id: i64)
    ensures
        !decimal::written(id as int).contains(':'),
{
    let d = decimal::written(id as int);
    let n = if id < 0 {
        (-id) as nat
    } else {
        id as nat
    };
    decimal::lemma_digits_of(n);
    assert forall|k: int| 0 <= k < d.len() implies d[k] != ':' by {
        if id < 0 {
            if k > 0 {
                assert(decimal::is_digit(decimal::digits_of(n)[k - 1]));
            }
        } else {
            assert(decimal::is_digit(decimal::digits_of(n)[k]));
        }
    }
}

/// The channel of a program: the preview's where its path speaks of the preview, else the
/// stable one where it speaks of that, else none.
pub proof fn law_channel_of_executable(a: Seq<char>, b: Seq<char>)
    ensures
        mapping::channel_of_executable(a + "Zed Preview"@ + b) == Some("preview"@),
        mapping::channel_of_executable(a + "zed-preview"@ + b) == Some("preview"@),
        !text::occurs_in("Zed Preview"@, a + "Zed.app"@ + b) && !text::occurs_in(
            "zed-preview"@,
            a + "Zed.app"@ + b,
        ) ==> mapping::channel_of_executable(a + "Zed.app"@ + b) == Some("stable"@),
        !text::occurs_in("Zed Preview"@, a + "zed-stable"@ + b) && !text::occurs_in(
            "zed-preview"@,
            a + "zed-stable"@ + b,
        ) ==> mapping::channel_of_executable(a + "zed-stable"@ + b) == Some("stable"@),
        !text::occurs_in("Zed Preview"@, a) && !text::occurs_in("zed-preview"@, a)
            && !text::occurs_in("Zed.app"@, a) && !text::occurs_in("zed-stable"@, a)
            ==> mapping::channel_of_executable(a) is None,
{
    texts::law_occurs(a, "Zed Preview"@, b);
    texts::law_occurs(a, "zed-preview"@, b);
    texts::law_occurs(a, "Zed.app"@, b);
    texts::law_occurs(a, "zed-stable"@, b);
}

/// The channel of a database is the one that it was looked for under.
pub proof fn law_channel_of_db(dir: Seq<char>, a: Seq<char>)
    requires
        !text::occurs_in("0-preview"@, workspace_db::db_in(dir, "0-stable"@)),
    ensures
        mapping::channel_of_db(workspace_db::db_in(dir, "0-preview"@)) == Some("preview"@),
        mapping::channel_of_db(workspace_db::db_in(dir, "0-stable"@)) == Some("stable"@),
        !text::occurs_in("0-preview"@, a) && !text::occurs_in("0-stable"@, a)
            ==> mapping::channel_of_db(a) is None,
{
    lemma_scope_occurs(dir, "0-preview"@);
    lemma_scope_occurs(dir, "0-stable"@);
}

proof fn lemma_scope_occurs(dir: Seq<char>, scope: Seq<char>)
    requires
        scope == "0-preview"@ || scope == "0-stable"@,
    ensures
        text::occurs_in(scope, workspace_db::db_in(dir, scope)),
{
    reveal_strlit("0-preview");
    reveal_strlit("0-stable");
    reveal_strlit("db.sqlite");
    let base = components::join(dir, scope);
    let file = workspace_db::db_in(dir, scope);
    assert(scope[0] == '0');
    let front = base.take(base.len() - scope.len());
    assert(base == front + scope);
    assert(base.last() == scope.last());
    assert(file == base + seq!['/'] + "db.sqlite"@);
    let back = seq!['/'] + "db.sqlite"@;
    assert(file == front + scope + back);
    texts::law_occurs(front, scope, back);
}

/// The preview has a command of its own, and every other channel the common one.
pub proof fn law_cli(c: Option<Seq<char>>)
    ensures
        mapping::cli_of(Some("preview"@)) == "zed-"@ + "preview"@,
        c != Some("preview"@) ==> mapping::cli_of(c) == "zed"@,
{
    reveal_strlit("zed-");
    reveal_strlit("preview");
    reveal_strlit("zed-preview");
    assert("zed-"@ + "preview"@ == "zed-preview"@);
}

/// The sockets of a channel are the paths that have its prefix, anything, and the ending;
/// that of a hook has the number of its process between them.
pub proof fn law_socket(path: Seq<char>, channel: Seq<char>, m: Seq<char>, pid: nat)
    ensures
        mapping::is_socket(
            "/tmp/zed-prj-workspace-"@ + channel + seq!['-'] + m + ".sock"@,
            channel,
        ),
        mapping::is_socket(path, channel) ==> exists|x: Seq<char>|
            path == #[trigger] ("/tmp/zed-prj-workspace-"@ + channel + seq!['-'] + x + ".sock"@),
        mapping::socket_of(channel, pid as int) == "/tmp/zed-prj-workspace-"@ + channel + seq!['-']
            + decimal::written(pid as int) + ".sock"@,
{
    reveal_strlit("-");
    reveal_strlit(".sock");
    assert("-"@ == seq!['-']);
    let p = "/tmp/zed-prj-workspace-"@ + channel + seq!['-'];
    let e = ".sock"@;
    assert(mapping::socket_prefix(channel) == p);
    let s = p + m + e;
    assert(s.subrange(0, p.len() as int) == p);
    assert(s.subrange(s.len() - e.len(), s.len() as int) == e);
    if mapping::is_socket(path, channel) {
        assert(path.subrange(0, p.len() as int) == p);
        assert(path.subrange(path.len() - e.len(), path.len() as int) == e);
        assert(path[p.len() - 1] == p[p.len() - 1]);
        if path.len() < p.len() + e.len() {
            let k = p.len() - 1 - (path.len() - e.len());
            assert(path.subrange(path.len() - e.len(), path.len() as int)[k] == path[p.len() - 1]);
            assert(e[k] == '-');
        }
        let x = path.subrange(p.len() as int, path.len() - e.len());
        assert(path == p + x + e);
    }
}

/// The newest socket: no other of the channel was changed later, those with a known time
/// come before those without, and of several the first counts.
pub proof fn law_newest(files: Seq<FoundFile>, channel: Seq<char>, i: int, k: int)
    requires
        mapping::is_newest(files, channel, i),
        0 <= k < files.len(),
        mapping::is_socket(files[k].path@, channel),
    ensures
        0 <= i < files.len() && mapping::is_socket(files[i].path@, channel),
        files[k].modified is Some ==> files[i].modified is Some && files[k].modified->0
            <= files[i].modified->0,
        files[k].modified == files[i].modified ==> i <= k,
{
    assert(!mapping::is_newer(files[k].modified, files[i].modified));
    if k < i {
        assert(mapping::is_newer(files[i].modified, files[k].modified));
    }
}

/// The latest file: its name matches, no other that matches was changed later, one
/// without a time counts as the oldest of all times from the start of the clock on, and of
/// several the last counts.
pub proof fn law_latest(files: Seq<FoundFile>, pattern: Seq<char>, i: int, k: int, n: Seq<char>)
    requires
        xtask::is_latest(files, pattern, i),
        0 <= k < files.len(),
        components::file_name(files[k].path@) == Some(n),
        xtask::matches_glob(n, pattern),
    ensures
        0 <= i < files.len(),
        components::file_name(files[i].path@) matches Some(m) && xtask::matches_glob(m, pattern),
        files[k].modified is Some && files[i].modified is Some ==> files[k].modified->0
            <= files[i].modified->0,
        files[k].modified is Some && files[k].modified->0 > 0 ==> files[i].modified is Some,
        files[k].modified == files[i].modified ==> k <= i,
{
    assert(xtask::is_log(files[k], pattern));
    assert(xtask::stamp(files[k]) <= xtask::stamp(files[i]));
    if i < k {
        assert(xtask::stamp(files[k]) < xtask::stamp(files[i]));
    }
}

/// A pattern without a star is matched by itself alone, and one with a star at its end
/// by all that starts with what is before it.
pub proof fn law_glob(a: Seq<char>, s: Seq<char>)
    requires
        !a.contains('*'),
    ensures
        xtask::matches_glob(s, a) <==> s == a,
        xtask::matches_glob(s, a + seq!['*']) <==> a.is_prefix_of(s),
{
    let none = Seq::<char>::empty();
    let open = a + seq!['*'];
    assert(open == a.push('*') + none);
    text::lemma_split_on_concat(a, none, '*');
    text::lemma_split_on_single(a, '*');
    text::lemma_split_on_single(none, '*');
    assert(open[a.len() as int] == '*');
    assert(seq![a] + seq![none] == seq![a, none]);
    lemma_lead(s, seq![a, none]);
    assert(open.last() == '*');
}

proof fn lemma_glob_between(a: Seq<char>, b: Seq<char>, s: Seq<char>)
    requires
        !a.contains('*'),
        !b.contains('*'),
        b.len() > 0,
    ensures
        xtask::matches_glob(s, a + seq!['*'] + b) <==> a.is_prefix_of(s) && (search::first(
            (s.len() - a.len() + 1) as nat,
            xtask::occurs_from(s, a.len() as int, b),
        ) matches Some(k) && a.len() + k + b.len() == s.len()),
{
    let both = a + seq!['*'] + b;
    assert(both == a.push('*') + b);
    text::lemma_split_on_concat(a, b, '*');
    text::lemma_split_on_single(a, '*');
    text::lemma_split_on_single(b, '*');
    assert(both[a.len() as int] == '*');
    assert(seq![a] + seq![b] == seq![a, b]);
    lemma_lead(s, seq![a, b]);
    assert(both.last() == b[b.len() - 1]);
    assert(b[b.len() - 1] != '*');
}

/// What has a text, anything, and another text matches the pattern with a star between the
/// two, where the other one is not to be found earlier.
pub proof fn law_glob_between(a: Seq<char>, b: Seq<char>, x: Seq<char>)
    requires
        !a.contains('*'),
        !b.contains('*'),
        b.len() > 0,
        forall|y: Seq<char>, z: Seq<char>|
            x + b == #[trigger] (y + b + z) ==> y.len() >= x.len(),
    ensures
        xtask::matches_glob(a + x + b, a + seq!['*'] + b),
{
    let t = a + x + b;
    lemma_glob_between(a, b, t);
    assert(t.subrange(0, a.len() as int) == a);
    let p = xtask::occurs_from(t, a.len() as int, b);
    let n = (t.len() - a.len() + 1) as nat;
    assert(t.subrange((a.len() + x.len()) as int, (a.len() + x.len() + b.len()) as int) == b);
    assert(p(x.len() as int));
    assert forall|k: int| 0 <= k < x.len() implies !#[trigger] p(k) by {
        if p(k) {
            let xb = x + b;
            let y = xb.take(k);
            let z = xb.skip(k + b.len());
            assert(xb.subrange(k, k + b.len()) == t.subrange(a.len() + k, a.len() + k + b.len()));
            assert(xb == y + b + z);
        }
    }
    search::lemma_first_is(n, p, x.len() as int);
}

/// Nothing else matches such a pattern.
pub proof fn law_glob_parts(a: Seq<char>, b: Seq<char>, s: Seq<char>) -> (y: Seq<char>)
    requires
        !a.contains('*'),
        !b.contains('*'),
        b.len() > 0,
        xtask::matches_glob(s, a + seq!['*'] + b),
    ensures
        s == a + y + b,
{
    lemma_glob_between(a, b, s);
    let q = xtask::occurs_from(s, a.len() as int, b);
    let m = (s.len() - a.len() + 1) as nat;
    search::lemma_first(m, q);
    let k = search::first(m, q)->0;
    assert(q(k));
    let y = s.subrange(a.len() as int, a.len() + k);
    assert(s.subrange(0, a.len() as int) == a);
    assert(s.subrange(a.len() + k, a.len() + k + b.len()) == b);
    assert(s == s.subrange(0, a.len() as int) + y + s.subrange(a.len() + k, a.len() + k + b.len()));
    y
}

/// The first part of a pattern stands at the start of what matches.
proof fn lemma_lead(s: Seq<char>, parts: Seq<Seq<char>>)
    requires
        parts.len() == 2,
    ensures
        xtask::glob_position(s, parts, 1) == (if parts[0].is_prefix_of(s) {
            Some(parts[0].len() as int)
        } else {
            None
        }),
        parts[1].len() == 0 ==> xtask::glob_position(s, parts, 2) == xtask::glob_position(
            s,
            parts,
            1,
        ),
        parts[1].len() > 0 && parts[0].is_prefix_of(s) ==> xtask::glob_position(s, parts, 2) == (
        match search::first(
            (s.len() - parts[0].len() + 1) as nat,
            xtask::occurs_from(s, parts[0].len() as int, parts[1]),
        ) {
            Some(k) => Some(parts[0].len() + k + parts[1].len()),
            None => None,
        }),
        parts[1].len() > 0 && !parts[0].is_prefix_of(s) ==> xtask::glob_position(s, parts, 2)
            is None,
{
    let part = parts[0];
    reveal_with_fuel(xtask::glob_position, 3);
    let p = xtask::occurs_from(s, 0, part);
    let n = (s.len() + 1) as nat;
    search::lemma_first(n, p);
    if part.len() > 0 {
        if part.is_prefix_of(s) {
            assert(s.subrange(0, part.len() as int) == part);
            assert(p(0));
            search::lemma_first_is(n, p, 0);
        } else if let Some(k) = search::first(n, p) {
            if k == 0 {
                assert(p(0));
                assert(s.subrange(0, part.len() as int) == part);
                assert(part.is_prefix_of(s));
            }
        }
    } else {
        assert(s.subrange(0, 0) == part);
    }
}

/// Taking a subcommand out: its first occurrence goes, all else stays in its order.
pub proof fn law_strip(a: Seq<Seq<char>>, sub: Seq<char>, b: Seq<Seq<char>>)
    requires
        sub.len() > 0 && sub[0] != '-',
        forall|i: int| 0 <= i < a.len() ==> #[trigger] a[i] != sub,
    ensures
        xtask::without_first(a.push(sub) + b, sub) == a + b,
        xtask::without_first(a, sub) == a,
    decreases a.len(),
{
    let all = a.push(sub) + b;
    if a.len() > 0 {
        assert(a[0] != sub);
        let c = a.skip(1);
        assert forall|i: int| 0 <= i < c.len() implies #[trigger] c[i] != sub by {
            assert(c[i] == a[i + 1]);
        }
        law_strip(c, sub, b);
        assert(all[0] == a[0]);
        assert(all.skip(1) == c.push(sub) + b);
        assert(seq![a[0]] + (c + b) == a + b);
        assert(seq![a[0]] + c == a);
    } else {
        assert(all[0] == sub);
        assert(all.skip(1) == b);
        assert(a + b == b);
    }
}

/// The subcommand is the first argument behind the program's name that does not start
/// with a dash.
pub proof fn law_subcommand(
    program: Seq<char>,
    flags: Seq<Seq<char>>,
    sub: Seq<char>,
    rest: Seq<Seq<char>>,
)
    requires
        forall|i: int| 0 <= i < flags.len() ==> (#[trigger] flags[i]).len() > 0 && flags[i][0] == '-',
        sub.len() == 0 || sub[0] != '-',
    ensures
        xtask::subcommand(seq![program] + flags.push(sub) + rest) == Some(sub),
        xtask::subcommand(seq![program] + flags) is None,
{
    let all = seq![program] + flags.push(sub) + rest;
    let n = flags.len() as int + 1;
    let p = xtask::no_flag_at(all);
    assert(all[n] == sub);
    assert(p(n));
    assert forall|k: int| 0 <= k < n implies !#[trigger] p(k) by {
        if k > 0 {
            assert(all[k] == flags[k - 1]);
        }
    }
    search::lemma_first_is(all.len(), p, n);
    let few = seq![program] + flags;
    let q = xtask::no_flag_at(few);
    search::lemma_first(few.len(), q);
    if let Some(k) = search::first(few.len(), q) {
        assert(q(k));
        assert(few[k] == flags[k - 1]);
    }
}

/// A leading `~/` stands for the home directory, where that is known; no other path is
/// touched.
pub proof fn law_tilde(rest: Seq<char>, home: Seq<char>, path: Seq<char>)
    ensures
        xtask::expanded(seq!['~', '/'] + rest, Some(home)) == components::join(home, rest),
        xtask::expanded(path, None) == path,
        (path.len() < 2 || path[0] != '~' || path[1] != '/') ==> xtask::expanded(path, Some(home))
            == path,
{
    reveal_strlit("~/");
    let t = seq!['~', '/'];
    assert("~/"@ == t);
    let s = t + rest;
    assert(s.subrange(0, 2) == t);
    assert(s.skip(2) == rest);
    if t.is_prefix_of(path) {
        assert(path.subrange(0, 2)[0] == '~' && path.subrange(0, 2)[1] == '/');
    }
}

/// The injected libraries are the lines that speak of one, trimmed and in their order.
pub proof fn law_hook_lines(lines: Seq<Seq<char>>)
    ensures
        xtask::hook_lines(lines) == lines.filter(
            |l: Seq<char>| text::occurs_in("yolo"@, l) || text::occurs_in("prj"@, l),
        ).map_values(|l: Seq<char>| text::trim(l)),
    decreases lines.len(),
{
    reveal(Seq::filter);
    let ok = |l: Seq<char>| text::occurs_in("yolo"@, l) || text::occurs_in("prj"@, l);
    let f = |l: Seq<char>| text::trim(l);
    if lines.len() > 0 {
        law_hook_lines(lines.drop_last());
        let before = lines.drop_last().filter(ok);
        assert(before.push(lines.last()).map_values(f) == before.map_values(f).push(
            f(lines.last()),
        ));
    } else {
        assert(lines.filter(ok).map_values(f) == lines);
    }
}

/// The line with a result is the first that speaks of one.
pub proof fn law_result_line(a: Seq<Seq<char>>, l: Seq<char>, b: Seq<Seq<char>>)
    requires
        forall|i: int| 0 <= i < a.len() ==> !text::occurs_in("\"result\""@, #[trigger] a[i]),
    ensures
        text::occurs_in("\"result\""@, l) ==> search::first(
            (a.push(l) + b).len(),
            xtask::holds_result(a.push(l) + b),
        ) == Some(a.len() as int),
        search::first(a.len(), xtask::holds_result(a)) is None,
{
    let all = a.push(l) + b;
    let p = xtask::holds_result(all);
    let q = xtask::holds_result(a);
    search::lemma_first(a.len(), q);
    if let Some(k) = search::first(a.len(), q) {
        assert(q(k));
        assert(!text::occurs_in("\"result\""@, a[k]));
    }
    if text::occurs_in("\"result\""@, l) {
        assert(all[a.len() as int] == l);
        assert(p(a.len() as int));
        assert forall|k: int| 0 <= k < a.len() implies !#[trigger] p(k) by {
            assert(all[k] == a[k]);
        }
        search::lemma_first_is(all.len(), p, a.len() as int);
    }
}

/// Of a log at most its last five lines are shown, and of folders the paths that are
/// given, in their order, each below the title.
pub proof fn law_doctor(content: Seq<char>, a: Seq<Seq<char>>, b: Seq<Seq<char>>, fs: Seq<
    Option<Seq<char>>,
>)
    ensures
        text::lines(content) == a + b && (b.len() == 5 || (a.len() == 0 && b.len() < 5))
            ==> doctor::log_tail(content) == b,
        doctor::folder_lines(fs) == fs.filter_map(
            |p: Option<Seq<char>>|
                match p {
                    Some(t) => Some(seq![' ', ' '] + t),
                    None => None,
                },
        ),
    decreases fs.len(),
{
    if text::lines(content) == a + b {
        assert((a + b).skip(a.len() as int) == b);
        if a.len() == 0 {
            assert(a + b == b);
        }
    }
    if fs.len() > 0 {
        law_doctor(content, a, b, fs.drop_last());
        reveal_strlit("  ");
        assert("  "@ == seq![' ', ' ']);
        let f = |p: Option<Seq<char>>|
            match p {
                Some(t) => Some(seq![' ', ' '] + t),
                None => None::<Seq<char>>,
            };
        if let Some(t) = fs.last() {
            let before = fs.drop_last().filter_map(f);
            assert(before + seq![seq![' ', ' '] + t] == before.push(seq![' ', ' '] + t));
        }
    }
}

/// The command line gets the option of the command and then all paths.
pub proof fn law_invocation(i: Invocation)
    ensures
        i.args().len() == i.paths@.len() + 1,
        i.args()[0] == (if i.command == FolderCommand::Reuse {
            "--reuse"@
        } else {
            "--add"@
        }),
        forall|k: int| 0 <= k < i.paths@.len() ==> i.args()[k + 1] == (#[trigger] i.paths@[k])@,
{
}

/// Both sides have changed exactly where each is later than the last sync; where a time is
/// not known, nothing is said to have.
pub proof fn law_conflict(last: i64, a: i64, b: i64)
    ensures
        (SyncStamps { db: Some(a), file: Some(b), last_sync: Some(last) }).in_conflict() <==> last < a
            && last < b,
        !(SyncStamps { db: None, file: Some(b), last_sync: Some(last) }).in_conflict(),
        !(SyncStamps { db: Some(a), file: None, last_sync: Some(last) }).in_conflict(),
        !(SyncStamps { db: Some(a), file: Some(b), last_sync: None }).in_conflict(),
{
}

/// Each direction has one name.
pub proof fn law_direction(s: Seq<char>)
    ensures
        sync_engine::direction_named(s) == Some(SyncDirection::FileToZed) <==> s == "file_to_zed"@,
        sync_engine::direction_named(s) == Some(SyncDirection::ZedToFile) <==> s == "zed_to_file"@,
        sync_engine::direction_named(s) == Some(SyncDirection::Bidirectional) <==> s
            == "bidirectional"@,
{
    reveal_strlit("file_to_zed");
    reveal_strlit("zed_to_file");
    reveal_strlit("bidirectional");
    assert("file_to_zed"@[0] == 'f' && "zed_to_file"@[0] == 'z' && "bidirectional"@[0] == 'b');
}

/// The channel comes from the nearest mapping, even where that names none, and from the
/// database only without a mapping.
pub proof fn law_channel_near(
    own: &WorkspaceMapping,
    parent: Option<&WorkspaceMapping>,
    db: Option<Seq<char>>,
    d: Seq<char>,
)
    ensures
        sync_engine::channel_near(Some(own), parent, db) == text::opt(own.zed_channel),
        sync_engine::channel_near(None, Some(own), db) == text::opt(own.zed_channel),
        sync_engine::channel_near(None, None, Some(d)) == mapping::channel_of_db(d),
        sync_engine::channel_near(None, None, None) is None,
        discovery::channel_used(Some(d), d) == Some(d),
        discovery::channel_used(None, d) == mapping::channel_of_db(d),
{
}

/// A file in a directory of a directory.
proof fn lemma_two_below(root: Seq<char>, a: Seq<char>, b: Seq<char>)
    requires
        root.len() > 0,
        path_laws::is_name(a),
        path_laws::is_name(b),
    ensures
        components::components(components::join(components::join(root, a), b))
            == components::components(root) + seq![Part::Normal(a), Part::Normal(b)],
{
    assert(components::is_name(a) && components::is_name(b));
    components::lemma_join_name(root, a);
    assert(components::join(root, a).len() > 0);
    components::lemma_join_name(components::join(root, a), b);
    let c = components::components(root);
    assert(c.push(Part::Normal(a)).push(Part::Normal(b)) == c + seq![
        Part::Normal(a),
        Part::Normal(b),
    ]);
}

/// Where the files of a root lie: its settings and its mapping in its `.zed` directory.
pub proof fn law_places_of_root(root: Seq<char>)
    requires
        root.len() > 0,
    ensures
        components::components(settings::settings_path(root)) == components::components(root)
            + seq![Part::Normal(".zed"@), Part::Normal("settings.json"@)],
        components::components(mapping::mapping_path(root)) == components::components(root) + seq![
            Part::Normal(".zed"@),
            Part::Normal("zed-project-workspace.json"@),
        ],
        settings::key() == "project_name"@,
{
    reveal_strlit(".zed");
    reveal_strlit("settings.json");
    reveal_strlit("zed-project-workspace.json");
    let (z, s, m) = (".zed"@, "settings.json"@, "zed-project-workspace.json"@);
    assert(z.len() == 4 && s.len() == 13 && m.len() == 26);
    assert forall|i: int| 0 <= i < z.len() implies z[i] != '/' by {}
    assert forall|i: int| 0 <= i < s.len() implies s[i] != '/' by {}
    assert forall|i: int| 0 <= i < m.len() implies m[i] != '/' by {}
    assert(seq!['.'].len() == 1 && seq!['.', '.'].len() == 2);
    lemma_two_below(root, z, s);
    lemma_two_below(root, z, m);
}

/// Writing a project name: the settings that are written hold it, and every other entry that
/// was there, and no more; where the text was no object, nothing else.
pub proof fn law_named_settings(
    content: Option<Seq<char>>,
    name: Seq<char>,
    r: Seq<char>,
    m: json::Entries,
    k: Seq<char>,
)
    requires
        settings::is_named(content, name, r),
        match content {
            Some(t) => match json::parsed(t) {
                Ok(Entry::Object(o)) => m == o,
                _ => m == Map::<Seq<char>, Entry>::empty(),
            },
            None => m == Map::<Seq<char>, Entry>::empty(),
        },
        json::steady(m),
    ensures
        json::parsed(r) matches Ok(Entry::Object(o)) && {
            &&& o.contains_key("project_name"@) && o["project_name"@] == Entry::Text(name)
            &&& k != "project_name"@ ==> o.contains_key(k) == m.contains_key(k)
            &&& k != "project_name"@ && m.contains_key(k) ==> o[k] == m[k]
        },
        settings::project_name_in(r) == Some(name),
{
}

/// Reading a project name: the string that the settings hold under its key, and nothing for
/// settings without one.
pub proof fn law_read_name(t: Seq<char>, o: json::Entries)
    ensures
        json::parsed(t) == Ok::<Entry, Seq<char>>(Entry::Object(o)) && o.contains_key(
            "project_name"@,
        ) && o["project_name"@] is Text ==> settings::project_name_in(t) == Some(
            o["project_name"@]->Text_0,
        ),
        json::parsed(t) == Ok::<Entry, Seq<char>>(Entry::Object(o)) && !(o.contains_key(
            "project_name"@,
        ) && o["project_name"@] is Text) ==> settings::project_name_in(t) is None,
        !(json::parsed(t) matches Ok(Entry::Object(_))) ==> settings::project_name_in(t) is None,
{
}

/// Cleaning up: the primary root keeps its settings, however its path is written, and so do
/// settings without a project name; settings that hold nothing else go; of others only the
/// project name does.
pub proof fn law_cleanup(
    root: Seq<char>,
    primary: Seq<char>,
    t: Seq<char>,
    o: json::Entries,
    c: settings::Cleanup,
    k: Seq<char>,
)
    requires
        settings::is_cleanup(root, primary, Some(t), c),
        json::parsed(t) == Ok::<Entry, Seq<char>>(Entry::Object(o)),
        json::steady(o),
    ensures
        components::components(root) == components::components(primary) ==> c is Keep,
        !o.contains_key("project_name"@) ==> c is Keep,
        components::components(root) != components::components(primary) && o.contains_key(
            "project_name"@,
        ) ==> (match c {
            settings::Cleanup::Keep => false,
            settings::Cleanup::RemoveFile => k != "project_name"@ ==> !o.contains_key(k),
            settings::Cleanup::Rewrite(s) => json::parsed(s@) matches Ok(Entry::Object(after)) && {
                &&& !after.contains_key("project_name"@)
                &&& k != "project_name"@ ==> after.contains_key(k) == o.contains_key(k)
                &&& k != "project_name"@ && o.contains_key(k) ==> after[k] == o[k]
            },
        }),
{
    if c is RemoveFile && k != "project_name"@ {
        assert(!o.remove("project_name"@).contains_key(k));
    }
}

/// A command for Zed is done by the hook exactly where the hook said so; the command line
/// program is run where there is no hook or the hook refused, and what comes of it is the
/// end.
pub proof fn law_follows(i: Invocation, event: InvocationEvent, step: InvocationStep)
    requires
        i.follows(event, step),
    ensures
        step == (InvocationStep::Done { by_hook: true }) <==> (
        event matches InvocationEvent::HookReplied(h) && h.ok),
        step == (InvocationStep::Done { by_hook: false }) <==> event is CliSucceeded,
        step is RunCli <==> event is NoHook || (event matches InvocationEvent::HookReplied(h)
            && !h.ok),
        step is Failed <==> event is HookFailed || event is CliFailed || event is CliNotStarted,
        step matches InvocationStep::RunCli { program, args } ==> program@ == mapping::cli_of(
            text::opt(i.channel),
        ) && args@.len() == i.paths@.len() + 1,
{
    if let InvocationStep::RunCli { program, args } = step {
        assert(text::texts(args@).len() == args@.len());
        assert(text::texts(i.paths@).len() == i.paths@.len());
    }
}

/// The sibling of a program lies in the same directory.
pub proof fn law_sibling(dir: Seq<char>, program: Seq<char>, name: Seq<char>)
    requires
        dir.len() > 0,
        path_laws::is_name(program),
        path_laws::is_name(name),
    ensures
        components::components(
            socket_server::with_file_name(path_laws::below(dir, program), name),
        ) == components::components(dir).push(Part::Normal(name)),
{
    path_laws::law_file_name(dir, program);
    path_laws::law_components_below(dir, program);
    let c = components::components(dir);
    assert(c.push(Part::Normal(program)).drop_last() == c);
    components::lemma_components_proper(dir);
    components::lemma_components_of_render(c);
    let d = components::render(c);
    if d.len() == 0 {
        path_laws::law_components_of_one(name);
        assert(d == Seq::<char>::empty());
        assert(c == Seq::<Part>::empty());
        assert(name[0] != '/');
        assert(d + name == name);
        assert(components::components(name) == c.push(Part::Normal(name)));
    } else {
        assert(components::is_name(name));
        components::lemma_join_name(d, name);
    }
}

/// Zed's databases lie below the home directory.
pub proof fn law_db_dir(home: Seq<char>)
    requires
        home.len() > 0,
        home[home.len() - 1] != '/',
    ensures
        workspace_db::db_dir_in(home) == home + seq!['/'] + "Library/Application Support/Zed/db"@,
{
    reveal_strlit("Library/Application Support/Zed/db");
    path_laws::law_join(home, "Library/Application Support/Zed/db"@);
}

/// The path of a folder in a workspace file is the string under `path` of its object; the
/// folders are the items of the array under `folders`, in their order.
pub proof fn law_folders_in(o: json::Entries, v: Seq<Entry>, i: int)
    ensures
        !(o.contains_key("path"@) && o["path"@] is Text) ==> doctor::path_of(Entry::Object(o))
            is None,
        o.contains_key("path"@) && o["path"@] is Text ==> doctor::path_of(Entry::Object(o)) == Some(
            o["path"@]->Text_0,
        ),
        0 <= i < v.len() && !(v[i] is Object) ==> doctor::path_of(v[i]) is None,
        o.contains_key("folders"@) && o["folders"@] == Entry::List(v) ==> doctor::folders_in(
            Some(o),
        ).len() == v.len() && (0 <= i < v.len() ==> doctor::folders_in(Some(o))[i]
            == doctor::path_of(v[i])),
        !(o.contains_key("folders"@) && o["folders"@] is List) ==> doctor::folders_in(Some(o)).len()
            == 0,
        doctor::folders_in(None).len() == 0,
{
}

/// The checks stop where the application does not run, the server's program is missing, or
/// the workspace file is there but cannot be read or is no JSON; nothing else stops them.
pub proof fn law_doctor_stops(f: Finding)
    ensures
        doctor::failure_of(f) is Some <==> (match f {
            Finding::Process { running, .. } => !running,
            Finding::Program { size, .. } => size is None,
            Finding::Workspace { content, .. } => match content {
                Some(Ok(c)) => json::parsed(c@) is Err,
                Some(Err(_)) => true,
                None => false,
            },
            _ => false,
        }),
{
}

/// Every check has a title and says something below it, unless it stops the checks; all
/// but the title stands in from the edge.
pub proof fn law_doctor_says(f: Finding)
    ensures
        doctor::lines_of(f).len() >= 1,
        doctor::failure_of(f) is None ==> doctor::lines_of(f).len() >= 2,
        forall|k: int|
            1 <= k < doctor::lines_of(f).len() ==> (#[trigger] doctor::lines_of(f)[k]).len() >= 2
                && doctor::lines_of(f)[k][0] == ' ' && doctor::lines_of(f)[k][1] == ' ',
{
    reveal_strlit("  ");
    let all = doctor::lines_of(f);
    if let Finding::Workspace { content: Some(Ok(c)), .. } = f {
        if let Ok(e) = json::parsed(c@) {
            lemma_folder_lines(doctor::folders_in(json::entries_of(e)));
        }
    }
    assert forall|k: int| 1 <= k < all.len() implies (#[trigger] all[k]).len() >= 2 && all[k][0]
        == ' ' && all[k][1] == ' ' by {
        match f {
            Finding::Log(Some(l)) => {
                if let Ok(c) = l.content {
                    if k >= 2 {
                        let tail = doctor::all_below(doctor::log_tail(c@));
                        assert(all[k] == tail[k - 2]);
                    }
                }
            },
            Finding::Workspace { content: Some(Ok(c)), .. } => {
                if let Ok(e) = json::parsed(c@) {
                    if k >= 3 {
                        let rows = doctor::folder_lines(doctor::folders_in(json::entries_of(e)));
                        assert(all[k] == rows[k - 3]);
                    }
                }
            },
            _ => {},
        }
    }
}

proof fn lemma_folder_lines(fs: Seq<Option<Seq<char>>>)
    ensures
        forall|k: int|
            0 <= k < doctor::folder_lines(fs).len() ==> (#[trigger] doctor::folder_lines(fs)[k]).len()
                >= 2 && doctor::folder_lines(fs)[k][0] == ' ' && doctor::folder_lines(fs)[k][1]
                == ' ',
    decreases fs.len(),
{
    reveal_strlit("  ");
    if fs.len() > 0 {
        lemma_folder_lines(fs.drop_last());
        let before = doctor::folder_lines(fs.drop_last());
        let all = doctor::folder_lines(fs);
        assert forall|k: int| 0 <= k < all.len() implies (#[trigger] all[k]).len() >= 2 && all[k][0]
            == ' ' && all[k][1] == ' ' by {
            if k < before.len() {
                assert(all[k] == before[k]);
            }
        }
    }
}

/// The configuration of an application lies below the home directory.
pub proof fn law_config_path(home: Seq<char>, app: Seq<char>)
    requires
        home.len() > 0,
        path_laws::is_name(app),
    ensures
        components::components(config::config_path_in(home, app)) == components::components(home)
            + seq![
            Part::Normal(".config"@),
            Part::Normal("dylib-hooks"@),
            Part::Normal(app),
            Part::Normal("zed-prj-workspace-hook.json"@),
        ],
{
    reveal_strlit(".config");
    reveal_strlit("dylib-hooks");
    reveal_strlit("zed-prj-workspace-hook.json");
    let (a, b, c) = (".config"@, "dylib-hooks"@, "zed-prj-workspace-hook.json"@);
    assert(a.len() == 7 && b.len() == 11 && c.len() == 27);
    assert forall|i: int| 0 <= i < a.len() implies a[i] != '/' by {}
    assert forall|i: int| 0 <= i < b.len() implies b[i] != '/' by {}
    assert forall|i: int| 0 <= i < c.len() implies c[i] != '/' by {}
    assert(seq!['.'].len() == 1 && seq!['.', '.'].len() == 2);
    lemma_two_below(home, a, b);
    let mid = components::join(components::join(home, a), b);
    assert(components::join(home, a).len() > 0);
    assert(mid.len() > 0);
    lemma_two_below(mid, app, c);
    let k = components::components(home);
    assert(k + seq![Part::Normal(a), Part::Normal(b)] + seq![Part::Normal(app), Part::Normal(c)]
        == k + seq![Part::Normal(a), Part::Normal(b), Part::Normal(app), Part::Normal(c)]);
}

} // verus!
