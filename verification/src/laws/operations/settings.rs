//! Laws of the operations on settings, mappings and workspace files, and of the channel and
//! the sockets of Zed.
use vstd::prelude::*;

use crate::components;
use crate::components::Part;
use crate::decimal;
use crate::discovery;
use crate::discovery::Migration;
use crate::hook_client;
use crate::hook_client::HookClient;
use crate::json;
use crate::json::Entry;
use crate::laws::tools;
use crate::mapping;
use crate::mapping::{FoundFile, WorkspaceMapping};
use crate::paths;
use crate::settings;
use crate::settings::Cleanup;
use crate::text;

verus! {

/// `read_project_name` takes back `write_project_name`, which leaves every other setting as
/// it was.
pub proof fn law_write_name(
    content: Option<&str>,
    name: &str,
    w: String,
    s: &str,
    r: Option<String>,
    m: json::Entries,
    k: Seq<char>,
)
    requires
        call_ensures(settings::write_project_name, (content, name), w),
        s@ == w@,
        call_ensures(settings::read_project_name, (s,), r),
        match content {
            Some(t) => match json::parsed(t@) {
                Ok(Entry::Object(o)) => m == o,
                _ => m == Map::<Seq<char>, Entry>::empty(),
            },
            None => m == Map::<Seq<char>, Entry>::empty(),
        },
        json::steady(m),
    ensures
        r is Some && r->0@ == name@,
        json::parsed(w@) matches Ok(Entry::Object(o)) && (k != "project_name"@ ==> o.contains_key(k)
            == m.contains_key(k) && (m.contains_key(k) ==> o[k] == m[k])),
{
    tools::law_named_settings(text::opt_str(content), name@, w@, m, k);
}

/// `write_project_name_to_roots` writes to each root what `write_project_name` writes to it.
pub proof fn law_write_to_roots(
    contents: &[Option<String>],
    name: &str,
    all: Vec<String>,
    i: int,
    m: json::Entries,
    k: Seq<char>,
)
    requires
        call_ensures(settings::write_project_name_to_roots, (contents, name), all),
        0 <= i < contents@.len(),
        match contents@[i] {
            Some(t) => match json::parsed(t@) {
                Ok(Entry::Object(o)) => m == o,
                _ => m == Map::<Seq<char>, Entry>::empty(),
            },
            None => m == Map::<Seq<char>, Entry>::empty(),
        },
        json::steady(m),
    ensures
        all@.len() == contents@.len(),
        settings::project_name_in(all@[i]@) == Some(name@),
        json::parsed(all@[i]@) matches Ok(Entry::Object(o)) && (k != "project_name"@
            ==> o.contains_key(k) == m.contains_key(k) && (m.contains_key(k) ==> o[k] == m[k])),
{
    let c = settings::content_at(contents@, i);
    assert(settings::is_named(c, name@, all@[i]@));
    tools::law_named_settings(c, name@, all@[i]@, m, k);
}

/// `cleanup_stale_project_name`: the primary root keeps its settings, and any other loses the
/// project name and nothing else.
pub proof fn law_clean(
    root: &str,
    primary: &str,
    t: &str,
    o: json::Entries,
    c: Cleanup,
    k: Seq<char>,
)
    requires
        call_ensures(settings::cleanup_stale_project_name, (root, primary, Some(t)), c),
        json::parsed(t@) == Ok::<Entry, Seq<char>>(Entry::Object(o)),
        json::steady(o),
    ensures
        components::components(root@) == components::components(primary@) ==> c is Keep,
        !o.contains_key("project_name"@) ==> c is Keep,
        components::components(root@) != components::components(primary@) && o.contains_key(
            "project_name"@,
        ) ==> (match c {
            Cleanup::Keep => false,
            Cleanup::RemoveFile => k != "project_name"@ ==> !o.contains_key(k),
            Cleanup::Rewrite(s) => json::parsed(s@) matches Ok(Entry::Object(after)) && {
                &&& !after.contains_key("project_name"@)
                &&& k != "project_name"@ ==> after.contains_key(k) == o.contains_key(k)
                &&& k != "project_name"@ && o.contains_key(k) ==> after[k] == o[k]
            },
        }),
{
    tools::law_cleanup(root@, primary@, t@, o, c, k);
}

/// `migrate_from_v1`: a project name that holds a number and a file gives the mapping of the
/// two, and the name of the file stays behind as the project name.
pub proof fn law_migrate(
    t: &str,
    db: &str,
    id: i64,
    name: Seq<char>,
    r: Option<Migration>,
)
    requires
        call_ensures(discovery::migrate_from_v1, (Some(t), db), r),
        name.len() > 0,
        !name.contains('/'),
    ensures
        settings::project_name_in(t@) is None ==> r is None,
        settings::project_name_in(t@) == Some(
            decimal::written(id as int) + seq![':'] + (name + ".code-workspace"@),
        ) ==> {
            &&& r matches Some(m) && m.mapping.workspace_id == id && m.mapping.workspace_file@ == name
                + ".code-workspace"@ && text::opt(m.mapping.zed_channel) == mapping::channel_of_db(
                db@,
            ) && m.mapping.last_sync_ts is None && settings::is_named(Some(t@), name, m.settings@)
        },
{
    tools::law_v1(id, name + ".code-workspace"@);
    tools::law_workspace_file(seq!['/'], name);
}

/// `WorkspaceMapping::write_to_roots`: one mapping for each root, which says what the mapping
/// says and leads from that root to the file.
pub proof fn law_mapping_to_roots(
    m: &WorkspaceMapping,
    roots: &[String],
    file: &str,
    r: Vec<WorkspaceMapping>,
    i: int,
)
    requires
        call_ensures(WorkspaceMapping::write_to_roots, (m, roots, file), r),
        0 <= i < roots@.len(),
    ensures
        r@.len() == roots@.len(),
        r@[i].workspace_id == m.workspace_id,
        text::opt(r@[i].zed_channel) == text::opt(m.zed_channel),
        text::opt(r@[i].last_sync_ts) == text::opt(m.last_sync_ts),
        r@[i].workspace_file@ == paths::relative(roots@[i]@, file@),
        paths::leads_back(roots@[i]@, file@) ==> paths::normal(
            mapping::mapped_file(roots@[i]@, r@[i].workspace_file@),
        ) == paths::normal(file@),
{
    let _ = r@[i];
}

/// `WorkspaceMapping::new`, `with_id` and `set_sync_ts` set what they are handed and keep the
/// rest, which `touch_sync_ts` keeps too.
pub proof fn law_mapping_fields(
    id: i64,
    file: &str,
    channel: Option<&str>,
    made: WorkspaceMapping,
    m: &WorkspaceMapping,
    other: WorkspaceMapping,
    w: &mut WorkspaceMapping,
    ts: String,
    touched: &mut WorkspaceMapping,
)
    requires
        call_ensures(WorkspaceMapping::new, (id, file, channel), made),
        call_ensures(WorkspaceMapping::with_id, (m, id), other),
        call_ensures(WorkspaceMapping::set_sync_ts, (w, ts), ()),
        call_ensures(WorkspaceMapping::touch_sync_ts, (touched,), ()),
    ensures
        made.workspace_id == id && made.workspace_file@ == file@ && text::opt(made.zed_channel)
            == text::opt_str(channel) && made.last_sync_ts is None,
        other.workspace_id == id && other.workspace_file@ == m.workspace_file@ && text::opt(
            other.zed_channel,
        ) == text::opt(m.zed_channel) && text::opt(other.last_sync_ts) == text::opt(m.last_sync_ts),
        final(w).workspace_id == old(w).workspace_id && final(w).workspace_file == old(
            w,
        ).workspace_file && final(w).zed_channel == old(w).zed_channel && final(w).last_sync_ts
            == Some(ts),
        final(touched).workspace_id == old(touched).workspace_id && final(touched).workspace_file
            == old(touched).workspace_file && final(touched).zed_channel == old(touched).zed_channel
            && final(touched).last_sync_ts is Some,
{
}

/// Where the files of a root lie: its settings, its mapping, and a workspace file by its
/// name, whose name is told back by `last_name_of`.
pub proof fn law_files_of_root(
    root: &str,
    name: &str,
    s: String,
    m: String,
    w: String,
    path: &str,
    last: String,
)
    requires
        call_ensures(settings::settings_file, (root,), s),
        call_ensures(WorkspaceMapping::file_path, (root,), m),
        call_ensures(settings::workspace_file_for_name, (root, name), w),
        path@ == w@,
        call_ensures(discovery::last_name_of, (path,), last),
        root@.len() > 0,
        name@.len() > 0,
        !name@.contains('/'),
    ensures
        components::components(s@) == components::components(root@) + seq![
            Part::Normal(".zed"@),
            Part::Normal("settings.json"@),
        ],
        components::components(m@) == components::components(root@) + seq![
            Part::Normal(".zed"@),
            Part::Normal("zed-project-workspace.json"@),
        ],
        components::components(w@) == components::components(root@).push(
            Part::Normal(name@ + ".code-workspace"@),
        ),
        last@ == name@ + ".code-workspace"@,
{
    tools::law_places_of_root(root@);
    tools::law_workspace_file(root@, name@);
}

/// `find_workspace_files_in_roots`: the files with the ending of a workspace file, in their
/// order.
pub proof fn law_find_workspace_files(files: &[String], r: Vec<String>)
    requires
        call_ensures(discovery::find_workspace_files_in_roots, (files,), r),
    ensures
        text::texts(r@) == text::texts(files@).filter(
            |f: Seq<char>|
                components::file_name(f) matches Some(n) && components::extension(n) == Some(
                    "code-workspace"@,
                ),
        ),
{
    tools::law_workspace_files(text::texts(files@));
}

/// `detect_zed_channel` and `channel_from_db_path`: what tells the preview, what tells the
/// stable channel, and that nothing else tells one.
pub proof fn law_channels(
    a: Seq<char>,
    b: Seq<char>,
    exe: &str,
    db: &str,
    x: Option<String>,
    y: Option<String>,
)
    requires
        call_ensures(mapping::detect_zed_channel, (exe,), x),
        call_ensures(mapping::channel_from_db_path, (db,), y),
    ensures
        exe@ == a + "Zed Preview"@ + b || exe@ == a + "zed-preview"@ + b ==> text::opt(x) == Some(
            "preview"@,
        ),
        (exe@ == a + "Zed.app"@ + b || exe@ == a + "zed-stable"@ + b) && !text::occurs_in(
            "Zed Preview"@,
            exe@,
        ) && !text::occurs_in("zed-preview"@, exe@) ==> text::opt(x) == Some("stable"@),
        !text::occurs_in("Zed Preview"@, exe@) && !text::occurs_in("zed-preview"@, exe@)
            && !text::occurs_in("Zed.app"@, exe@) && !text::occurs_in("zed-stable"@, exe@) ==> x
            is None,
        text::occurs_in("0-preview"@, db@) ==> text::opt(y) == Some("preview"@),
        !text::occurs_in("0-preview"@, db@) && text::occurs_in("0-stable"@, db@) ==> text::opt(y)
            == Some("stable"@),
        !text::occurs_in("0-preview"@, db@) && !text::occurs_in("0-stable"@, db@) ==> y is None,
{
    tools::law_channel_of_executable(a, b);
    tools::law_channel_of_executable(exe@, b);
}

/// `zed_cli_command`: the preview has a program of its own.
pub proof fn law_zed_cli(channel: Option<&str>, r: &str)
    requires
        call_ensures(mapping::zed_cli_command, (channel,), r),
    ensures
        text::opt_str(channel) == Some("preview"@) ==> r@ == "zed-preview"@,
        text::opt_str(channel) != Some("preview"@) ==> r@ == "zed"@,
{
    tools::law_cli(text::opt_str(channel));
}

/// `find_hook_socket`: a socket of the channel with none changed later, and one wherever the
/// channel has some; `hook_socket_path` is the path of one.
pub proof fn law_find_socket(
    channel: &str,
    files: &[FoundFile],
    r: Option<String>,
    k: int,
    pid: u32,
    own: String,
)
    requires
        call_ensures(mapping::find_hook_socket, (channel, files), r),
        call_ensures(mapping::hook_socket_path, (channel, pid), own),
        0 <= k < files@.len(),
    ensures
        mapping::is_socket(files@[k].path@, channel@) ==> r is Some && exists|i: int|
            0 <= i < files@.len() && (#[trigger] files@[i]).path@ == r->0@ && mapping::is_socket(
                files@[i].path@,
                channel@,
            ) && (files@[k].modified is Some ==> files@[i].modified is Some && files@[k].modified->0
                <= files@[i].modified->0),
        own@ == "/tmp/zed-prj-workspace-"@ + channel@ + seq!['-'] + decimal::written(pid as int)
            + ".sock"@,
        mapping::is_socket(own@, channel@),
{
    tools::law_socket(own@, channel@, decimal::written(pid as int), pid as nat);
    if mapping::is_socket(files@[k].path@, channel@) {
        if let Some(p) = r {
            let i = choose|i: int|
                mapping::is_newest(files@, channel@, i) && files@[i].path@ == p@;
            tools::law_newest(files@, channel@, i, k);
            assert(files@[i].path@ == r->0@);
        }
    }
}

/// `HookClient::connect` goes where `find_hook_socket` finds a socket of the channel, the
/// preview's where none is given.
pub proof fn law_connect(
    channel: Option<&str>,
    files: &[FoundFile],
    r: Option<HookClient>,
    k: int,
    asked: String,
)
    requires
        call_ensures(HookClient::connect, (channel, files), r),
        call_ensures(hook_client::hook_channel, (channel,), asked),
        0 <= k < files@.len(),
    ensures
        channel matches Some(c) ==> asked@ == c@,
        channel is None ==> asked@ == "preview"@,
        mapping::is_socket(files@[k].path@, asked@) ==> r is Some && exists|i: int|
            0 <= i < files@.len() && (#[trigger] files@[i]).path@ == r->0.socket_path@
                && mapping::is_socket(files@[i].path@, asked@) && (files@[k].modified is Some
                ==> files@[i].modified is Some && files@[k].modified->0 <= files@[i].modified->0),
{
    if mapping::is_socket(files@[k].path@, asked@) {
        if let Some(c) = r {
            let i = choose|i: int|
                mapping::is_newest(files@, asked@, i) && files@[i].path@ == c.socket_path@;
            tools::law_newest(files@, asked@, i, k);
            assert(files@[i].path@ == r->0.socket_path@);
        }
    }
}

} // verus!
