//! Laws of the operations that start a search and carry it on, of the places that they look
//! at and of what they leave there, and of the doctor.
use vstd::prelude::*;

use crate::components;
use crate::components::Part;
use crate::decimal;
use crate::discovery;
use crate::discovery::{Answer, Discovery, Question, Stage, Step, Verdict};
use crate::doctor;
use crate::doctor::{Finding, Report};
use crate::hook::config;
use crate::hook::discovery as hook_discovery;
use crate::hook::discovery::{SettingsWrite, TargetSearch};
use crate::hook::symbols;
use crate::hook::symbols::Place;
use crate::hook::sync;
use crate::json;
use crate::json::Entry;
use crate::laws::database;
use crate::laws::hook;
use crate::laws::paths as path_laws;
use crate::laws::searches;
use crate::laws::tools;
use crate::lock;
use crate::mapping::WorkspaceMapping;
use crate::settings;
use crate::settings::Cleanup;
use crate::sync_engine;
use crate::text;
use crate::workspace_db;
use crate::workspace_db::{Lookup, WorkspaceRecord};

verus! {

/// `discover`: a search starts where there is a root, with the project name of the first, in
/// the channel that was handed over or that the database tells.
pub proof fn law_discover(
    list: Vec<String>,
    db: String,
    channel: Option<String>,
    r: Result<(Discovery, Step), discovery::Error>,
)
    requires
        call_ensures(discovery::discover, (list, db, channel), r),
    ensures
        r is Err <==> list@.len() == 0,
        r matches Ok((d, step)) ==> {
            &&& d.roots == list && d.db_path == db
            &&& channel is Some ==> text::opt(d.zed_channel) == text::opt(channel)
            &&& step.verdict == Verdict::Ask(Question::ProjectName { root: 0 })
            &&& step.changes@.len() == 0
        },
{
    if let Ok((d, step)) = r {
        searches::law_questions(d, step.verdict);
    }
}

/// `Discovery::next` passes over a root without a project name, looks into a mapping as it
/// is, and asks for the workspace of a number that the database lacks.
pub proof fn law_discovery_next(d: &mut Discovery, answer: Answer, step: Step)
    requires
        old(d).wf(),
        old(d).awaits(answer),
        call_ensures(Discovery::next, (d, answer), step),
    ensures
        match (old(d).stage, answer) {
            (Stage::Name { root }, Answer::ProjectName(None)) => if root + 1 < old(d).roots@.len() {
                final(d).stage == (Stage::Name { root: (root + 1) as usize })
            } else {
                final(d).stage == (Stage::Mapping { root: 0 })
            },
            (Stage::Mapping { root }, Answer::Mapping(None)) => if root + 1 < old(d).roots@.len() {
                final(d).stage == (Stage::Mapping { root: (root + 1) as usize })
            } else {
                final(d).stage is Scan
            },
            (Stage::Mapping { root }, Answer::Mapping(Some(m))) => {
                &&& final(d).stage matches Stage::ProbeMapped { root: r, mapping } && r == root
                    && mapping.workspace_id == m.workspace_id && mapping.workspace_file@
                    == m.workspace_file@
            },
            (Stage::CheckName { root, id, name }, Answer::Known(k)) => if k == Some(false) {
                final(d).stage is RenewName
            } else {
                final(d).stage is ProbeName
            },
            _ => true,
        },
        old(d).steps_to(answer, *final(d), step),
{
    searches::law_looks_into(*d, answer, *final(d), step);
}

/// The hook's searches start where there is a workspace with roots, with the project name of
/// the first of them.
pub proof fn law_target_search(
    id: i64,
    list: Vec<String>,
    channel: Option<String>,
    r: Option<(TargetSearch, hook_discovery::Step)>,
    latest: Option<(i64, Vec<String>)>,
    x: Option<(TargetSearch, hook_discovery::Step)>,
    record: Option<&WorkspaceRecord>,
    y: Option<(TargetSearch, hook_discovery::Step)>,
)
    requires
        call_ensures(TargetSearch::start, (id, list, channel), r),
        call_ensures(hook_discovery::discover_workspace_target, (latest, channel), x),
        call_ensures(hook_discovery::discover_for_workspace_id, (record, channel), y),
    ensures
        r is Some <==> list@.len() > 0,
        r matches Some((d, _)) ==> d.workspace_id == id && d.roots == list && d.channel == channel
            && d.stage == (hook_discovery::Stage::Name { root: 0 }),
        x is Some <==> (latest matches Some(l) && l.1@.len() > 0),
        x matches Some((d, _)) ==> (latest matches Some(l) ==> d.workspace_id == l.0 && d.roots
            == l.1),
        y is Some <==> (record matches Some(w) && w.paths@.len() > 0),
        y matches Some((d, _)) ==> (record matches Some(w) ==> d.workspace_id == w.workspace_id
            && d.roots@ == w.paths@),
{
}

/// `TargetSearch::next` goes on as the search steps.
pub proof fn law_target_next(
    d: &mut TargetSearch,
    answer: hook_discovery::Answer,
    step: hook_discovery::Step,
)
    requires
        old(d).wf(),
        call_ensures(TargetSearch::next, (d, answer), step),
    ensures
        old(d).steps_to(answer, *final(d), step),
{
}

/// `db_candidates`: the databases of the channel asked for, of the one found, the preview's
/// and the stable one, and then those of the other scopes.
pub proof fn law_db_candidates(
    dir: &str,
    hint: Option<&str>,
    detected: Option<&str>,
    names: &[String],
    r: Vec<String>,
)
    requires
        call_ensures(workspace_db::db_candidates, (dir, hint, detected, names), r),
    ensures
        ({
            let at = |scope: Seq<char>|
                components::join(components::join(dir@, scope), "db.sqlite"@);
            let of = |c: Option<Seq<char>>|
                match c {
                    Some(c) => seq![at("0-"@ + c)],
                    None => Seq::<Seq<char>>::empty(),
                };
            text::texts(r@) == of(text::opt_str(hint)) + of(text::opt_str(detected)) + seq![
                at("0-preview"@),
                at("0-stable"@),
            ] + text::texts(names@).filter(
                |n: Seq<char>|
                    n.len() >= 2 && n[0] == '0' && n[1] == '-' && n != "0-global"@,
            ).map_values(at)
        }),
{
    database::law_db_places(
        dir@,
        text::opt_str(hint),
        text::opt_str(detected),
        text::texts(names@),
    );
}

/// `lookups_for_folders`: as for roots but for the newest workspace, and nothing where there
/// are no folders.
pub proof fn law_lookups_for_folders(list: &[String], r: Vec<Lookup>, all: Vec<Lookup>)
    requires
        call_ensures(workspace_db::lookups_for_folders, (list,), r),
        call_ensures(workspace_db::lookups_for_roots, (list,), all),
    ensures
        list@.len() == 0 ==> r@.len() == 0,
        list@.len() > 0 ==> workspace_db::queries(r@) == workspace_db::queries(all@).drop_last(),
{
    assert(workspace_db::queries(r@).len() == r@.len());
}

/// `write_zed_settings_for_roots`: into the root that `find_primary_index` gives, which takes
/// the name from the others, or else into the first.
pub proof fn law_settings_for_roots(
    id: i64,
    file: &str,
    list: &[String],
    holds: &[bool],
    pn: String,
    project: &str,
    at: Option<usize>,
    r: Option<SettingsWrite>,
)
    requires
        call_ensures(hook_discovery::write_zed_settings_for_roots, (id, file, list, holds), r),
        call_ensures(hook_discovery::project_name_for_file, (id, file), pn),
        project@ == pn@,
        call_ensures(settings::find_primary_index, (list, project, holds), at),
    ensures
        r is Some <==> list@.len() > 0,
        r matches Some(w) ==> {
            &&& w.project_name@ == pn@
            &&& at matches Some(i) ==> w.root == i && w.clean
            &&& at is None ==> w.root == 0 && !w.clean
        },
{
}

/// `read_zed_settings_project_name`: a number and a workspace file, and nothing else.
pub proof fn law_read_settings(
    content: &str,
    id: i64,
    name: Seq<char>,
    r: Option<(i64, String)>,
)
    requires
        call_ensures(hook_discovery::read_zed_settings_project_name, (content,), r),
    ensures
        settings::project_name_in(content@) is None ==> r is None,
        settings::project_name_in(content@) == Some(
            decimal::written(id as int) + seq![':'] + (name + ".code-workspace"@),
        ) ==> (r matches Some(p) && p.0 == id && p.1@ == name + ".code-workspace"@),
        settings::project_name_in(content@) == Some(decimal::written(id as int) + seq![':'] + name)
            && (forall|x: Seq<char>| name != #[trigger] (x + ".code-workspace"@)) ==> r is None,
{
    tools::law_v1(id, name + ".code-workspace"@);
    tools::law_v1(id, name);
    let suffix = ".code-workspace"@;
    assert(settings::suffix() == suffix);
    let file = name + suffix;
    assert(suffix.is_suffix_of(file)) by {
        assert(file.subrange(file.len() - suffix.len(), file.len() as int) == suffix);
    }
    if suffix.is_suffix_of(name) {
        let x = name.take(name.len() - suffix.len());
        assert(name == x + suffix);
    }
}

/// `cleanup_stale_project_names` cleans each root as `cleanup_stale_project_name` does.
pub proof fn law_clean_all(
    list: &[String],
    primary: &str,
    contents: &[Option<String>],
    all: Vec<Cleanup>,
    i: int,
    o: json::Entries,
    k: Seq<char>,
)
    requires
        call_ensures(settings::cleanup_stale_project_names, (list, primary, contents), all),
        contents@.len() == list@.len(),
        0 <= i < list@.len(),
        contents@[i] is Some,
        json::parsed(contents@[i]->0@) == Ok::<Entry, Seq<char>>(Entry::Object(o)),
        json::steady(o),
    ensures
        all@.len() == list@.len(),
        components::components(list@[i]@) == components::components(primary@) || !o.contains_key(
            "project_name"@,
        ) ==> all@[i] is Keep,
        components::components(list@[i]@) != components::components(primary@) && o.contains_key(
            "project_name"@,
        ) ==> (match all@[i] {
            Cleanup::Keep => false,
            Cleanup::RemoveFile => k != "project_name"@ ==> !o.contains_key(k),
            Cleanup::Rewrite(s) => json::parsed(s@) matches Ok(Entry::Object(after)) && {
                &&& !after.contains_key("project_name"@)
                &&& k != "project_name"@ ==> after.contains_key(k) == o.contains_key(k)
                &&& k != "project_name"@ && o.contains_key(k) ==> after[k] == o[k]
            },
        }),
{
    let t = contents@[i]->0@;
    assert(settings::content_at(contents@, i) == Some(t));
    assert(settings::is_cleanup(list@[i]@, primary@, Some(t), all@[i]));
    tools::law_cleanup(list@[i]@, primary@, t, o, all@[i], k);
}

/// `stamp_mapping` and `update_mapping_sync_ts` change the time of a mapping alone, and make
/// none.
pub proof fn law_stamp(
    m: Option<WorkspaceMapping>,
    ts: String,
    r: Option<WorkspaceMapping>,
    u: Option<WorkspaceMapping>,
)
    requires
        call_ensures(sync_engine::stamp_mapping, (m, ts), r),
        call_ensures(sync_engine::update_mapping_sync_ts, (m,), u),
    ensures
        r is Some <==> m is Some,
        u is Some <==> m is Some,
        m matches Some(x) ==> (r matches Some(y) && y.last_sync_ts == Some(ts) && y.workspace_id
            == x.workspace_id && y.workspace_file == x.workspace_file && y.zed_channel
            == x.zed_channel),
        m matches Some(x) ==> (u matches Some(y) && y.last_sync_ts is Some && y.workspace_id
            == x.workspace_id && y.workspace_file == x.workspace_file && y.zed_channel
            == x.zed_channel),
{
}

/// `resolve_picker_target_name`: the name of the workspace file, or else that in the project
/// name.
pub proof fn law_picker_name(
    base: Seq<char>,
    name: Seq<char>,
    file: Option<&str>,
    raw: Option<&str>,
    r: Option<String>,
)
    requires
        call_ensures(sync::resolve_picker_target_name, (file, raw), r),
        base.len() > 0,
        name.len() > 0,
        !name.contains('/'),
    ensures
        text::opt_str(file) == Some(components::join(base, name + ".code-workspace"@)) ==> r is Some
            && r->0@ == name,
        file is None && raw is None ==> r is None,
        file is None ==> (raw matches Some(t) ==> (r is Some <==> settings::name_of(t@).len() > 0)
            && (r is Some ==> r->0@ == settings::name_of(t@))),
{
    let t = match raw {
        Some(t) => t@,
        None => Seq::empty(),
    };
    hook::law_picker_target(base, name, text::opt_str(raw), t);
}

/// `detect_app_id` and `registry_app_id`: the application is told by its program, as by its
/// channel.
pub proof fn law_app(
    exe: Option<&str>,
    channel: Option<&str>,
    a: Seq<char>,
    b: Seq<char>,
    r: String,
    q: String,
)
    requires
        call_ensures(config::detect_app_id, (exe,), r),
        call_ensures(config::registry_app_id, (channel,), q),
    ensures
        channel matches Some(c) ==> q@ == "zed-"@ + c@,
        channel is None ==> q@ == "zed"@,
        text::opt_str(exe) == Some(a + "Zed Preview"@ + b) ==> r@ == "zed-"@ + "preview"@,
        text::opt_str(exe) == Some(a + "Zed.app"@ + b) && !text::occurs_in(
            "Zed Preview"@,
            a + "Zed.app"@ + b,
        ) ==> r@ == "zed-"@ + "stable"@,
        text::opt_str(exe) == Some(a) && !text::occurs_in("Zed Preview"@, a) && !text::occurs_in(
            "Zed.app"@,
            a,
        ) ==> r@ == "zed"@,
        exe is None ==> r@ == "zed"@,
{
    let c = match channel {
        Some(c) => c@,
        None => Seq::empty(),
    };
    hook::law_app(a, b, c);
    hook::law_app(a, b, "preview"@);
    hook::law_app(a, b, "stable"@);
}

/// `config_path_of`: the file of the application below the home directory.
pub proof fn law_config_path(home: &str, app: &str, r: Option<String>)
    requires
        call_ensures(config::config_path_of, (Some(home), app), r),
        home@.len() > 0,
        path_laws::is_name(app@),
    ensures
        r is Some,
        components::components(r->0@) == components::components(home@) + seq![
            Part::Normal(".config"@),
            Part::Normal("dylib-hooks"@),
            Part::Normal(app@),
            Part::Normal("zed-prj-workspace-hook.json"@),
        ],
{
    tools::law_config_path(home@, app@);
}

/// `workspace_db_candidates`: the database of the channel that the program tells, and then
/// those of the other scopes.
pub proof fn law_hook_databases(dir: &str, exe: Option<&str>, names: &[String], r: Vec<String>)
    requires
        call_ensures(hook_discovery::workspace_db_candidates, (dir, exe, names), r),
    ensures
        ({
            let at = |scope: Seq<char>|
                components::join(components::join(dir@, scope), "db.sqlite"@);
            &&& r@.len() > 0
            &&& exe matches Some(e) ==> text::texts(r@)[0] == (if text::occurs_in(
                "Zed Preview"@,
                e@,
            ) {
                at("0-preview"@)
            } else {
                at("0-stable"@)
            })
            &&& exe is None ==> text::texts(r@)[0] == at("0-stable"@)
            &&& text::texts(r@).skip(1) == text::texts(names@).filter(
                |n: Seq<char>|
                    n.len() >= 2 && n[0] == '0' && n[1] == '-' && n != "0-global"@,
            ).map_values(at)
        }),
{
    let all = text::texts(names@);
    database::law_db_places(dir@, None, None, all);
    let others = workspace_db::other_dbs(dir@, all);
    let places = workspace_db::db_places(dir@, None, None, all);
    let none = Seq::<Seq<char>>::empty();
    assert(places.skip(2) =~= others) by {
        assert(none + none =~= none);
    }
    let at = |scope: Seq<char>|
        components::join(components::join(dir@, scope), "db.sqlite"@);
    let more = all.filter(
        |n: Seq<char>|
            n.len() >= 2 && n[0] == '0' && n[1] == '-' && n != "0-global"@,
    ).map_values(at);
    assert(places.skip(2) =~= more) by {
        assert(none + none =~= none);
    }
    assert(text::texts(r@).skip(1) =~= others);
    assert(text::texts(r@).len() == r@.len());
}

/// `find_picker_sort`: what `find_by_pattern` finds by the newer patterns, or else by the
/// older ones.
pub proof fn law_find_picker_sort(
    exports: &[String],
    others: &[String],
    new: &[String],
    old_patterns: &[String],
    not: &[String],
    x: Option<Place>,
    y: Option<Place>,
    r: Option<Place>,
)
    requires
        text::texts(new@) == seq!["driftsort_main"@, "get_open_folders"@, "OpenFolderEntry"@],
        text::texts(old_patterns@) == seq![
            "insertion_sort_shift_left"@,
            "get_open_folders"@,
            "OpenFolderEntry"@,
        ],
        text::texts(not@) == seq!["drop_in_place"@, "vtable"@],
        call_ensures(symbols::find_by_pattern, (exports, others, new, not), x),
        call_ensures(symbols::find_by_pattern, (exports, others, old_patterns, not), y),
        call_ensures(symbols::find_picker_sort, (exports, others), r),
    ensures
        x is Some ==> r == x,
        x is None ==> r == y,
{
}

/// `lock_path` stands beside the file it guards, and so does `temporary_path`, under another
/// name.
pub proof fn law_lock(path: &str, l: String, t: String)
    requires
        call_ensures(lock::lock_path, (path,), l),
        call_ensures(lock::temporary_path, (path,), t),
        components::file_name(path@) is Some,
    ensures
        l@ == path@ + ".lock"@,
        components::components(t@).drop_last() == components::components(path@).drop_last(),
        components::components(t@) != components::components(path@),
{
    lock::lemma_temporary_is_beside(path@);
}

/// `run_doctor` of a workspace file: how many folders it lists, and then the path of each
/// that gives one.
pub proof fn law_doctor_workspace(
    path: String,
    c: String,
    o: json::Entries,
    items: Seq<Entry>,
    r: Report,
)
    requires
        call_ensures(
            doctor::run_doctor,
            (&(Finding::Workspace { path, content: Some(Ok(c)) }),),
            r,
        ),
        json::parsed(c@) == Ok::<Entry, Seq<char>>(Entry::Object(o)),
        o.contains_key("folders"@),
        o["folders"@] == Entry::List(items),
    ensures
        r.failure is None,
        text::texts(r.lines@).skip(1) == seq![
            "  "@ + ("File: "@ + path@),
            "  "@ + ("Folders: "@ + decimal::written(items.len() as int)),
        ] + items.map_values(|e: Entry| doctor::path_of(e)).filter_map(
            |p: Option<Seq<char>>|
                match p {
                    Some(t) => Some(seq![' ', ' '] + t),
                    None => None,
                },
        ),
{
    let all = items.map_values(|e: Entry| doctor::path_of(e));
    assert(doctor::folders_in(Some(o)) == all);
    tools::law_doctor(Seq::empty(), Seq::empty(), Seq::empty(), all);
    assert(text::texts(r.lines@).skip(1) =~= seq![
        "  "@ + ("File: "@ + path@),
        "  "@ + ("Folders: "@ + decimal::written(items.len() as int)),
    ] + doctor::folder_lines(all));
}

} // verus!
