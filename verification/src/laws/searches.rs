//! Laws of the searches for a workspace file: what they ask, what they change, and what
//! they give.
use vstd::prelude::*;

use crate::components;
use crate::components::Part;
use crate::discovery;
use crate::discovery::{Answer, Change, Discovery, Question, Stage, Step, Verdict};
use crate::hook::discovery as hook_discovery;
use crate::hook::discovery::TargetSearch;
use crate::laws::paths as path_laws;
use crate::laws::tools;
use crate::paths;
use crate::settings;
use crate::text;
use crate::workspace_file;

verus! {

broadcast use vstd::string::group_string_axioms;

/// The path is that of the workspace file of a name in a folder.
pub open spec fn is_file_of(path: Seq<char>, root: Seq<char>, name: Seq<char>) -> bool {
    components::components(path) == components::components(root).push(
        Part::Normal(name + ".code-workspace"@),
    )
}

/// The last component of a path, where it is a name, can be one.
proof fn lemma_borne(root: Seq<char>, name: Seq<char>)
    requires
        settings::bears(root, name),
    ensures
        root.len() > 0,
        name.len() > 0,
        !name.contains('/'),
{
    let c = components::components(root);
    components::lemma_components_proper(root);
    let last = c.len() - 1;
    assert(c[last] == Part::Normal(name));
    if components::plain(c) {
        assert(components::is_name(name));
    } else {
        assert(c.skip(1)[last - 1] == Part::Normal(name));
        assert(components::is_name(name));
    }
    if root.len() == 0 {
        path_laws::law_components_of_one(name);
        assert(root == Seq::<char>::empty());
    }
}

/// What a search asks where it stands: the project names and the mappings of the roots one
/// by one, whether the workspace file that one of them names is there, and whether Zed
/// knows the workspace that it names.
pub proof fn law_questions(d: Discovery, v: Verdict)
    requires
        d.wf(),
        d.asks(v),
    ensures
        match d.stage {
            Stage::Name { root } => v == Verdict::Ask(Question::ProjectName { root }),
            Stage::CheckName { id, .. } => v == Verdict::Ask(
                Question::Known { workspace_id: id },
            ),
            Stage::ProbeName { root, name, .. } => v matches Verdict::Ask(Question::Exists { path })
                && is_file_of(path@, d.roots@[root as int]@, name@),
            Stage::Mapping { root } => v == Verdict::Ask(Question::Mapping { root }),
            Stage::ProbeMapped { root, mapping } => v matches Verdict::Ask(
                Question::Exists { path },
            ) && path@ == components::join(d.roots@[root as int]@, mapping.workspace_file@),
            Stage::CheckMapped { mapping, .. } => v == Verdict::Ask(
                Question::Known { workspace_id: mapping.workspace_id },
            ),
            Stage::Scan => v == Verdict::Ask(Question::Files),
            Stage::RenewName { .. } => v == Verdict::Ask(Question::Workspace),
            Stage::RenewMapped { .. } => v == Verdict::Ask(Question::Workspace),
            Stage::RenewScanned { .. } => v == Verdict::Ask(Question::Workspace),
            Stage::RenewCreated => v == Verdict::Ask(Question::Workspace),
            Stage::Over => v is NotFound,
        },
{
    if let Stage::ProbeName { root, name, .. } = d.stage {
        lemma_borne(d.roots@[root as int]@, name@);
        tools::law_workspace_file(d.roots@[root as int]@, name@);
    }
}

/// What a search changes: it removes a mapping only in the root whose name or mapping it
/// goes by, creates a file only where the roots hold no workspace file, with a folder for
/// each root in their order, and writes the mapping that it has found to all roots.
pub proof fn law_changes(d: Discovery, answer: Answer, next: Discovery, step: Step, k: int)
    requires
        d.wf(),
        d.awaits(answer),
        d.steps_to(answer, next, step),
        0 <= k < step.changes@.len(),
    ensures
        match step.changes@[k] {
            Change::WriteProjectName(_) => k == 0,
            Change::RemoveMapping { root } => k == step.changes@.len() - 1 && match d.stage {
                Stage::ProbeName { root: r, .. } => root == r,
                Stage::CheckMapped { root: r, .. } => root == r && step.verdict is Found,
                Stage::RenewMapped { root: r, .. } => root == r && step.verdict is Found,
                _ => false,
            },
            Change::CreateFile { path, folders } => {
                &&& d.stage is Scan
                &&& path@ == settings::workspace_file(
                    d.roots@[0]@,
                    discovery::last_name(d.roots@[0]@),
                )
                &&& folders@.len() == d.roots@.len()
                &&& forall|i: int|
                    0 <= i < d.roots@.len() ==> (#[trigger] folders@[i]).name is None
                        && folders@[i].path@ == paths::relative(d.roots@[0]@, d.roots@[i]@)
                &&& forall|i: int|
                    0 <= i < answer->Files_0@.len() ==> components::file_extension(
                        #[trigger] answer->Files_0@[i]@,
                    ) != Some("code-workspace"@)
            },
            Change::WriteMappings { mapping, file } => step.verdict matches Verdict::Found(r)
                && file@ == r.workspace_file@ && mapping.workspace_id == r.workspace_id
                && mapping.workspace_file@ == r.mapping.workspace_file@ && text::opt(
                mapping.zed_channel,
            ) == text::opt(d.zed_channel) && mapping.last_sync_ts is None && (
            d.stage is RenewScanned || d.stage is RenewCreated),
        },
{
    if let Change::CreateFile { path, folders } = step.changes@[k] {
        let files = text::texts(answer->Files_0@);
        let all = text::texts(d.roots@);
        let got = workspace_file::folders_of(folders@);
        assert(got.len() == folders@.len());
        assert forall|i: int| 0 <= i < d.roots@.len() implies (#[trigger] folders@[i]).name is None
            && folders@[i].path@ == paths::relative(d.roots@[0]@, d.roots@[i]@) by {
            assert(got[i] == folders@[i]@);
            assert(all[i] == d.roots@[i]@);
        }
        assert forall|i: int| 0 <= i < answer->Files_0@.len() implies components::file_extension(
            #[trigger] answer->Files_0@[i]@,
        ) != Some("code-workspace"@) by {
            lemma_none_left(files, i);
            assert(files[i] == answer->Files_0@[i]@);
        }
    }
}

/// Which changes a step makes, and in which order: a name with another workspace is
/// written before the mapping goes; a mapping that leads to the file becomes a name; a
/// file that was found or created gets a name and mappings. No other step changes anything.
pub proof fn law_change_kinds(d: Discovery, answer: Answer, next: Discovery, step: Step)
    requires
        d.wf(),
        d.awaits(answer),
        d.steps_to(answer, next, step),
    ensures
        ({
            let c = step.changes@;
            match d.stage {
                Stage::ProbeName { id, valid, .. } => if id == valid {
                    c.len() == 1 && c[0] is RemoveMapping
                } else {
                    c.len() == 2 && c[0] is WriteProjectName && c[1] is RemoveMapping
                },
                Stage::CheckMapped { .. } => if answer == Answer::Known(Some(false)) {
                    c.len() == 0
                } else {
                    c.len() == 2 && c[0] is WriteProjectName && c[1] is RemoveMapping
                },
                Stage::RenewMapped { .. } => if answer == Answer::Workspace(None) {
                    c.len() == 0
                } else {
                    c.len() == 2 && c[0] is WriteProjectName && c[1] is RemoveMapping
                },
                Stage::RenewScanned { .. } => if answer == Answer::Workspace(None) {
                    c.len() == 0
                } else {
                    c.len() == 2 && c[0] is WriteProjectName && c[1] is WriteMappings
                },
                Stage::RenewCreated => if answer == Answer::Workspace(None) {
                    c.len() == 0
                } else {
                    c.len() == 2 && c[0] is WriteProjectName && c[1] is WriteMappings
                },
                Stage::Scan => c.len() == 0 || (c.len() == 1 && c[0] is CreateFile),
                _ => c.len() == 0,
            }
        }),
{
}

/// Where no workspace file is among files, none of them has the extension.
proof fn lemma_none_left(files: Seq<Seq<char>>, i: int)
    requires
        discovery::workspace_files(files).len() == 0,
        0 <= i < files.len(),
    ensures
        components::file_extension(files[i]) != Some("code-workspace"@),
    decreases files.len(),
{
    if i < files.len() - 1 {
        lemma_none_left(files.drop_last(), i);
    }
}

/// What a search gives: a mapping for the same workspace, the database and the channel that
/// it was started with, and the file and the name that it went by.
pub proof fn law_found(d: Discovery, answer: Answer, next: Discovery, step: Step)
    requires
        d.wf(),
        d.awaits(answer),
        d.steps_to(answer, next, step),
        step.verdict is Found,
    ensures
        ({
            let r = step.verdict->Found_0;
            &&& r.mapping.workspace_id == r.workspace_id
            &&& r.db_path@ == d.db_path@
            &&& text::opt(r.zed_channel) == text::opt(d.zed_channel)
            &&& match d.stage {
                Stage::ProbeName { root, valid, name, .. } => {
                    &&& answer == Answer::Exists(true)
                    &&& r.workspace_id == valid
                    &&& r.project_name@ == name@
                    &&& is_file_of(r.workspace_file@, d.roots@[root as int]@, name@)
                    &&& r.mapping.workspace_file@ == name@ + ".code-workspace"@
                },
                Stage::CheckMapped { root, mapping } => {
                    &&& answer != Answer::Known(Some(false))
                    &&& r.workspace_id == mapping.workspace_id
                    &&& r.workspace_file@ == components::join(
                        d.roots@[root as int]@,
                        mapping.workspace_file@,
                    )
                    &&& r.mapping.workspace_file@ == mapping.workspace_file@
                    &&& text::opt(r.mapping.zed_channel) == text::opt(mapping.zed_channel)
                    &&& text::opt(r.mapping.last_sync_ts) == text::opt(mapping.last_sync_ts)
                },
                Stage::RenewMapped { root, mapping } => {
                    &&& answer == Answer::Workspace(Some(r.workspace_id))
                    &&& r.workspace_file@ == components::join(
                        d.roots@[root as int]@,
                        mapping.workspace_file@,
                    )
                    &&& text::opt(r.mapping.zed_channel) == text::opt(mapping.zed_channel)
                    &&& text::opt(r.mapping.last_sync_ts) == text::opt(mapping.last_sync_ts)
                },
                Stage::RenewScanned { file } => {
                    &&& answer == Answer::Workspace(Some(r.workspace_id))
                    &&& r.workspace_file@ == file@
                    &&& Some(r.project_name@) == components::file_stem(file@)
                        || components::file_stem(file@) is None
                },
                Stage::RenewCreated => {
                    &&& answer == Answer::Workspace(Some(r.workspace_id))
                    &&& r.workspace_file@ == settings::workspace_file(
                        d.roots@[0]@,
                        discovery::last_name(d.roots@[0]@),
                    )
                },
                _ => false,
            }
        }),
{
    if let Stage::ProbeName { root, name, .. } = d.stage {
        lemma_borne(d.roots@[root as int]@, name@);
        tools::law_workspace_file(d.roots@[root as int]@, name@);
    }
}

/// A mapping that a root has is looked into as it is, and a root without one is passed over;
/// a name is looked into with its number, in a root that bears it.
pub proof fn law_looks_into(d: Discovery, answer: Answer, next: Discovery, step: Step)
    requires
        d.wf(),
        d.awaits(answer),
        d.steps_to(answer, next, step),
    ensures
        match (d.stage, answer) {
            (Stage::Mapping { root }, Answer::Mapping(Some(m))) => {
                &&& next.stage matches Stage::ProbeMapped { root: r, mapping } && r == root
                    && mapping.workspace_id == m.workspace_id && mapping.workspace_file@
                    == m.workspace_file@ && text::opt(mapping.zed_channel) == text::opt(
                    m.zed_channel,
                ) && text::opt(mapping.last_sync_ts) == text::opt(m.last_sync_ts)
            },
            (Stage::Mapping { root }, Answer::Mapping(None)) => if root + 1 < d.roots@.len() {
                next.stage == (Stage::Mapping { root: (root + 1) as usize })
            } else {
                next.stage is Scan
            },
            (Stage::Name { root }, Answer::ProjectName(None)) => if root + 1 < d.roots@.len() {
                next.stage == (Stage::Name { root: (root + 1) as usize })
            } else {
                next.stage == (Stage::Mapping { root: 0 })
            },
            (Stage::CheckName { root, id, name }, Answer::Known(k)) => if k == Some(false) {
                next.stage matches Stage::RenewName { root: r, id: i, name: n } && r == root && i == id
                    && n@ == name@
            } else {
                next.stage matches Stage::ProbeName { root: r, id: i, valid, name: n } && r == root
                    && i == id && valid == id && n@ == name@
            },
            (Stage::RenewName { root, id, name }, Answer::Workspace(Some(w))) => {
                &&& next.stage matches Stage::ProbeName { root: r, id: i, valid, name: n } && r == root
                    && i == id && valid == w && n@ == name@
            },
            (Stage::ProbeMapped { root, .. }, Answer::Exists(true)) => {
                &&& next.stage matches Stage::CheckMapped { root: r, .. } && r == root
            },
            _ => true,
        },
{
}

/// What the hook's search asks where it stands.
pub proof fn law_target_questions(d: TargetSearch, v: hook_discovery::Verdict)
    requires
        d.wf(),
        d.asks(v),
    ensures
        match d.stage {
            hook_discovery::Stage::Name { root } => v == hook_discovery::Verdict::Ask(
                hook_discovery::Question::ProjectName { root },
            ),
            hook_discovery::Stage::ProbeName { root, name, .. } => {
                &&& v matches hook_discovery::Verdict::Ask(
                    hook_discovery::Question::Exists { path },
                ) && is_file_of(path@, d.roots@[root as int]@, name@)
            },
            hook_discovery::Stage::Mapping { root } => v == hook_discovery::Verdict::Ask(
                hook_discovery::Question::Mapping { root },
            ),
            hook_discovery::Stage::ProbeMapped { root, mapping } => {
                &&& v matches hook_discovery::Verdict::Ask(
                    hook_discovery::Question::Exists { path },
                ) && path@ == components::join(d.roots@[root as int]@, mapping.workspace_file@)
            },
            hook_discovery::Stage::Scan => v == hook_discovery::Verdict::Ask(
                hook_discovery::Question::Files,
            ),
            hook_discovery::Stage::OwnName { root, .. } => v == hook_discovery::Verdict::Ask(
                hook_discovery::Question::ProjectName { root },
            ),
            hook_discovery::Stage::ProbeOwn { path, .. } => {
                &&& v matches hook_discovery::Verdict::Ask(
                    hook_discovery::Question::Exists { path: p },
                ) && p@ == path@
            },
            hook_discovery::Stage::ProbeNew => v matches hook_discovery::Verdict::Ask(
                hook_discovery::Question::Exists { path },
            ) && path@ == settings::workspace_file(
                d.roots@[0]@,
                hook_discovery::folder_name(d.roots@[0]@),
            ),
            hook_discovery::Stage::Over => v is Nothing,
        },
{
    if let hook_discovery::Stage::ProbeName { root, name, .. } = d.stage {
        lemma_borne(d.roots@[root as int]@, name@);
        tools::law_workspace_file(d.roots@[root as int]@, name@);
    }
}

/// What the hook's search changes with a target: by a name, the root's name where its
/// workspace is another, and its mapping goes; by a mapping, that where its workspace is
/// another; with the only file or a new one, the name of the file and the mapping for all
/// roots; and a new file where there is none, with a folder for each root.
pub proof fn law_target_changes(
    d: TargetSearch,
    answer: hook_discovery::Answer,
    next: TargetSearch,
    step: hook_discovery::Step,
    k: int,
)
    requires
        d.wf(),
        d.awaits(answer),
        d.steps_to(answer, next, step),
        0 <= k < step.changes@.len(),
    ensures
        step.verdict is Target,
        match step.changes@[k] {
            hook_discovery::Change::WriteRootName { root, project_name } => {
                &&& d.stage matches hook_discovery::Stage::ProbeName { root: r, id, name } && root == r
                    && id != d.workspace_id && project_name@ == settings::project_name(
                    d.workspace_id,
                    name@,
                )
            },
            hook_discovery::Change::RemoveMapping { root } => {
                &&& d.stage matches hook_discovery::Stage::ProbeName { root: r, .. } && root == r
            },
            hook_discovery::Change::WriteMapping { root, mapping } => {
                &&& d.stage matches hook_discovery::Stage::ProbeMapped { root: r, mapping: m } && root
                    == r && m.workspace_id != d.workspace_id && mapping.workspace_id
                    == d.workspace_id && mapping.workspace_file@ == m.workspace_file@ && text::opt(
                    mapping.zed_channel,
                ) == text::opt(m.zed_channel)
            },
            hook_discovery::Change::NameRoots { file, required } => {
                &&& file@ == step.verdict->Target_0@
                &&& required == (d.stage is ProbeNew)
            },
            hook_discovery::Change::CreateFile { path, folders } => {
                &&& d.stage is ProbeNew && answer == hook_discovery::Answer::Exists(false)
                &&& path@ == step.verdict->Target_0@
                &&& folders@.len() == d.roots@.len()
            },
            hook_discovery::Change::WriteMappings { mapping, file } => {
                &&& file@ == step.verdict->Target_0@
                &&& mapping.workspace_id == d.workspace_id
                &&& text::opt(mapping.zed_channel) == text::opt(d.channel)
                &&& d.stage is Scan || d.stage is ProbeNew
            },
        },
{
    if let hook_discovery::Change::CreateFile { path, folders } = step.changes@[k] {
        assert(workspace_file::folders_of(folders@).len() == folders@.len());
    }
}

/// Which changes a step of the hook's search makes, and in which order.
pub proof fn law_target_change_kinds(
    d: TargetSearch,
    answer: hook_discovery::Answer,
    next: TargetSearch,
    step: hook_discovery::Step,
)
    requires
        d.wf(),
        d.awaits(answer),
        d.steps_to(answer, next, step),
    ensures
        ({
            let c = step.changes@;
            let there = answer == hook_discovery::Answer::Exists(true);
            match d.stage {
                hook_discovery::Stage::ProbeName { id, .. } => if !there {
                    c.len() == 0
                } else if id == d.workspace_id {
                    c.len() == 1 && c[0] is RemoveMapping
                } else {
                    c.len() == 2 && c[0] is WriteRootName && c[1] is RemoveMapping
                },
                hook_discovery::Stage::ProbeMapped { mapping, .. } => if !there
                    || mapping.workspace_id == d.workspace_id {
                    c.len() == 0
                } else {
                    c.len() == 1 && c[0] is WriteMapping
                },
                hook_discovery::Stage::Scan => if step.verdict is Target {
                    c.len() == 2 && c[0] is NameRoots && c[1] is WriteMappings
                } else {
                    c.len() == 0
                },
                hook_discovery::Stage::OwnName { .. } => if step.verdict is Target {
                    c.len() == 1 && c[0] is NameRoots
                } else {
                    c.len() == 0
                },
                hook_discovery::Stage::ProbeOwn { .. } => if step.verdict is Target {
                    c.len() == 1 && c[0] is NameRoots
                } else {
                    c.len() == 0
                },
                hook_discovery::Stage::ProbeNew => if there {
                    c.len() == 2 && c[0] is NameRoots && c[1] is WriteMappings
                } else {
                    c.len() == 3 && c[0] is CreateFile && c[1] is NameRoots && c[2] is WriteMappings
                },
                _ => c.len() == 0,
            }
        }),
{
}

/// The folder name that a new file of the hook is named after, and the paths written in it:
/// a dot for its own directory, the rest of the path for what lies below it, and all of the
/// path for anything else.
pub proof fn law_new_path(p: Seq<char>, n: Seq<char>, other: Seq<char>)
    requires
        p.len() > 0,
        path_laws::is_name(n),
    ensures
        hook_discovery::folder_name(path_laws::below(p, n)) == n,
        components::file_name(other) is None ==> hook_discovery::folder_name(other) == "workspace"@,
        hook_discovery::new_path(p, p) == seq!['.'],
        hook_discovery::new_path(p, path_laws::below(p, n)) == n,
        !components::components(p).is_prefix_of(components::components(other))
            ==> hook_discovery::new_path(p, other) == other,
{
    path_laws::law_file_name(p, n);
    path_laws::law_components_below(p, n);
    let c = components::components(p);
    let d = c.push(Part::Normal(n));
    assert(d.skip(c.len() as int) == seq![Part::Normal(n)]);
    assert(d.subrange(0, c.len() as int) == c);
    path_laws::law_render(c, Part::Normal(n));
    assert(d.len() != c.len());
    assert(components::dot() == seq!['.']);
    if components::same_path(other, p) {
        assert(components::components(other).subrange(0, c.len() as int) == c);
    }
}

} // verus!
