//! Finding the workspace file that the hook keeps in step with Zed.
//!
//! The hook knows Zed's workspace and its roots. The search asks one question at
//! a time. It goes by
//! 1. the project name in the settings of a root whose folder bears that name,
//! 2. the mapping file of a root,
//! 3. the only workspace file in the roots,
//! 4. where the roots hold none, such a project name of the workspace itself,
//! 5. a new workspace file in the first root.
//!
//! Of several workspace files none is taken.
use vstd::prelude::*;

use crate::components;
use crate::components::Part;
use crate::discovery;
use crate::mapping;
use crate::mapping::WorkspaceMapping;
use crate::paths;
use crate::settings;
use crate::text;
use crate::workspace_db;
use crate::workspace_db::WorkspaceRecord;
use crate::workspace_file;
use crate::workspace_file::{Folder, WorkspaceFolder};

verus! {

broadcast use vstd::string::group_string_axioms;

/// What the search wants to know.
#[derive(Debug)]
pub enum Question {
    /// The project name in the settings of a root.
    ProjectName { root: usize },
    /// Whether a file exists.
    Exists { path: String },
    /// The mapping file of a root.
    Mapping { root: usize },
    /// The files of all roots, root by root, without directories.
    Files,
}

/// An answer to a question.
#[derive(Debug)]
pub enum Answer {
    ProjectName(Option<String>),
    Exists(bool),
    Mapping(Option<WorkspaceMapping>),
    Files(Vec<String>),
}

/// Something to be changed before the search goes on. A change may fail without
/// ending the search, but for creating a file and for one that is required:
/// where these fail there is no target.
#[derive(Debug)]
pub enum Change {
    /// Write the project name into the settings of a root.
    WriteRootName { root: usize, project_name: String },
    /// Remove the mapping file of a root, if there is one.
    RemoveMapping { root: usize },
    /// Write the mapping of a root.
    WriteMapping { root: usize, mapping: WorkspaceMapping },
    /// Write the project name of a workspace file into the settings of the
    /// primary root, see `write_zed_settings_for_roots`.
    NameRoots { file: String, required: bool },
    /// Create a workspace file with the folders.
    CreateFile { path: String, folders: Vec<WorkspaceFolder> },
    /// Write the mapping of the file to all roots.
    WriteMappings { mapping: WorkspaceMapping, file: String },
}

/// How the search goes on.
#[derive(Debug)]
pub enum Verdict {
    Ask(Question),
    /// The file to keep in step.
    Target(String),
    /// Several files are there and none is taken, or the search was over before.
    Nothing,
}

/// One step of the search.
#[derive(Debug)]
pub struct Step {
    pub changes: Vec<Change>,
    pub verdict: Verdict,
}

/// Where the search stands: what it waits for, and what it knows.
#[derive(Debug)]
pub enum Stage {
    /// The project name of a root.
    Name { root: usize },
    /// Whether the workspace file of a project name exists.
    ProbeName { root: usize, id: i64, name: String },
    /// The mapping of a root.
    Mapping { root: usize },
    /// Whether the workspace file of a mapping exists.
    ProbeMapped { root: usize, mapping: WorkspaceMapping },
    /// The files of the roots.
    Scan,
    /// The project name of a root, and the files found so far by such names.
    OwnName { root: usize, found: Vec<String> },
    /// Whether the workspace file of such a name exists.
    ProbeOwn { root: usize, found: Vec<String>, path: String },
    /// Whether the new workspace file exists already.
    ProbeNew,
    /// Nothing: the search is over.
    Over,
}

/// A search for the workspace file of a workspace of Zed.
#[derive(Debug)]
pub struct TargetSearch {
    pub workspace_id: i64,
    pub roots: Vec<String>,
    pub channel: Option<String>,
    pub stage: Stage,
}

/// The folder name of a root that a new workspace file is named after.
pub open spec fn folder_name(root: Seq<char>) -> Seq<char> {
    match components::file_name(root) {
        Some(n) => n,
        None => "workspace"@,
    }
}

/// One path lies below, or is, another.
pub open spec fn is_below(path: Seq<char>, dir: Seq<char>) -> bool {
    components::components(dir).is_prefix_of(components::components(path))
}

/// The path written for a root in the new workspace file of the directory `base`.
pub open spec fn new_path(base: Seq<char>, root: Seq<char>) -> Seq<char> {
    if components::same_path(root, base) {
        components::dot()
    } else if is_below(root, base) {
        components::render(
            components::components(root).skip(components::components(base).len() as int),
        )
    } else {
        root
    }
}

/// The folders of the new workspace file of the directory `base`.
pub open spec fn new_folders(base: Seq<char>, roots: Seq<Seq<char>>) -> Seq<Folder> {
    roots.map_values(|r: Seq<char>| workspace_file::unnamed(new_path(base, r)))
}

/// The change names the roots after a file.
pub open spec fn is_naming(c: Change, file: Seq<char>, required: bool) -> bool {
    c matches Change::NameRoots { file: f, required: r } && f@ == file && r == required
}

impl TargetSearch {
    /// There are roots, and the search stands at one of them; at one that bears the
    /// name where it goes by a project name.
    pub open spec fn wf(self) -> bool {
        &&& self.roots@.len() > 0
        &&& match self.stage {
            Stage::Name { root } => root < self.roots@.len(),
            Stage::ProbeName { root, name, .. } => root < self.roots@.len() && settings::bears(
                self.roots@[root as int]@,
                name@,
            ),
            Stage::Mapping { root } => root < self.roots@.len(),
            Stage::ProbeMapped { root, .. } => root < self.roots@.len(),
            Stage::OwnName { root, .. } => root < self.roots@.len(),
            Stage::ProbeOwn { root, .. } => root < self.roots@.len(),
            _ => true,
        }
    }

    pub open spec fn root_at(self, i: int) -> Seq<char> {
        self.roots@[i]@
    }

    pub open spec fn same_search(self, other: Self) -> bool {
        self.workspace_id == other.workspace_id && self.roots == other.roots && self.channel
            == other.channel
    }

    /// The new workspace file of the search.
    pub open spec fn new_file(self) -> Seq<char> {
        settings::workspace_file(self.root_at(0), folder_name(self.root_at(0)))
    }

    /// The verdict asks what the search waits for.
    pub open spec fn asks(self, v: Verdict) -> bool {
        match self.stage {
            Stage::Name { root } => v matches Verdict::Ask(Question::ProjectName { root: r }) && r
                == root,
            Stage::ProbeName { root, name, .. } => v matches Verdict::Ask(
                Question::Exists { path },
            ) && path@ == settings::workspace_file(self.root_at(root as int), name@),
            Stage::Mapping { root } => v matches Verdict::Ask(Question::Mapping { root: r }) && r
                == root,
            Stage::ProbeMapped { root, mapping } => v matches Verdict::Ask(
                Question::Exists { path },
            ) && path@ == mapping::mapped_file(
                self.root_at(root as int),
                mapping.workspace_file@,
            ),
            Stage::Scan => v matches Verdict::Ask(Question::Files),
            Stage::OwnName { root, .. } => v matches Verdict::Ask(
                Question::ProjectName { root: r },
            ) && r == root,
            Stage::ProbeOwn { path, .. } => v matches Verdict::Ask(Question::Exists { path: p })
                && p@ == path@,
            Stage::ProbeNew => v matches Verdict::Ask(Question::Exists { path }) && path@
                == self.new_file(),
            Stage::Over => v is Nothing,
        }
    }

    /// The search goes on behind the project name of a root.
    pub open spec fn past_name(self, root: int) -> bool {
        if root + 1 < self.roots@.len() {
            self.stage matches Stage::Name { root: r } && r == root + 1
        } else {
            self.stage matches Stage::Mapping { root: r } && r == 0
        }
    }

    /// The search goes on behind the mapping of a root.
    pub open spec fn past_mapping(self, root: int) -> bool {
        if root + 1 < self.roots@.len() {
            self.stage matches Stage::Mapping { root: r } && r == root + 1
        } else {
            self.stage is Scan
        }
    }

    /// The search goes on behind a root whose project name may name the
    /// workspace itself, with the files found so far: with the next root, with the
    /// only file found, or with a new one.
    pub open spec fn past_own(self, root: int, found: Seq<Seq<char>>, step: Step) -> bool {
        if root + 1 < self.roots@.len() {
            &&& step.changes@.len() == 0
            &&& self.asks(step.verdict)
            &&& self.stage matches Stage::OwnName { root: r, found: f } && r == root + 1
                && text::texts(f@) == found
        } else if found.len() == 1 {
            &&& self.is_over(step, found[0])
            &&& step.changes@.len() == 1
            &&& is_naming(step.changes@[0], found[0], false)
        } else {
            &&& step.changes@.len() == 0
            &&& self.asks(step.verdict)
            &&& self.stage is ProbeNew
        }
    }

    /// The search is over with a target.
    pub open spec fn is_over(self, step: Step, file: Seq<char>) -> bool {
        self.stage is Over && (step.verdict matches Verdict::Target(f) && f@ == file)
    }

    /// The mapping of the search for a file of the given name.
    pub open spec fn is_new_mapping(self, m: WorkspaceMapping, mapped: Seq<char>) -> bool {
        &&& m.workspace_id == self.workspace_id
        &&& m.workspace_file@ == mapped
        &&& text::opt(m.zed_channel) == text::opt(self.channel)
        &&& m.last_sync_ts is None
    }

    pub open spec fn writes_mappings(self, c: Change, mapped: Seq<char>, file: Seq<char>) -> bool {
        c matches Change::WriteMappings { mapping, file: f } && f@ == file && self.is_new_mapping(
            mapping,
            mapped,
        )
    }

    /// The step after an answer about the project name of a root, which counts only
    /// where the root bears the name.
    pub open spec fn name_step(self, answer: Answer, next: Self, step: Step) -> bool {
        match (self.stage, answer) {
            (Stage::Name { root }, Answer::ProjectName(raw)) => {
                &&& step.changes@.len() == 0
                &&& next.asks(step.verdict)
                &&& if raw is Some && settings::id_of(raw->0@) is Some && settings::bears(
                    self.root_at(root as int),
                    settings::name_of(raw->0@),
                ) {
                    next.stage matches Stage::ProbeName { root: r, id, name } && r == root && Some(
                        id,
                    ) == settings::id_of(raw->0@) && name@ == settings::name_of(raw->0@)
                } else {
                    next.past_name(root as int)
                }
            },
            (Stage::ProbeName { root, id, name }, Answer::Exists(there)) => if there {
                &&& next.is_over(
                    step,
                    settings::workspace_file(self.root_at(root as int), name@),
                )
                &&& if id != self.workspace_id {
                    &&& step.changes@.len() == 2
                    &&& step.changes@[0] matches Change::WriteRootName { root: r, project_name } && r
                        == root && project_name@ == settings::project_name(
                        self.workspace_id,
                        name@,
                    )
                    &&& step.changes@[1] == (Change::RemoveMapping { root })
                } else {
                    &&& step.changes@.len() == 1
                    &&& step.changes@[0] == (Change::RemoveMapping { root })
                }
            } else {
                &&& step.changes@.len() == 0
                &&& next.asks(step.verdict)
                &&& next.past_name(root as int)
            },
            _ => false,
        }
    }

    /// The step after an answer about the mapping of a root.
    pub open spec fn mapping_step(self, answer: Answer, next: Self, step: Step) -> bool {
        match (self.stage, answer) {
            (Stage::Mapping { root }, Answer::Mapping(found)) => {
                &&& step.changes@.len() == 0
                &&& next.asks(step.verdict)
                &&& match found {
                    Some(m) => next.stage matches Stage::ProbeMapped { root: r, mapping } && r
                        == root && mapping.same(m),
                    None => next.past_mapping(root as int),
                }
            },
            (Stage::ProbeMapped { root, mapping }, Answer::Exists(there)) => if there {
                &&& next.is_over(
                    step,
                    mapping::mapped_file(self.root_at(root as int), mapping.workspace_file@),
                )
                &&& if mapping.workspace_id != self.workspace_id {
                    &&& step.changes@.len() == 1
                    &&& step.changes@[0] matches Change::WriteMapping { root: r, mapping: m } && r
                        == root && m.workspace_id == self.workspace_id && m.workspace_file@
                        == mapping.workspace_file@ && text::opt(m.zed_channel) == text::opt(
                        mapping.zed_channel,
                    ) && (m.last_sync_ts matches Some(t) && mapping::is_stamp(t@))
                } else {
                    step.changes@.len() == 0
                }
            } else {
                &&& step.changes@.len() == 0
                &&& next.asks(step.verdict)
                &&& next.past_mapping(root as int)
            },
            _ => false,
        }
    }

    /// The step after an answer about the files of the roots.
    pub open spec fn file_step(self, answer: Answer, next: Self, step: Step) -> bool {
        match (self.stage, answer) {
            (Stage::Scan, Answer::Files(files)) => {
                let all = discovery::workspace_files(text::texts(files@));
                if all.len() == 0 {
                    &&& step.changes@.len() == 0
                    &&& next.asks(step.verdict)
                    &&& next.stage matches Stage::OwnName { root, found } && root == 0
                        && found@.len() == 0
                } else if all.len() == 1 {
                    &&& next.is_over(step, all[0])
                    &&& step.changes@.len() == 2
                    &&& is_naming(step.changes@[0], all[0], false)
                    &&& self.writes_mappings(
                        step.changes@[1],
                        discovery::last_name(all[0]),
                        all[0],
                    )
                } else {
                    &&& step.changes@.len() == 0
                    &&& next.stage is Over
                    &&& step.verdict is Nothing
                }
            },
            (Stage::OwnName { root, found }, Answer::ProjectName(raw)) => if raw is Some
                && settings::id_of(raw->0@) == Some(self.workspace_id) && settings::bears(
                self.root_at(root as int),
                settings::name_of(raw->0@),
            ) {
                &&& step.changes@.len() == 0
                &&& next.asks(step.verdict)
                &&& next.stage matches Stage::ProbeOwn { root: r, found: f, path } && r == root
                    && f@ == found@ && path@ == settings::workspace_file(
                    self.root_at(root as int),
                    settings::name_of(raw->0@),
                )
            } else {
                next.past_own(root as int, text::texts(found@), step)
            },
            (Stage::ProbeOwn { root, found, path }, Answer::Exists(there)) => next.past_own(
                root as int,
                if there {
                    text::texts(found@).push(path@)
                } else {
                    text::texts(found@)
                },
                step,
            ),
            (Stage::ProbeNew, Answer::Exists(there)) => {
                let n = step.changes@.len() as int;
                &&& next.is_over(step, self.new_file())
                &&& n == (if there {
                    2int
                } else {
                    3int
                })
                &&& !there ==> (step.changes@[0] matches Change::CreateFile { path, folders }
                    && path@ == self.new_file() && workspace_file::folders_of(folders@)
                    == new_folders(self.root_at(0), text::texts(self.roots@)))
                &&& is_naming(step.changes@[n - 2], self.new_file(), true)
                &&& self.writes_mappings(
                    step.changes@[n - 1],
                    folder_name(self.root_at(0)) + settings::suffix(),
                    self.new_file(),
                )
            },
            _ => false,
        }
    }

    /// The answer is one that the search waits for.
    pub open spec fn awaits(self, answer: Answer) -> bool {
        match self.stage {
            Stage::Name { .. } => answer is ProjectName,
            Stage::ProbeName { .. } => answer is Exists,
            Stage::Mapping { .. } => answer is Mapping,
            Stage::ProbeMapped { .. } => answer is Exists,
            Stage::Scan => answer is Files,
            Stage::OwnName { .. } => answer is ProjectName,
            Stage::ProbeOwn { .. } => answer is Exists,
            Stage::ProbeNew => answer is Exists,
            Stage::Over => false,
        }
    }

    /// The step of the search after an answer. An answer that it does not wait
    /// for is passed over, and the question put again.
    pub open spec fn steps_to(self, answer: Answer, next: Self, step: Step) -> bool {
        &&& next.wf()
        &&& next.same_search(self)
        &&& if self.awaits(answer) {
            ||| self.name_step(answer, next, step)
            ||| self.mapping_step(answer, next, step)
            ||| self.file_step(answer, next, step)
        } else {
            step.changes@.len() == 0 && next.stage == self.stage && next.asks(step.verdict)
        }
    }

    /// How many answers the search can still take.
    pub open spec fn left(self) -> int {
        let n = self.roots@.len() as int;
        match self.stage {
            Stage::Name { root } => 4 * n + 4 + 2 * (n - root),
            Stage::ProbeName { root, .. } => 4 * n + 3 + 2 * (n - root),
            Stage::Mapping { root } => 2 * n + 4 + 2 * (n - root),
            Stage::ProbeMapped { root, .. } => 2 * n + 3 + 2 * (n - root),
            Stage::Scan => 2 * n + 3,
            Stage::OwnName { root, .. } => 2 + 2 * (n - root),
            Stage::ProbeOwn { root, .. } => 1 + 2 * (n - root),
            Stage::ProbeNew => 1,
            Stage::Over => 0,
        }
    }
}

/// The search ends: with every answer that it waits for, fewer are left to take.
pub proof fn lemma_target_search_ends(
    d: TargetSearch,
    answer: Answer,
    next: TargetSearch,
    step: Step,
)
    requires
        d.wf(),
        d.awaits(answer),
        d.steps_to(answer, next, step),
    ensures
        0 <= next.left() < d.left(),
        next.stage is Over <==> !(step.verdict is Ask),
        step.verdict is Nothing ==> d.stage is Scan && step.changes@.len() == 0,
{
}

/// The search renews the project name of a root only where the root bears the name,
/// and keeps the name.
pub proof fn lemma_renewed_name_is_borne(
    d: TargetSearch,
    answer: Answer,
    next: TargetSearch,
    step: Step,
    k: int,
    root: usize,
    project_name: String,
)
    requires
        d.wf(),
        d.awaits(answer),
        d.steps_to(answer, next, step),
        0 <= k < step.changes@.len(),
        step.changes@[k] == (Change::WriteRootName { root, project_name }),
    ensures
        exists|name: Seq<char>|
            #[trigger] settings::bears(d.root_at(root as int), name) && project_name@
                == settings::project_name(d.workspace_id, name),
{
    let name = d.stage->ProbeName_name@;
    assert(settings::bears(d.root_at(root as int), name));
}

/// With several workspace files in the roots, and no project name or mapping that
/// led to one, no file is kept in step: nothing is changed, and none of the files is
/// taken.
pub proof fn lemma_several_targets(
    d: TargetSearch,
    files: Vec<String>,
    next: TargetSearch,
    step: Step,
)
    requires
        d.wf(),
        d.stage is Scan,
        d.steps_to(Answer::Files(files), next, step),
        discovery::workspace_files(text::texts(files@)).len() > 1,
    ensures
        step.changes@.len() == 0,
        step.verdict is Nothing,
        next.stage is Over,
{
}

/// The new workspace file of an absolute directory stands for absolute roots.
pub proof fn lemma_new_path(base: Seq<char>, root: Seq<char>)
    requires
        components::absolute(base),
        components::absolute(root),
    ensures
        workspace_file::target(base, workspace_file::unnamed(new_path(base, root)))
            == paths::normal(root),
{
    let b = components::components(base);
    let c = components::components(root);
    if components::same_path(root, base) {
        let here = components::dot();
        assert(here[0] == '.');
        components::lemma_components_of_join(base, here);
        assert(!here.contains('/'));
        text::lemma_split_on_single(here, '/');
        components::lemma_body_of_void(here);
        assert(b + Seq::<Part>::empty() == b);
    } else if is_below(root, base) {
        let rest = c.skip(b.len() as int);
        assert(b[0] is Root && c[0] is Root);
        components::lemma_components_proper(root);
        assert(components::plain(rest)) by {
            assert forall|i: int| 0 <= i < rest.len() implies match #[trigger] rest[i] {
                Part::Root => false,
                Part::Cur => false,
                Part::Parent => true,
                Part::Normal(n) => components::is_name(n),
            } by {
                assert(rest[i] == c.skip(1)[b.len() + i - 1]);
            }
        }
        let t = components::render(rest);
        components::lemma_components_of_render(rest);
        if components::lead(t).len() > 0 {
            assert(rest[0] == components::lead(t)[0]);
        }
        assert(components::lead(t) == Seq::<Part>::empty());
        assert(components::body(text::split_on(t, '/')) == rest);
        components::lemma_components_of_join(base, t);
        assert(b + rest == c);
    }
}

fn folder_name_of(root: &str) -> (r: String)
    ensures
        r@ == folder_name(root@),
{
    match components::file_name_of(root) {
        Some(n) => n,
        None => "workspace".to_string(),
    }
}

/// The path written for a root in the new workspace file of the directory `base`.
pub fn new_folder_path(base: &str, root: &str) -> (r: String)
    ensures
        r@ == new_path(base@, root@),
{
    if components::is_same_path(root, base) {
        proof {
            reveal_strlit(".");
            assert("."@ == components::dot());
        }
        return ".".to_string();
    }
    match components::strip_prefix(root, base) {
        Some(rest) => rest,
        None => root.to_string(),
    }
}

fn new_file_folders(base: &str, roots: &[String]) -> (r: Vec<WorkspaceFolder>)
    ensures
        workspace_file::folders_of(r@) == new_folders(base@, text::texts(roots@)),
{
    let ghost want = new_folders(base@, text::texts(roots@));
    let mut r: Vec<WorkspaceFolder> = Vec::new();
    let mut i: usize = 0;
    while i < roots.len()
        invariant
            i <= roots.len(),
            want == new_folders(base@, text::texts(roots@)),
            workspace_file::folders_of(r@) == want.take(i as int),
        decreases roots.len() - i,
    {
        let ghost before = workspace_file::folders_of(r@);
        let f = WorkspaceFolder { path: new_folder_path(base, roots[i].as_str()), name: None };
        r.push(f);
        i = i + 1;
        assert(workspace_file::folders_of(r@) == before.push(f@));
        assert(workspace_file::folders_of(r@) == want.take(i as int));
    }
    assert(want.take(want.len() as int) == want);
    r
}

impl TargetSearch {
    /// Starts a search, with its first question; nothing is searched without roots.
    pub fn start(workspace_id: i64, roots: Vec<String>, channel: Option<String>) -> (r: Option<
        (TargetSearch, Step),
    >)
        ensures
            match r {
                Some((d, step)) => {
                    &&& d.wf()
                    &&& d.workspace_id == workspace_id
                    &&& d.roots == roots
                    &&& d.channel == channel
                    &&& d.stage == (Stage::Name { root: 0 })
                    &&& step.changes@.len() == 0
                    &&& d.asks(step.verdict)
                },
                None => roots@.len() == 0,
            },
    {
        if roots.len() == 0 {
            return None;
        }
        let d = TargetSearch { workspace_id, roots, channel, stage: Stage::Name { root: 0 } };
        let verdict = d.question();
        Some((d, Step { changes: Vec::new(), verdict }))
    }

    /// What the search waits for.
    fn question(&self) -> (v: Verdict)
        requires
            self.wf(),
        ensures
            self.asks(v),
    {
        match &self.stage {
            Stage::Name { root } => Verdict::Ask(Question::ProjectName { root: *root }),
            Stage::ProbeName { root, name, .. } => {
                let path = settings::workspace_file_for_name(
                    self.roots[*root].as_str(),
                    name.as_str(),
                );
                Verdict::Ask(Question::Exists { path })
            },
            Stage::Mapping { root } => Verdict::Ask(Question::Mapping { root: *root }),
            Stage::ProbeMapped { root, mapping } => {
                let path = mapping.resolve_workspace_file(self.roots[*root].as_str());
                Verdict::Ask(Question::Exists { path })
            },
            Stage::Scan => Verdict::Ask(Question::Files),
            Stage::OwnName { root, .. } => Verdict::Ask(Question::ProjectName { root: *root }),
            Stage::ProbeOwn { path, .. } => Verdict::Ask(Question::Exists { path: path.clone() }),
            Stage::ProbeNew => Verdict::Ask(Question::Exists { path: self.new_file_path() }),
            Stage::Over => Verdict::Nothing,
        }
    }

    fn new_file_path(&self) -> (r: String)
        requires
            self.wf(),
        ensures
            r@ == self.new_file(),
    {
        let name = folder_name_of(self.roots[0].as_str());
        settings::workspace_file_for_name(self.roots[0].as_str(), name.as_str())
    }

    fn move_to(&mut self, stage: Stage) -> (step: Step)
        requires
            ({
                let next = TargetSearch { stage, ..*old(self) };
                next.wf()
            }),
        ensures
            final(self).wf(),
            final(self).same_search(*old(self)),
            final(self).stage == stage,
            step.changes@.len() == 0,
            final(self).asks(step.verdict),
    {
        self.stage = stage;
        let verdict = self.question();
        Step { changes: Vec::new(), verdict }
    }

    fn pass_name(&mut self, root: usize) -> (step: Step)
        requires
            old(self).wf(),
            root < old(self).roots@.len(),
        ensures
            final(self).wf(),
            final(self).same_search(*old(self)),
            final(self).past_name(root as int),
            step.changes@.len() == 0,
            final(self).asks(step.verdict),
    {
        let n: usize = self.roots.len();
        if root + 1 < n {
            self.move_to(Stage::Name { root: root + 1 })
        } else {
            self.move_to(Stage::Mapping { root: 0 })
        }
    }

    fn pass_mapping(&mut self, root: usize) -> (step: Step)
        requires
            old(self).wf(),
            root < old(self).roots@.len(),
        ensures
            final(self).wf(),
            final(self).same_search(*old(self)),
            final(self).past_mapping(root as int),
            step.changes@.len() == 0,
            final(self).asks(step.verdict),
    {
        let n: usize = self.roots.len();
        if root + 1 < n {
            self.move_to(Stage::Mapping { root: root + 1 })
        } else {
            self.move_to(Stage::Scan)
        }
    }

    fn pass_own(&mut self, root: usize, found: Vec<String>) -> (step: Step)
        requires
            old(self).wf(),
            root < old(self).roots@.len(),
        ensures
            final(self).wf(),
            final(self).same_search(*old(self)),
            final(self).past_own(root as int, text::texts(found@), step),
    {
        let n: usize = self.roots.len();
        assert(text::texts(found@).len() == found@.len());
        if root + 1 < n {
            self.move_to(Stage::OwnName { root: root + 1, found })
        } else if found.len() == 1 {
            assert(text::texts(found@)[0] == found@[0]@);
            let mut changes: Vec<Change> = Vec::new();
            changes.push(Change::NameRoots { file: found[0].clone(), required: false });
            self.over(changes, found[0].clone())
        } else {
            self.move_to(Stage::ProbeNew)
        }
    }

    /// Ends the search with a target.
    fn over(&mut self, changes: Vec<Change>, file: String) -> (step: Step)
        requires
            old(self).wf(),
        ensures
            final(self).wf(),
            final(self).same_search(*old(self)),
            final(self).is_over(step, file@),
            step.changes == changes,
    {
        self.stage = Stage::Over;
        Step { changes, verdict: Verdict::Target(file) }
    }

    /// Takes an answer, and gives the next step.
    #[verifier::rlimit(30)]
    pub fn next(&mut self, answer: Answer) -> (step: Step)
        requires
            old(self).wf(),
        ensures
            old(self).steps_to(answer, *final(self), step),
    {
        let mut stage = Stage::Over;
        std::mem::swap(&mut stage, &mut self.stage);
        match (stage, answer) {
            (Stage::Name { root }, Answer::ProjectName(raw)) => {
                if let Some(raw) = raw {
                    let (id, name) = settings::parse_project_name(raw.as_str());
                    if let Some(id) = id {
                        if settings::bears_name(self.roots[root].as_str(), name.as_str()) {
                            return self.move_to(Stage::ProbeName { root, id, name });
                        }
                    }
                }
                self.pass_name(root)
            },
            (Stage::ProbeName { root, id, name }, Answer::Exists(there)) => {
                if !there {
                    return self.pass_name(root);
                }
                let mut changes: Vec<Change> = Vec::new();
                if id != self.workspace_id {
                    changes.push(
                        Change::WriteRootName {
                            root,
                            project_name: settings::format_project_name(
                                self.workspace_id,
                                name.as_str(),
                            ),
                        },
                    );
                }
                changes.push(Change::RemoveMapping { root });
                let file = settings::workspace_file_for_name(
                    self.roots[root].as_str(),
                    name.as_str(),
                );
                self.over(changes, file)
            },
            (Stage::Mapping { root }, Answer::Mapping(found)) => match found {
                Some(mapping) => self.move_to(Stage::ProbeMapped { root, mapping }),
                None => self.pass_mapping(root),
            },
            (Stage::ProbeMapped { root, mapping }, Answer::Exists(there)) => {
                if !there {
                    return self.pass_mapping(root);
                }
                let mut changes: Vec<Change> = Vec::new();
                if mapping.workspace_id != self.workspace_id {
                    let mut updated = mapping.with_id(self.workspace_id);
                    updated.touch_sync_ts();
                    changes.push(Change::WriteMapping { root, mapping: updated });
                }
                let file = mapping.resolve_workspace_file(self.roots[root].as_str());
                self.over(changes, file)
            },
            (Stage::Scan, Answer::Files(files)) => {
                let found = discovery::find_workspace_files_in_roots(files.as_slice());
                assert(text::texts(found@).len() == found@.len());
                if found.len() == 0 {
                    let none: Vec<String> = Vec::new();
                    return self.move_to(Stage::OwnName { root: 0, found: none });
                }
                if found.len() > 1 {
                    return self.move_to(Stage::Over);
                }
                assert(text::texts(found@)[0] == found@[0]@);
                let file = found[0].clone();
                let mapping = WorkspaceMapping::new(
                    self.workspace_id,
                    discovery::last_name_of(file.as_str()).as_str(),
                    text::borrow_opt(&self.channel),
                );
                let mut changes: Vec<Change> = Vec::new();
                changes.push(Change::NameRoots { file: file.clone(), required: false });
                changes.push(Change::WriteMappings { mapping, file: file.clone() });
                self.over(changes, file)
            },
            (Stage::OwnName { root, found }, Answer::ProjectName(raw)) => {
                if let Some(raw) = raw {
                    let (id, name) = settings::parse_project_name(raw.as_str());
                    if let Some(id) = id {
                        if id == self.workspace_id && settings::bears_name(
                            self.roots[root].as_str(),
                            name.as_str(),
                        ) {
                            let path = settings::workspace_file_for_name(
                                self.roots[root].as_str(),
                                name.as_str(),
                            );
                            return self.move_to(Stage::ProbeOwn { root, found, path });
                        }
                    }
                }
                self.pass_own(root, found)
            },
            (Stage::ProbeOwn { root, found, path }, Answer::Exists(there)) => {
                let mut found = found;
                if there {
                    let ghost before = text::texts(found@);
                    let ghost p = path@;
                    found.push(path);
                    assert(text::texts(found@) == before.push(p));
                }
                self.pass_own(root, found)
            },
            (Stage::ProbeNew, Answer::Exists(there)) => {
                let file = self.new_file_path();
                let mut changes: Vec<Change> = Vec::new();
                if !there {
                    let folders = new_file_folders(self.roots[0].as_str(), self.roots.as_slice());
                    changes.push(Change::CreateFile { path: file.clone(), folders });
                }
                changes.push(Change::NameRoots { file: file.clone(), required: true });
                let name = folder_name_of(self.roots[0].as_str());
                let mapped = text::concat(name.as_str(), ".code-workspace");
                let mapping = WorkspaceMapping::new(
                    self.workspace_id,
                    mapped.as_str(),
                    text::borrow_opt(&self.channel),
                );
                changes.push(Change::WriteMappings { mapping, file: file.clone() });
                self.over(changes, file)
            },
            (stage, _) => self.move_to(stage),
        }
    }
}

/// Starts the search for the workspace that Zed wrote last, where the database
/// has one with roots.
pub fn discover_workspace_target(
    latest: Option<(i64, Vec<String>)>,
    channel: Option<String>,
) -> (r: Option<(TargetSearch, Step)>)
    ensures
        r is Some <==> latest is Some && (latest->0).1@.len() > 0,
        r matches Some((d, step)) ==> {
            &&& d.wf()
            &&& d.workspace_id == (latest->0).0
            &&& d.roots == (latest->0).1
            &&& d.channel == channel
            &&& d.stage == (Stage::Name { root: 0 })
            &&& step.changes@.len() == 0
            &&& d.asks(step.verdict)
        },
{
    match latest {
        Some((workspace_id, roots)) => TargetSearch::start(workspace_id, roots, channel),
        None => None,
    }
}

/// Starts the search for a workspace of a given number, where the database knows it.
pub fn discover_for_workspace_id(record: Option<&WorkspaceRecord>, channel: Option<String>) -> (r:
    Option<(TargetSearch, Step)>)
    ensures
        r is Some <==> record is Some && record->0.paths@.len() > 0,
        r matches Some((d, step)) ==> {
            &&& d.wf()
            &&& d.workspace_id == record->0.workspace_id
            &&& d.roots@ == record->0.paths@
            &&& d.channel == channel
            &&& d.stage == (Stage::Name { root: 0 })
            &&& step.changes@.len() == 0
            &&& d.asks(step.verdict)
        },
{
    match record {
        Some(rec) => TargetSearch::start(
            rec.workspace_id,
            paths::copy_texts(rec.paths.as_slice()),
            channel,
        ),
        None => None,
    }
}

/// Where the project name of a workspace file is written.
#[derive(Debug)]
pub struct SettingsWrite {
    pub project_name: String,
    /// The root whose settings get it.
    pub root: usize,
    /// Whether the other roots lose theirs, see `settings::cleanup_stale_project_names`.
    pub clean: bool,
}

/// Decides where the project name of a workspace file is written: into the
/// settings of the primary root, and the others lose theirs; where no root is
/// named like the project, into those of the first root.
///
/// `holds_workspace_file` is as for `settings::find_primary_root`, for the
/// project name that this function gives.
pub fn write_zed_settings_for_roots(
    workspace_id: i64,
    ws_file: &str,
    folder_roots: &[String],
    holds_workspace_file: &[bool],
) -> (r: Option<SettingsWrite>)
    ensures
        ({
            let pn = settings::project_name(workspace_id, discovery::name_for_file(ws_file@));
            match settings::primary_root(
                text::texts(folder_roots@),
                settings::name_of(pn),
                holds_workspace_file@,
            ) {
                Some(i) => r matches Some(w) && w.project_name@ == pn && w.root == i && w.clean,
                None => if folder_roots@.len() > 0 {
                    r matches Some(w) && w.project_name@ == pn && w.root == 0 && !w.clean
                } else {
                    r is None
                },
            }
        }),
{
    let project_name = project_name_for_file(workspace_id, ws_file);
    match settings::find_primary_index(
        folder_roots,
        project_name.as_str(),
        holds_workspace_file,
    ) {
        Some(root) => Some(SettingsWrite { project_name, root, clean: true }),
        None => if folder_roots.len() > 0 {
            Some(SettingsWrite { project_name, root: 0, clean: false })
        } else {
            None
        },
    }
}

/// The project name of a workspace file.
pub fn project_name_for_file(workspace_id: i64, ws_file: &str) -> (r: String)
    ensures
        r@ == settings::project_name(workspace_id, discovery::name_for_file(ws_file@)),
{
    let name = match components::file_stem_of(ws_file) {
        Some(s) => s,
        None => "workspace".to_string(),
    };
    settings::format_project_name(workspace_id, name.as_str())
}

/// Reads a project name of the form `{workspace_id}:{filename}` from a settings
/// text, where the file is a workspace file.
pub fn read_zed_settings_project_name(content: &str) -> (r: Option<(i64, String)>)
    ensures
        ({
            let parts = match settings::project_name_in(content@) {
                Some(raw) => discovery::v1_parts(raw),
                None => None,
            };
            match parts {
                Some((id, file)) => if settings::suffix().is_suffix_of(file) {
                    r matches Some(p) && p.0 == id && p.1@ == file
                } else {
                    r is None
                },
                None => r is None,
            }
        }),
{
    match settings::read_project_name(content) {
        Some(raw) => match settings::split_project_name(raw.as_str()) {
            Some((id, file)) => if text::ends_with_text(file.as_str(), ".code-workspace") {
                Some((id, file))
            } else {
                None
            },
            None => None,
        },
        None => None,
    }
}

/// Whether the path of the running program is that of Zed's preview.
pub open spec fn is_preview(exe: Option<Seq<char>>) -> bool {
    exe is Some && text::occurs_in("Zed Preview"@, exe->0)
}

/// The places where the database of the Zed around the hook may lie, in the
/// order in which they are tried: its own channel, any other channel found.
pub fn workspace_db_candidates(db_dir: &str, exe: Option<&str>, names: &[String]) -> (r: Vec<
    String,
>)
    ensures
        text::texts(r@) == seq![
            workspace_db::db_in(
                db_dir@,
                if is_preview(text::opt_str(exe)) {
                    "0-preview"@
                } else {
                    "0-stable"@
                },
            ),
        ] + workspace_db::other_dbs(db_dir@, text::texts(names@)),
{
    let preview = match exe {
        Some(e) => text::contains_text(e, "Zed Preview"),
        None => false,
    };
    let mut r: Vec<String> = Vec::new();
    r.push(
        workspace_db::scope_db(
            db_dir,
            if preview {
                "0-preview"
            } else {
                "0-stable"
            },
        ),
    );
    proof {
        let own = workspace_db::db_in(
            db_dir@,
            if preview {
                "0-preview"@
            } else {
                "0-stable"@
            },
        );
        assert(text::texts(r@) == seq![own]);
    }
    workspace_db::push_other_dbs(&mut r, db_dir, names);
    r
}

} // verus!
