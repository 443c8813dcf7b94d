//! Finding the workspace file, and Zed's workspace, of a set of worktree roots.
//!
//! The search asks questions about files and about Zed's database, one at a
//! time, and takes the answers in turn. It goes by
//! 1. the project name in the settings of a root whose folder bears that name,
//! 2. the mapping file of a root,
//! 3. the only workspace file in the roots,
//! 4. a new workspace file in the first root, where the roots hold none.
//!
//! Of several workspace files none is taken: a project name or a mapping has to say
//! which one it is.
use vstd::prelude::*;

use crate::components;
use crate::json;
use crate::mapping;
use crate::mapping::WorkspaceMapping;
use crate::paths;
use crate::settings;
use crate::text;
use crate::workspace_file;
use crate::workspace_file::WorkspaceFolder;

verus! {

broadcast use vstd::string::group_string_axioms;

/// Why there is nothing to discover.
#[derive(Debug, Clone, Copy, PartialEq, Eq, Structural)]
pub enum Error {
    /// No workspace roots were given.
    NoRoots,
    /// Zed's database knows no workspace.
    NotFound,
}

/// What was discovered.
#[derive(Debug, Clone)]
pub struct DiscoveryResult {
    /// Zed's number of the workspace.
    pub workspace_id: i64,
    /// The name of the project.
    pub project_name: String,
    /// The workspace file.
    pub workspace_file: String,
    /// The mapping that was found or made.
    pub mapping: WorkspaceMapping,
    /// The database in use.
    pub db_path: String,
    /// The channel of Zed.
    pub zed_channel: Option<String>,
}

/// What the search wants to know.
#[derive(Debug)]
pub enum Question {
    /// The project name in the settings of a root.
    ProjectName { root: usize },
    /// Whether the database knows a workspace; a database that cannot be opened
    /// does not say.
    Known { workspace_id: i64 },
    /// The workspace of the roots, see `workspace_db::lookups_for_roots`.
    Workspace,
    /// Whether a file exists.
    Exists { path: String },
    /// The mapping file of a root.
    Mapping { root: usize },
    /// The files of all roots, root by root.
    Files,
}

/// An answer to a question.
#[derive(Debug)]
pub enum Answer {
    ProjectName(Option<String>),
    Known(Option<bool>),
    Workspace(Option<i64>),
    Exists(bool),
    Mapping(Option<WorkspaceMapping>),
    Files(Vec<String>),
}

/// Something to be changed before the search goes on. What is marked so may fail
/// without ending the search.
#[derive(Debug)]
pub enum Change {
    /// Write the project name into the settings of the primary root, if there is
    /// one, see `settings::find_primary_root`; may fail.
    WriteProjectName(String),
    /// Remove the mapping file of a root, if there is one; may fail.
    RemoveMapping { root: usize },
    /// Create a workspace file with the folders.
    CreateFile { path: String, folders: Vec<WorkspaceFolder> },
    /// Write the mapping of the file to all roots, see `WorkspaceMapping::write_to_roots`.
    WriteMappings { mapping: WorkspaceMapping, file: String },
}

/// How the search goes on.
#[derive(Debug)]
pub enum Verdict {
    Ask(Question),
    Found(DiscoveryResult),
    NotFound,
    /// The roots hold these workspace files, and none is taken.
    Ambiguous(Vec<String>),
}

/// One step of the search.
#[derive(Debug)]
pub struct Step {
    pub changes: Vec<Change>,
    pub verdict: Verdict,
}

/// Where the search stands: what it waits for, and what it knows.
#[derive(Debug)]
pub enum Stage {
    /// The project name of a root.
    Name { root: usize },
    /// Whether the database knows the workspace of a project name.
    CheckName { root: usize, id: i64, name: String },
    /// The workspace in place of one that the database does not know.
    RenewName { root: usize, id: i64, name: String },
    /// Whether the workspace file of a project name exists.
    ProbeName { root: usize, id: i64, valid: i64, name: String },
    /// The mapping of a root.
    Mapping { root: usize },
    /// Whether the workspace file of a mapping exists.
    ProbeMapped { root: usize, mapping: WorkspaceMapping },
    /// Whether the database knows the workspace of a mapping.
    CheckMapped { root: usize, mapping: WorkspaceMapping },
    /// The workspace in place of one that the database does not know.
    RenewMapped { root: usize, mapping: WorkspaceMapping },
    /// The files of the roots.
    Scan,
    /// The workspace for the only workspace file.
    RenewScanned { file: String },
    /// The workspace for the new workspace file.
    RenewCreated,
    /// Nothing: the search is over.
    Over,
}

/// A search for the workspace file of a set of roots.
#[derive(Debug)]
pub struct Discovery {
    pub roots: Vec<String>,
    pub db_path: String,
    pub zed_channel: Option<String>,
    pub stage: Stage,
}

/// The channel of a search: the one asked for, else that of the database.
pub open spec fn channel_used(hint: Option<Seq<char>>, db_path: Seq<char>) -> Option<Seq<char>> {
    match hint {
        Some(c) => Some(c),
        None => mapping::channel_of_db(db_path),
    }
}

/// The project name that goes with a workspace file.
pub open spec fn name_for_file(file: Seq<char>) -> Seq<char> {
    match components::file_stem(file) {
        Some(s) => s,
        None => "workspace"@,
    }
}

/// The last name of a path; empty where it has none.
pub open spec fn last_name(path: Seq<char>) -> Seq<char> {
    match components::file_name(path) {
        Some(n) => n,
        None => Seq::<char>::empty(),
    }
}

/// The workspace files among the given files.
pub open spec fn workspace_files(files: Seq<Seq<char>>) -> Seq<Seq<char>>
    decreases files.len(),
{
    if files.len() == 0 {
        Seq::<Seq<char>>::empty()
    } else {
        let before = workspace_files(files.drop_last());
        if components::file_extension(files.last()) == Some("code-workspace"@) {
            before.push(files.last())
        } else {
            before
        }
    }
}

impl Discovery {
    /// There is such a root, and its folder bears the name.
    pub open spec fn named_after(self, root: usize, name: String) -> bool {
        root < self.roots@.len() && settings::bears(self.roots@[root as int]@, name@)
    }

    /// There are roots, and the search stands at one of them; at one that bears the
    /// name where it goes by a project name.
    pub open spec fn wf(self) -> bool {
        &&& self.roots@.len() > 0
        &&& match self.stage {
            Stage::Name { root } => root < self.roots@.len(),
            Stage::CheckName { root, name, .. } => self.named_after(root, name),
            Stage::RenewName { root, name, .. } => self.named_after(root, name),
            Stage::ProbeName { root, name, .. } => self.named_after(root, name),
            Stage::Mapping { root } => root < self.roots@.len(),
            Stage::ProbeMapped { root, .. } => root < self.roots@.len(),
            Stage::CheckMapped { root, .. } => root < self.roots@.len(),
            Stage::RenewMapped { root, .. } => root < self.roots@.len(),
            _ => true,
        }
    }

    pub open spec fn root_at(self, i: int) -> Seq<char> {
        self.roots@[i]@
    }

    /// The search is about the same roots and the same Zed.
    pub open spec fn same_search(self, other: Self) -> bool {
        self.roots == other.roots && self.db_path == other.db_path && self.zed_channel
            == other.zed_channel
    }

    /// The verdict asks what the search waits for.
    pub open spec fn asks(self, v: Verdict) -> bool {
        match self.stage {
            Stage::Name { root } => v matches Verdict::Ask(Question::ProjectName { root: r }) && r
                == root,
            Stage::CheckName { id, .. } => v matches Verdict::Ask(Question::Known { workspace_id })
                && workspace_id == id,
            Stage::RenewName { .. } => v matches Verdict::Ask(Question::Workspace),
            Stage::ProbeName { root, name, .. } => v matches Verdict::Ask(
                Question::Exists { path },
            ) && path@ == settings::workspace_file(self.root_at(root as int), name@),
            Stage::Mapping { root } => v matches Verdict::Ask(Question::Mapping { root: r }) && r
                == root,
            Stage::ProbeMapped { root, mapping } => v matches Verdict::Ask(
                Question::Exists { path },
            ) && path@ == mapping::mapped_file(
                self.root_at(root as int),
                mapping.workspace_file@,
            ),
            Stage::CheckMapped { mapping, .. } => v matches Verdict::Ask(
                Question::Known { workspace_id },
            ) && workspace_id == mapping.workspace_id,
            Stage::RenewMapped { .. } => v matches Verdict::Ask(Question::Workspace),
            Stage::Scan => v matches Verdict::Ask(Question::Files),
            Stage::RenewScanned { .. } => v matches Verdict::Ask(Question::Workspace),
            Stage::RenewCreated => v matches Verdict::Ask(Question::Workspace),
            Stage::Over => v is NotFound,
        }
    }

    /// The search goes on behind the project name of a root: with the next root,
    /// or with the mappings.
    pub open spec fn past_name(self, root: int) -> bool {
        if root + 1 < self.roots@.len() {
            self.stage matches Stage::Name { root: r } && r == root + 1
        } else {
            self.stage matches Stage::Mapping { root: r } && r == 0
        }
    }

    /// The search goes on behind the mapping of a root: with the next root, or
    /// with the files.
    pub open spec fn past_mapping(self, root: int) -> bool {
        if root + 1 < self.roots@.len() {
            self.stage matches Stage::Mapping { root: r } && r == root + 1
        } else {
            self.stage is Scan
        }
    }

    /// The search is over with the given findings.
    pub open spec fn found(
        self,
        v: Verdict,
        id: i64,
        name: Seq<char>,
        file: Seq<char>,
        mapped: Seq<char>,
        channel: Option<Seq<char>>,
        ts: Option<Seq<char>>,
    ) -> bool {
        &&& self.stage is Over
        &&& v matches Verdict::Found(r) && {
            &&& r.workspace_id == id
            &&& r.project_name@ == name
            &&& r.workspace_file@ == file
            &&& r.mapping.workspace_id == id
            &&& r.mapping.workspace_file@ == mapped
            &&& text::opt(r.mapping.zed_channel) == channel
            &&& text::opt(r.mapping.last_sync_ts) == ts
            &&& r.db_path@ == self.db_path@
            &&& text::opt(r.zed_channel) == text::opt(self.zed_channel)
        }
    }

    /// Findings whose mapping is new.
    pub open spec fn found_new(
        self,
        v: Verdict,
        id: i64,
        name: Seq<char>,
        file: Seq<char>,
        mapped: Seq<char>,
    ) -> bool {
        self.found(v, id, name, file, mapped, text::opt(self.zed_channel), None)
    }

    /// The step after an answer about the project name of a root, which counts only
    /// where the root bears the name.
    pub open spec fn name_step(self, answer: Answer, next: Self, step: Step) -> bool {
        match (self.stage, answer) {
            (Stage::Name { root }, Answer::ProjectName(raw)) => {
                &&& step.changes@.len() == 0
                &&& next.asks(step.verdict)
                &&& if raw is Some && settings::id_of(raw->0@) is Some && settings::bears(
                    self.root_at(root as int),
                    settings::name_of(raw->0@),
                ) {
                    next.stage matches Stage::CheckName { root: r, id, name } && r == root && Some(
                        id,
                    ) == settings::id_of(raw->0@) && name@ == settings::name_of(raw->0@)
                } else {
                    next.past_name(root as int)
                }
            },
            (Stage::CheckName { root, id, name }, Answer::Known(known)) => {
                &&& step.changes@.len() == 0
                &&& next.asks(step.verdict)
                &&& if known == Some(false) {
                    next.stage matches Stage::RenewName { root: r, id: i, name: n } && r == root
                        && i == id && n@ == name@
                } else {
                    next.stage matches Stage::ProbeName { root: r, id: i, valid, name: n } && r
                        == root && i == id && valid == id && n@ == name@
                }
            },
            (Stage::RenewName { root, id, name }, Answer::Workspace(w)) => {
                &&& step.changes@.len() == 0
                &&& next.asks(step.verdict)
                &&& match w {
                    Some(v) => next.stage matches Stage::ProbeName { root: r, id: i, valid, name: n }
                        && r == root && i == id && valid == v && n@ == name@,
                    None => next.stage is Over,
                }
            },
            (Stage::ProbeName { root, id, valid, name }, Answer::Exists(there)) => {
                &&& is_renaming(step.changes@, id, valid, name@, root)
                &&& if there {
                    next.found_new(
                        step.verdict,
                        valid,
                        name@,
                        settings::workspace_file(self.root_at(root as int), name@),
                        name@ + settings::suffix(),
                    )
                } else {
                    next.past_name(root as int) && next.asks(step.verdict)
                }
            },
            _ => false,
        }
    }

    /// The findings by a mapping, and what is changed with them.
    pub open spec fn mapped_found(
        self,
        root: int,
        m: WorkspaceMapping,
        id: i64,
        step: Step,
    ) -> bool {
        let file = mapping::mapped_file(self.root_at(root), m.workspace_file@);
        &&& self.found(
            step.verdict,
            id,
            name_for_file(file),
            file,
            m.workspace_file@,
            text::opt(m.zed_channel),
            text::opt(m.last_sync_ts),
        )
        &&& step.changes@.len() == 2
        &&& is_naming(step.changes@[0], id, name_for_file(file))
        &&& step.changes@[1] == (Change::RemoveMapping { root: root as usize })
    }

    /// The step after an answer about the mapping of a root.
    pub open spec fn mapping_step(self, answer: Answer, next: Self, step: Step) -> bool {
        match (self.stage, answer) {
            (Stage::Mapping { root }, Answer::Mapping(found)) => {
                &&& step.changes@.len() == 0
                &&& next.asks(step.verdict)
                &&& match found {
                    Some(m) => next.stage matches Stage::ProbeMapped { root: r, mapping } && r
                        == root && mapping.same(m),
                    None => next.past_mapping(root as int),
                }
            },
            (Stage::ProbeMapped { root, mapping }, Answer::Exists(there)) => {
                &&& step.changes@.len() == 0
                &&& next.asks(step.verdict)
                &&& if there {
                    next.stage matches Stage::CheckMapped { root: r, mapping: m } && r == root
                        && m.same(mapping)
                } else {
                    next.past_mapping(root as int)
                }
            },
            (Stage::CheckMapped { root, mapping }, Answer::Known(known)) => {
                if known == Some(false) {
                    &&& step.changes@.len() == 0
                    &&& next.asks(step.verdict)
                    &&& next.stage matches Stage::RenewMapped { root: r, mapping: m } && r == root
                        && m.same(mapping)
                } else {
                    next.mapped_found(root as int, mapping, mapping.workspace_id, step)
                }
            },
            (Stage::RenewMapped { root, mapping }, Answer::Workspace(w)) => match w {
                Some(id) => next.mapped_found(root as int, mapping, id, step),
                None => step.changes@.len() == 0 && next.stage is Over && step.verdict is NotFound,
            },
            _ => false,
        }
    }

    /// The new workspace file of the search.
    pub open spec fn new_file(self) -> Seq<char> {
        settings::workspace_file(self.root_at(0), last_name(self.root_at(0)))
    }

    /// Findings with a workspace file whose mapping goes to all roots.
    pub open spec fn file_found(
        self,
        id: i64,
        name: Seq<char>,
        file: Seq<char>,
        mapped: Seq<char>,
        step: Step,
    ) -> bool {
        &&& self.found_new(step.verdict, id, name, file, mapped)
        &&& step.changes@.len() == 2
        &&& is_naming(step.changes@[0], id, name)
        &&& step.changes@[1] matches Change::WriteMappings { mapping, file: f } && f@ == file
            && mapping.same(step.verdict->Found_0.mapping)
    }

    /// The step after an answer about the files of the roots.
    pub open spec fn file_step(self, answer: Answer, next: Self, step: Step) -> bool {
        match (self.stage, answer) {
            (Stage::Scan, Answer::Files(files)) => {
                let all = workspace_files(text::texts(files@));
                if all.len() == 1 {
                    &&& step.changes@.len() == 0
                    &&& next.asks(step.verdict)
                    &&& next.stage matches Stage::RenewScanned { file } && file@ == all[0]
                } else if all.len() > 1 {
                    &&& step.changes@.len() == 0
                    &&& next.stage is Over
                    &&& step.verdict matches Verdict::Ambiguous(found) && text::texts(found@) == all
                } else {
                    &&& next.asks(step.verdict)
                    &&& next.stage is RenewCreated
                    &&& step.changes@.len() == 1
                    &&& step.changes@[0] matches Change::CreateFile { path, folders } && path@
                        == self.new_file() && workspace_file::folders_of(folders@)
                        == workspace_file::written_folders(
                        self.root_at(0),
                        text::texts(self.roots@),
                    )
                }
            },
            (Stage::RenewScanned { file }, Answer::Workspace(w)) => match w {
                Some(id) => next.file_found(
                    id,
                    name_for_file(file@),
                    file@,
                    last_name(file@),
                    step,
                ),
                None => step.changes@.len() == 0 && next.stage is Over && step.verdict is NotFound,
            },
            (Stage::RenewCreated, Answer::Workspace(w)) => match w {
                Some(id) => next.file_found(
                    id,
                    last_name(self.root_at(0)),
                    self.new_file(),
                    last_name(self.root_at(0)) + settings::suffix(),
                    step,
                ),
                None => step.changes@.len() == 0 && next.stage is Over && step.verdict is NotFound,
            },
            _ => false,
        }
    }

    /// The answer is one that the search waits for.
    pub open spec fn awaits(self, answer: Answer) -> bool {
        match self.stage {
            Stage::Name { .. } => answer is ProjectName,
            Stage::CheckName { .. } => answer is Known,
            Stage::RenewName { .. } => answer is Workspace,
            Stage::ProbeName { .. } => answer is Exists,
            Stage::Mapping { .. } => answer is Mapping,
            Stage::ProbeMapped { .. } => answer is Exists,
            Stage::CheckMapped { .. } => answer is Known,
            Stage::RenewMapped { .. } => answer is Workspace,
            Stage::Scan => answer is Files,
            Stage::RenewScanned { .. } => answer is Workspace,
            Stage::RenewCreated => answer is Workspace,
            Stage::Over => false,
        }
    }

    /// The step of the search after an answer. An answer that it does not wait
    /// for is passed over, and the question put again.
    pub open spec fn steps_to(self, answer: Answer, next: Self, step: Step) -> bool {
        &&& next.wf()
        &&& next.same_search(self)
        &&& if self.awaits(answer) {
            ||| self.name_step(answer, next, step)
            ||| self.mapping_step(answer, next, step)
            ||| self.file_step(answer, next, step)
        } else {
            step.changes@.len() == 0 && next.stage == self.stage && next.asks(step.verdict)
        }
    }
}

/// The change writes the project name of a workspace.
pub open spec fn is_naming(c: Change, id: i64, name: Seq<char>) -> bool {
    c matches Change::WriteProjectName(pn) && pn@ == settings::project_name(id, name)
}

/// The changes of a search that goes by a project name: its new text where the
/// workspace changed, and the removal of the root's mapping.
pub open spec fn is_renaming(
    changes: Seq<Change>,
    id: i64,
    valid: i64,
    name: Seq<char>,
    root: usize,
) -> bool {
    if valid != id {
        changes.len() == 2 && is_naming(changes[0], valid, name) && changes[1]
            == (Change::RemoveMapping { root })
    } else {
        changes.len() == 1 && changes[0] == (Change::RemoveMapping { root })
    }
}

fn file_stem_or_default(file: &str) -> (r: String)
    ensures
        r@ == name_for_file(file@),
{
    match components::file_stem_of(file) {
        Some(s) => s,
        None => "workspace".to_string(),
    }
}

/// The last name of a path; empty where it has none.
pub fn last_name_of(path: &str) -> (r: String)
    ensures
        r@ == last_name(path@),
{
    match components::file_name_of(path) {
        Some(n) => n,
        None => {
            let none = String::new();
            assert(none@ == Seq::<char>::empty());
            none
        },
    }
}

/// Picks the workspace files among the files of the roots.
pub fn find_workspace_files_in_roots(files: &[String]) -> (r: Vec<String>)
    ensures
        text::texts(r@) == workspace_files(text::texts(files@)),
{
    let ghost all = text::texts(files@);
    let mut r: Vec<String> = Vec::new();
    let mut i: usize = 0;
    assert(all.take(0) == Seq::<Seq<char>>::empty());
    assert(text::texts(r@) == Seq::<Seq<char>>::empty());
    while i < files.len()
        invariant
            i <= files.len(),
            all == text::texts(files@),
            text::texts(r@) == workspace_files(all.take(i as int)),
        decreases files.len() - i,
    {
        let ghost before = text::texts(r@);
        proof {
            assert(all.take(i + 1).drop_last() == all.take(i as int));
            assert(all.take(i + 1).last() == files@[i as int]@);
        }
        if let Some(e) = components::extension_of(files[i].as_str()) {
            if text::text_eq(e.as_str(), "code-workspace") {
                let f = files[i].clone();
                r.push(f);
                assert(text::texts(r@) == before.push(f@));
            }
        }
        i = i + 1;
    }
    assert(all.take(all.len() as int) == all);
    r
}

/// The folders of a new workspace file in the directory `base`.
pub fn new_folders(base: &str, roots: &[String]) -> (r: Vec<WorkspaceFolder>)
    ensures
        workspace_file::folders_of(r@) == workspace_file::written_folders(
            base@,
            text::texts(roots@),
        ),
{
    let ghost want = workspace_file::written_folders(base@, text::texts(roots@));
    let mut r: Vec<WorkspaceFolder> = Vec::new();
    let mut i: usize = 0;
    while i < roots.len()
        invariant
            i <= roots.len(),
            want == workspace_file::written_folders(base@, text::texts(roots@)),
            workspace_file::folders_of(r@) == want.take(i as int),
        decreases roots.len() - i,
    {
        let ghost before = workspace_file::folders_of(r@);
        let f = WorkspaceFolder {
            path: paths::relative_path(base, roots[i].as_str()),
            name: None,
        };
        r.push(f);
        i = i + 1;
        assert(workspace_file::folders_of(r@) == before.push(f@));
        assert(workspace_file::folders_of(r@) == want.take(i as int));
    }
    assert(want.take(want.len() as int) == want);
    r
}

fn naming(id: i64, name: &str) -> (c: Change)
    ensures
        is_naming(c, id, name@),
{
    Change::WriteProjectName(settings::format_project_name(id, name))
}

impl Discovery {
    /// What the search waits for.
    fn question(&self) -> (v: Verdict)
        requires
            self.wf(),
        ensures
            self.asks(v),
    {
        match &self.stage {
            Stage::Name { root } => Verdict::Ask(Question::ProjectName { root: *root }),
            Stage::CheckName { id, .. } => Verdict::Ask(Question::Known { workspace_id: *id }),
            Stage::RenewName { .. } => Verdict::Ask(Question::Workspace),
            Stage::ProbeName { root, name, .. } => {
                let path = settings::workspace_file_for_name(
                    self.roots[*root].as_str(),
                    name.as_str(),
                );
                Verdict::Ask(Question::Exists { path })
            },
            Stage::Mapping { root } => Verdict::Ask(Question::Mapping { root: *root }),
            Stage::ProbeMapped { root, mapping } => {
                let path = mapping.resolve_workspace_file(self.roots[*root].as_str());
                Verdict::Ask(Question::Exists { path })
            },
            Stage::CheckMapped { mapping, .. } => Verdict::Ask(
                Question::Known { workspace_id: mapping.workspace_id },
            ),
            Stage::RenewMapped { .. } => Verdict::Ask(Question::Workspace),
            Stage::Scan => Verdict::Ask(Question::Files),
            Stage::RenewScanned { .. } => Verdict::Ask(Question::Workspace),
            Stage::RenewCreated => Verdict::Ask(Question::Workspace),
            Stage::Over => Verdict::NotFound,
        }
    }

    fn move_to(&mut self, stage: Stage) -> (step: Step)
        requires
            ({
                let next = Discovery { stage, ..*old(self) };
                next.wf()
            }),
        ensures
            final(self).wf(),
            final(self).same_search(*old(self)),
            final(self).stage == stage,
            step.changes@.len() == 0,
            final(self).asks(step.verdict),
    {
        self.stage = stage;
        let verdict = self.question();
        Step { changes: Vec::new(), verdict }
    }

    fn pass_name(&mut self, root: usize) -> (step: Step)
        requires
            old(self).wf(),
            root < old(self).roots@.len(),
        ensures
            final(self).wf(),
            final(self).same_search(*old(self)),
            final(self).past_name(root as int),
            step.changes@.len() == 0,
            final(self).asks(step.verdict),
    {
        let n: usize = self.roots.len();
        if root + 1 < n {
            self.move_to(Stage::Name { root: root + 1 })
        } else {
            self.move_to(Stage::Mapping { root: 0 })
        }
    }

    fn pass_mapping(&mut self, root: usize) -> (step: Step)
        requires
            old(self).wf(),
            root < old(self).roots@.len(),
        ensures
            final(self).wf(),
            final(self).same_search(*old(self)),
            final(self).past_mapping(root as int),
            step.changes@.len() == 0,
            final(self).asks(step.verdict),
    {
        let n: usize = self.roots.len();
        if root + 1 < n {
            self.move_to(Stage::Mapping { root: root + 1 })
        } else {
            self.move_to(Stage::Scan)
        }
    }

    /// Ends the search with findings.
    fn finish(&mut self, id: i64, name: String, file: String, mapping: WorkspaceMapping) -> (v:
        Verdict)
        requires
            old(self).wf(),
            mapping.workspace_id == id,
        ensures
            final(self).wf(),
            final(self).same_search(*old(self)),
            final(self).found(
                v,
                id,
                name@,
                file@,
                mapping.workspace_file@,
                text::opt(mapping.zed_channel),
                text::opt(mapping.last_sync_ts),
            ),
            v->Found_0.mapping == mapping,
    {
        self.stage = Stage::Over;
        Verdict::Found(
            DiscoveryResult {
                workspace_id: id,
                project_name: name,
                workspace_file: file,
                mapping,
                db_path: self.db_path.clone(),
                zed_channel: text::copy_opt(&self.zed_channel),
            },
        )
    }

    fn finish_mapped(&mut self, root: usize, mapping: &WorkspaceMapping, id: i64) -> (step: Step)
        requires
            old(self).wf(),
            root < old(self).roots@.len(),
        ensures
            final(self).wf(),
            final(self).same_search(*old(self)),
            final(self).mapped_found(root as int, *mapping, id, step),
    {
        let file = mapping.resolve_workspace_file(self.roots[root].as_str());
        let name = file_stem_or_default(file.as_str());
        let mut changes: Vec<Change> = Vec::new();
        changes.push(naming(id, name.as_str()));
        changes.push(Change::RemoveMapping { root });
        let verdict = self.finish(id, name, file, mapping.with_id(id));
        Step { changes, verdict }
    }

    fn finish_file(&mut self, id: i64, name: String, file: String, mapped: &str) -> (step: Step)
        requires
            old(self).wf(),
        ensures
            final(self).wf(),
            final(self).same_search(*old(self)),
            final(self).file_found(id, name@, file@, mapped@, step),
    {
        let mapping = WorkspaceMapping::new(id, mapped, text::borrow_opt(&self.zed_channel));
        let mut changes: Vec<Change> = Vec::new();
        changes.push(naming(id, name.as_str()));
        changes.push(Change::WriteMappings { mapping: mapping.with_id(id), file: file.clone() });
        let verdict = self.finish(id, name, file, mapping);
        Step { changes, verdict }
    }

    /// Takes an answer, and gives the next step.
    #[verifier::rlimit(30)]
    pub fn next(&mut self, answer: Answer) -> (step: Step)
        requires
            old(self).wf(),
        ensures
            old(self).steps_to(answer, *final(self), step),
    {
        let mut stage = Stage::Over;
        std::mem::swap(&mut stage, &mut self.stage);
        match (stage, answer) {
            (Stage::Name { root }, Answer::ProjectName(raw)) => {
                if let Some(raw) = raw {
                    let (id, name) = settings::parse_project_name(raw.as_str());
                    if let Some(id) = id {
                        if settings::bears_name(self.roots[root].as_str(), name.as_str()) {
                            return self.move_to(Stage::CheckName { root, id, name });
                        }
                    }
                }
                self.pass_name(root)
            },
            (Stage::CheckName { root, id, name }, Answer::Known(known)) => {
                if let Some(false) = known {
                    self.move_to(Stage::RenewName { root, id, name })
                } else {
                    self.move_to(Stage::ProbeName { root, id, valid: id, name })
                }
            },
            (Stage::RenewName { root, id, name }, Answer::Workspace(w)) => match w {
                Some(valid) => self.move_to(Stage::ProbeName { root, id, valid, name }),
                None => self.move_to(Stage::Over),
            },
            (Stage::ProbeName { root, id, valid, name }, Answer::Exists(there)) => {
                let mut changes: Vec<Change> = Vec::new();
                if valid != id {
                    changes.push(naming(valid, name.as_str()));
                }
                changes.push(Change::RemoveMapping { root });
                if there {
                    let file = settings::workspace_file_for_name(
                        self.roots[root].as_str(),
                        name.as_str(),
                    );
                    let mapped = text::concat(name.as_str(), ".code-workspace");
                    let mapping = WorkspaceMapping::new(
                        valid,
                        mapped.as_str(),
                        text::borrow_opt(&self.zed_channel),
                    );
                    let verdict = self.finish(valid, name, file, mapping);
                    Step { changes, verdict }
                } else {
                    let step = self.pass_name(root);
                    Step { changes, verdict: step.verdict }
                }
            },
            (Stage::Mapping { root }, Answer::Mapping(found)) => match found {
                Some(mapping) => self.move_to(Stage::ProbeMapped { root, mapping }),
                None => self.pass_mapping(root),
            },
            (Stage::ProbeMapped { root, mapping }, Answer::Exists(there)) => {
                if there {
                    self.move_to(Stage::CheckMapped { root, mapping })
                } else {
                    self.pass_mapping(root)
                }
            },
            (Stage::CheckMapped { root, mapping }, Answer::Known(known)) => {
                if let Some(false) = known {
                    self.move_to(Stage::RenewMapped { root, mapping })
                } else {
                    self.finish_mapped(root, &mapping, mapping.workspace_id)
                }
            },
            (Stage::RenewMapped { root, mapping }, Answer::Workspace(w)) => match w {
                Some(id) => self.finish_mapped(root, &mapping, id),
                None => self.move_to(Stage::Over),
            },
            (Stage::Scan, Answer::Files(files)) => {
                let found = find_workspace_files_in_roots(files.as_slice());
                assert(text::texts(found@).len() == found@.len());
                if found.len() == 1 {
                    assert(text::texts(found@)[0] == found@[0]@);
                    self.move_to(Stage::RenewScanned { file: found[0].clone() })
                } else if found.len() > 1 {
                    let _ = self.move_to(Stage::Over);
                    Step { changes: Vec::new(), verdict: Verdict::Ambiguous(found) }
                } else {
                    let name = last_name_of(self.roots[0].as_str());
                    let path = settings::workspace_file_for_name(
                        self.roots[0].as_str(),
                        name.as_str(),
                    );
                    let folders = new_folders(self.roots[0].as_str(), self.roots.as_slice());
                    let mut changes: Vec<Change> = Vec::new();
                    changes.push(Change::CreateFile { path, folders });
                    let step = self.move_to(Stage::RenewCreated);
                    Step { changes, verdict: step.verdict }
                }
            },
            (Stage::RenewScanned { file }, Answer::Workspace(w)) => match w {
                Some(id) => {
                    let name = file_stem_or_default(file.as_str());
                    let mapped = last_name_of(file.as_str());
                    self.finish_file(id, name, file, mapped.as_str())
                },
                None => self.move_to(Stage::Over),
            },
            (Stage::RenewCreated, Answer::Workspace(w)) => match w {
                Some(id) => {
                    let name = last_name_of(self.roots[0].as_str());
                    let file = settings::workspace_file_for_name(
                        self.roots[0].as_str(),
                        name.as_str(),
                    );
                    let mapped = text::concat(name.as_str(), ".code-workspace");
                    self.finish_file(id, name, file, mapped.as_str())
                },
                None => self.move_to(Stage::Over),
            },
            (stage, _) => self.move_to(stage),
        }
    }

    /// How many answers the search can still take.
    pub open spec fn left(self) -> int {
        let n = self.roots@.len() as int;
        match self.stage {
            Stage::Name { root } => 4 * n + 3 + 4 * (n - root),
            Stage::CheckName { root, .. } => 4 * n + 2 + 4 * (n - root),
            Stage::RenewName { root, .. } => 4 * n + 1 + 4 * (n - root),
            Stage::ProbeName { root, .. } => 4 * n + 4 * (n - root),
            Stage::Mapping { root } => 3 + 4 * (n - root),
            Stage::ProbeMapped { root, .. } => 2 + 4 * (n - root),
            Stage::CheckMapped { root, .. } => 1 + 4 * (n - root),
            Stage::RenewMapped { root, .. } => 4 * (n - root),
            Stage::Scan => 2,
            Stage::RenewScanned { .. } => 1,
            Stage::RenewCreated => 1,
            Stage::Over => 0,
        }
    }
}

/// Starts the search for the workspace file of a set of roots, with its first
/// question.
pub fn discover(roots: Vec<String>, db_path: String, channel_hint: Option<String>) -> (r: Result<
    (Discovery, Step),
    Error,
>)
    ensures
        match r {
            Ok((d, step)) => {
                &&& d.wf()
                &&& d.roots == roots
                &&& d.db_path == db_path
                &&& text::opt(d.zed_channel) == channel_used(
                    text::opt(channel_hint),
                    db_path@,
                )
                &&& d.stage == (Stage::Name { root: 0 })
                &&& step.changes@.len() == 0
                &&& d.asks(step.verdict)
            },
            Err(e) => roots@.len() == 0 && e == Error::NoRoots,
        },
{
    if roots.len() == 0 {
        return Err(Error::NoRoots);
    }
    let zed_channel = match channel_hint {
        Some(c) => Some(c),
        None => mapping::channel_from_db_path(db_path.as_str()),
    };
    let d = Discovery { roots, db_path, zed_channel, stage: Stage::Name { root: 0 } };
    let verdict = d.question();
    Ok((d, Step { changes: Vec::new(), verdict }))
}

/// The search ends: with every answer that it waits for, fewer are left to take.
pub proof fn lemma_discovery_ends(d: Discovery, answer: Answer, next: Discovery, step: Step)
    requires
        d.wf(),
        d.awaits(answer),
        d.steps_to(answer, next, step),
    ensures
        0 <= next.left() < d.left(),
        next.stage is Over <==> !(step.verdict is Ask),
{
}

/// A workspace file that the search finds is one whose existence it has asked
/// for, or the one that the scan listed, or the one that it had created.
pub proof fn lemma_found_file_is_there(
    d: Discovery,
    answer: Answer,
    next: Discovery,
    step: Step,
)
    requires
        d.wf(),
        d.awaits(answer),
        d.steps_to(answer, next, step),
        step.verdict is Found,
    ensures
        ({
            let file = step.verdict->Found_0.workspace_file@;
            match d.stage {
                Stage::ProbeName { root, name, .. } => answer == Answer::Exists(true) && file
                    == settings::workspace_file(d.root_at(root as int), name@),
                Stage::CheckMapped { root, mapping } => file == mapping::mapped_file(
                    d.root_at(root as int),
                    mapping.workspace_file@,
                ),
                Stage::RenewMapped { root, mapping } => file == mapping::mapped_file(
                    d.root_at(root as int),
                    mapping.workspace_file@,
                ),
                Stage::RenewScanned { file: f } => file == f@,
                Stage::RenewCreated => file == d.new_file(),
                _ => false,
            }
        }),
{
}

/// The project names in the settings of the roots after a change. `held` says which
/// roots hold the workspace file of a project name when it is written; there is none
/// where writing fails.
pub open spec fn names_after(
    names: Seq<Option<Seq<char>>>,
    roots: Seq<Seq<char>>,
    c: Change,
    held: Option<Seq<bool>>,
) -> Seq<Option<Seq<char>>> {
    match (c, held) {
        (Change::WriteProjectName(n), Some(h)) => match settings::primary_root(
            roots,
            settings::name_of(n@),
            h,
        ) {
            Some(i) => names.update(i, Some(n@)),
            None => names,
        },
        _ => names,
    }
}

/// The project names in the settings of the roots after several changes.
pub open spec fn names_after_all(
    names: Seq<Option<Seq<char>>>,
    roots: Seq<Seq<char>>,
    changes: Seq<Change>,
    held: spec_fn(int) -> Option<Seq<bool>>,
) -> Seq<Option<Seq<char>>>
    decreases changes.len(),
{
    if changes.len() == 0 {
        names
    } else {
        let last = changes.len() - 1;
        names_after(
            names_after_all(names, roots, changes.drop_last(), held),
            roots,
            changes[last],
            held(last),
        )
    }
}

/// Whatever a search changes, a project name is written only into a root that bears
/// it: in every root the project name stays, or is a new one whose name is that of the
/// root's folder.
pub proof fn lemma_names_are_borne(
    names: Seq<Option<Seq<char>>>,
    roots: Seq<Seq<char>>,
    changes: Seq<Change>,
    held: spec_fn(int) -> Option<Seq<bool>>,
)
    requires
        names.len() == roots.len(),
    ensures
        ({
            let after = names_after_all(names, roots, changes, held);
            &&& after.len() == names.len()
            &&& forall|i: int|
                0 <= i < names.len() ==> #[trigger] after[i] == names[i] || (after[i] matches Some(n)
                    && settings::bears(roots[i], settings::name_of(n)))
        }),
    decreases changes.len(),
{
    if changes.len() > 0 {
        let last = changes.len() - 1;
        lemma_names_are_borne(names, roots, changes.drop_last(), held);
        if let Change::WriteProjectName(n) = changes[last] {
            if let Some(h) = held(last) {
                settings::lemma_primary_root(roots, settings::name_of(n@), h);
            }
        }
    }
}

/// Writing a project name for the primary root is the only change of a search that
/// touches a project name, and of the names that it writes each has the workspace and
/// the name that the search has found, or has for the root that it stands at.
pub proof fn lemma_names_written(
    d: Discovery,
    answer: Answer,
    next: Discovery,
    step: Step,
    k: int,
    n: String,
)
    requires
        d.wf(),
        d.awaits(answer),
        d.steps_to(answer, next, step),
        0 <= k < step.changes@.len(),
        step.changes@[k] == Change::WriteProjectName(n),
    ensures
        k == 0,
        match step.verdict {
            Verdict::Found(r) => n@ == settings::project_name(r.workspace_id, r.project_name@),
            _ => d.stage matches Stage::ProbeName { root, id, valid, name } && valid != id && n@
                == settings::project_name(valid, name@) && settings::bears(
                d.root_at(root as int),
                name@,
            ),
        },
{
}

/// With several workspace files in the roots, and no project name or mapping that
/// led to one, the search ends without a file: nothing is changed, and none of the
/// files is taken.
pub proof fn lemma_several_files(d: Discovery, files: Vec<String>, next: Discovery, step: Step)
    requires
        d.wf(),
        d.stage is Scan,
        d.steps_to(Answer::Files(files), next, step),
        workspace_files(text::texts(files@)).len() > 1,
    ensures
        step.changes@.len() == 0,
        !(step.verdict is Found),
        next.stage is Over,
{
}

/// The search goes by the names of all roots before it goes by their mappings,
/// and by all mappings before it goes by files; it leaves a root only where that
/// root did not settle the matter.
pub proof fn lemma_discovery_order(d: Discovery, answer: Answer, next: Discovery, step: Step)
    requires
        d.wf(),
        d.awaits(answer),
        d.steps_to(answer, next, step),
    ensures
        next.stage is Mapping && !(d.stage is Mapping || d.stage is ProbeMapped) ==> match (
            d.stage,
            answer,
        ) {
            (Stage::Name { root }, Answer::ProjectName(raw)) => root == d.roots@.len() - 1 && (raw
                is None || settings::id_of(raw->0@) is None || !settings::bears(
                d.root_at(root as int),
                settings::name_of(raw->0@),
            )),
            (Stage::ProbeName { root, .. }, Answer::Exists(there)) => root == d.roots@.len() - 1
                && !there,
            _ => false,
        },
        next.stage is Scan ==> match (d.stage, answer) {
            (Stage::Mapping { root }, Answer::Mapping(m)) => root == d.roots@.len() - 1 && m is None,
            (Stage::ProbeMapped { root, .. }, Answer::Exists(there)) => root == d.roots@.len() - 1
                && !there,
            _ => false,
        },
        next.stage is Name || next.stage is CheckName || next.stage is RenewName
            || next.stage is ProbeName ==> d.stage is Name || d.stage is CheckName
            || d.stage is RenewName || d.stage is ProbeName,
        next.stage is RenewScanned || next.stage is RenewCreated ==> d.stage is Scan,
{
}

/// What becomes of a project name of the form `{workspace_id}:{filename}`.
#[derive(Debug)]
pub struct Migration {
    /// The mapping that is written to the root.
    pub mapping: WorkspaceMapping,
    /// The settings text that is written once the mapping is.
    pub settings: String,
}

/// The workspace and the file that such a project name tells.
pub open spec fn v1_parts(raw: Seq<char>) -> Option<(i64, Seq<char>)> {
    match settings::id_of(raw) {
        Some(id) => Some((id, raw.skip(settings::first_colon(raw) + 1))),
        None => None,
    }
}

/// The name shown for a workspace file: its name without extension.
pub open spec fn display_name(filename: Seq<char>) -> Seq<char> {
    match components::file_stem(filename) {
        Some(s) => s,
        None => filename,
    }
}

/// Moves the workspace and the file out of the project name of a root's
/// settings: into a mapping, with the name of the file left as project name and
/// every other setting as it was. Nothing is done to a project name of another
/// form, nor where there is none.
pub fn migrate_from_v1(content: Option<&str>, db_path: &str) -> (r: Option<Migration>)
    ensures
        match content {
            None => r is None,
            Some(t) => match settings::project_name_in(t@) {
                None => r is None,
                Some(raw) => match v1_parts(raw) {
                    None => r is None,
                    Some((id, file)) => r matches Some(m) && {
                        &&& m.mapping.workspace_id == id
                        &&& m.mapping.workspace_file@ == file
                        &&& text::opt(m.mapping.zed_channel) == mapping::channel_of_db(db_path@)
                        &&& m.mapping.last_sync_ts is None
                        &&& settings::is_named(Some(t@), display_name(file), m.settings@)
                    },
                },
            },
        },
{
    let t = match content {
        Some(t) => t,
        None => {
            return None;
        },
    };
    let raw = match settings::read_project_name(t) {
        Some(raw) => raw,
        None => {
            return None;
        },
    };
    let (id, filename) = match settings::split_project_name(raw.as_str()) {
        Some(parts) => parts,
        None => {
            return None;
        },
    };
    let channel = mapping::channel_from_db_path(db_path);
    let mapping = WorkspaceMapping::new(id, filename.as_str(), text::borrow_opt(&channel));
    let shown = match components::file_stem_of(filename.as_str()) {
        Some(s) => s,
        None => filename,
    };
    let settings = settings::write_project_name(Some(t), shown.as_str());
    Some(Migration { mapping, settings })
}

} // verus!
