//! What the searches for a workspace file come to, said without their steps: the
//! first source that settles the matter, in the order of the sources.
use vstd::prelude::*;

use crate::discovery;
use crate::hook::discovery as hook_discovery;
use crate::mapping;
use crate::settings;
use crate::text;

verus! {

/// What a search can learn: the project names, the mappings (a workspace and a
/// path) and the files of the roots, which files exist, and what the database
/// says.
pub struct Sources {
    pub names: spec_fn(int) -> Option<Seq<char>>,
    pub mappings: spec_fn(int) -> Option<(i64, Seq<char>)>,
    pub files: Seq<Seq<char>>,
    pub exists: spec_fn(Seq<char>) -> bool,
    pub known: spec_fn(i64) -> Option<bool>,
    pub workspace: Option<i64>,
}

/// What a search finds: the workspace, the name of the project, the file.
pub struct Finding {
    pub id: i64,
    pub name: Seq<char>,
    pub file: Seq<char>,
}

pub open spec fn finding(id: Option<i64>, name: Seq<char>, file: Seq<char>) -> Option<Finding> {
    match id {
        Some(id) => Some(Finding { id, name, file }),
        None => None,
    }
}

impl Sources {
    /// The workspace of the given number, or the one of the roots where the
    /// database does not know it.
    pub open spec fn valid(self, id: i64) -> Option<i64> {
        if (self.known)(id) == Some(false) {
            self.workspace
        } else {
            Some(id)
        }
    }

    /// What the files give: the only workspace file; a new one where there is none;
    /// nothing where there are several.
    pub open spec fn by_files(self, roots: Seq<Seq<char>>) -> Option<Finding> {
        let all = discovery::workspace_files(self.files);
        if all.len() == 1 {
            finding(self.workspace, discovery::name_for_file(all[0]), all[0])
        } else if all.len() > 1 {
            None
        } else {
            let name = discovery::last_name(roots[0]);
            finding(self.workspace, name, settings::workspace_file(roots[0], name))
        }
    }

    /// What the mappings of the roots from an index on give, and then the files.
    pub open spec fn by_mappings(self, roots: Seq<Seq<char>>, root: int) -> Option<Finding>
        decreases roots.len() - root,
    {
        if root >= roots.len() {
            self.by_files(roots)
        } else {
            match (self.mappings)(root) {
                Some((id, path)) => {
                    let file = mapping::mapped_file(roots[root], path);
                    if (self.exists)(file) {
                        finding(self.valid(id), discovery::name_for_file(file), file)
                    } else {
                        self.by_mappings(roots, root + 1)
                    }
                },
                None => self.by_mappings(roots, root + 1),
            }
        }
    }

    /// What the project name of a root gives, once its workspace is known.
    pub open spec fn by_name(
        self,
        roots: Seq<Seq<char>>,
        root: int,
        valid: Option<i64>,
        name: Seq<char>,
    ) -> Option<Finding> {
        let file = settings::workspace_file(roots[root], name);
        if valid is None || (self.exists)(file) {
            finding(valid, name, file)
        } else {
            self.by_names(roots, root + 1)
        }
    }

    /// What the project names of the roots from an index on give, then the
    /// mappings, then the files.
    pub open spec fn by_names(self, roots: Seq<Seq<char>>, root: int) -> Option<Finding>
        decreases roots.len() - root,
    {
        if root >= roots.len() {
            self.by_mappings(roots, 0)
        } else {
            match (self.names)(root) {
                Some(raw) => match settings::id_of(raw) {
                    Some(id) => {
                        let valid = self.valid(id);
                        let name = settings::name_of(raw);
                        let file = settings::workspace_file(roots[root], name);
                        if settings::bears(roots[root], name) && (valid is None || (self.exists)(
                            file,
                        )) {
                            finding(valid, name, file)
                        } else {
                            self.by_names(roots, root + 1)
                        }
                    },
                    None => self.by_names(roots, root + 1),
                },
                None => self.by_names(roots, root + 1),
            }
        }
    }

    /// The answer is the one that these sources give to what the search waits for.
    pub open spec fn answer(self, d: discovery::Discovery, a: discovery::Answer) -> bool {
        match (d.stage, a) {
            (discovery::Stage::Name { root }, discovery::Answer::ProjectName(raw)) => text::opt(raw)
                == (self.names)(root as int),
            (discovery::Stage::CheckName { id, .. }, discovery::Answer::Known(k)) => k
                == (self.known)(id),
            (discovery::Stage::RenewName { .. }, discovery::Answer::Workspace(w)) => w
                == self.workspace,
            (discovery::Stage::ProbeName { root, name, .. }, discovery::Answer::Exists(b)) => b
                == (self.exists)(settings::workspace_file(d.root_at(root as int), name@)),
            (discovery::Stage::Mapping { root }, discovery::Answer::Mapping(m)) => (
            self.mappings)(root as int) == (match m {
                Some(m) => Some((m.workspace_id, m.workspace_file@)),
                None => None,
            }),
            (discovery::Stage::ProbeMapped { root, mapping }, discovery::Answer::Exists(b)) => b
                == (self.exists)(
                mapping::mapped_file(d.root_at(root as int), mapping.workspace_file@),
            ),
            (discovery::Stage::CheckMapped { mapping, .. }, discovery::Answer::Known(k)) => k
                == (self.known)(mapping.workspace_id),
            (discovery::Stage::RenewMapped { .. }, discovery::Answer::Workspace(w)) => w
                == self.workspace,
            (discovery::Stage::Scan, discovery::Answer::Files(f)) => text::texts(f@) == self.files,
            (discovery::Stage::RenewScanned { .. }, discovery::Answer::Workspace(w)) => w
                == self.workspace,
            (discovery::Stage::RenewCreated, discovery::Answer::Workspace(w)) => w
                == self.workspace,
            _ => false,
        }
    }

    /// What the search is still to find, from where it stands.
    pub open spec fn ahead(self, d: discovery::Discovery) -> Option<Finding> {
        let roots = text::texts(d.roots@);
        match d.stage {
            discovery::Stage::Name { root } => self.by_names(roots, root as int),
            discovery::Stage::CheckName { root, id, name } => self.by_name(
                roots,
                root as int,
                self.valid(id),
                name@,
            ),
            discovery::Stage::RenewName { root, name, .. } => self.by_name(
                roots,
                root as int,
                self.workspace,
                name@,
            ),
            discovery::Stage::ProbeName { root, valid, name, .. } => self.by_name(
                roots,
                root as int,
                Some(valid),
                name@,
            ),
            discovery::Stage::Mapping { root } => self.by_mappings(roots, root as int),
            discovery::Stage::ProbeMapped { root, mapping } => {
                let file = mapping::mapped_file(d.root_at(root as int), mapping.workspace_file@);
                if (self.exists)(file) {
                    finding(
                        self.valid(mapping.workspace_id),
                        discovery::name_for_file(file),
                        file,
                    )
                } else {
                    self.by_mappings(roots, root + 1)
                }
            },
            discovery::Stage::CheckMapped { root, mapping } => {
                let file = mapping::mapped_file(d.root_at(root as int), mapping.workspace_file@);
                finding(self.valid(mapping.workspace_id), discovery::name_for_file(file), file)
            },
            discovery::Stage::RenewMapped { root, mapping } => {
                let file = mapping::mapped_file(d.root_at(root as int), mapping.workspace_file@);
                finding(self.workspace, discovery::name_for_file(file), file)
            },
            discovery::Stage::Scan => self.by_files(roots),
            discovery::Stage::RenewScanned { file } => finding(
                self.workspace,
                discovery::name_for_file(file@),
                file@,
            ),
            discovery::Stage::RenewCreated => finding(
                self.workspace,
                discovery::last_name(d.root_at(0)),
                d.new_file(),
            ),
            discovery::Stage::Over => None,
        }
    }
}

/// A search that learns what the given sources say finds what the first of them
/// gives that settles the matter: the project names of the roots, their mappings,
/// the only workspace file in them, a new one where they hold none. With each step
/// the search either ends with that finding, or still has it ahead.
pub proof fn lemma_discovery_finds(
    s: Sources,
    d: discovery::Discovery,
    answer: discovery::Answer,
    next: discovery::Discovery,
    step: discovery::Step,
)
    requires
        d.wf(),
        s.answer(d, answer),
        d.steps_to(answer, next, step),
    ensures
        match step.verdict {
            discovery::Verdict::Ask(_) => s.ahead(next) == s.ahead(d),
            discovery::Verdict::Found(r) => s.ahead(d) == Some(
                Finding { id: r.workspace_id, name: r.project_name@, file: r.workspace_file@ },
            ),
            discovery::Verdict::NotFound => s.ahead(d) is None,
            discovery::Verdict::Ambiguous(_) => s.ahead(d) is None,
        },
{
    reveal_with_fuel(Sources::by_names, 2);
    reveal_with_fuel(Sources::by_mappings, 2);
    let roots = text::texts(d.roots@);
    assert(d.awaits(answer));
    assert(text::texts(next.roots@) == roots);
    assert forall|i: int| 0 <= i < roots.len() implies #[trigger] roots[i] == d.root_at(i) by {}
}

/// A search starts with the first source ahead of it.
pub proof fn lemma_discovery_starts(s: Sources, d: discovery::Discovery)
    requires
        d.stage == (discovery::Stage::Name { root: 0 }),
    ensures
        s.ahead(d) == s.by_names(text::texts(d.roots@), 0),
{
}

impl Sources {
    /// The new workspace file of the hook.
    pub open spec fn new_target(self, roots: Seq<Seq<char>>) -> Seq<char> {
        settings::workspace_file(roots[0], hook_discovery::folder_name(roots[0]))
    }

    /// What project names that name the workspace itself give, from a root on and
    /// with the files found so far: the only such file, else a new one.
    pub open spec fn own_target(
        self,
        id: i64,
        roots: Seq<Seq<char>>,
        root: int,
        found: Seq<Seq<char>>,
    ) -> Option<Seq<char>>
        decreases roots.len() - root,
    {
        if root >= roots.len() {
            if found.len() == 1 {
                Some(found[0])
            } else {
                Some(self.new_target(roots))
            }
        } else {
            match (self.names)(root) {
                Some(raw) => {
                    let file = settings::workspace_file(roots[root], settings::name_of(raw));
                    if settings::id_of(raw) == Some(id) && settings::bears(
                        roots[root],
                        settings::name_of(raw),
                    ) && (self.exists)(file) {
                        self.own_target(id, roots, root + 1, found.push(file))
                    } else {
                        self.own_target(id, roots, root + 1, found)
                    }
                },
                None => self.own_target(id, roots, root + 1, found),
            }
        }
    }

    /// What the files give: the only workspace file; where there is none, what is
    /// behind; nothing where there are several.
    pub open spec fn file_target(self, id: i64, roots: Seq<Seq<char>>) -> Option<Seq<char>> {
        let all = discovery::workspace_files(self.files);
        if all.len() == 0 {
            self.own_target(id, roots, 0, Seq::<Seq<char>>::empty())
        } else if all.len() == 1 {
            Some(all[0])
        } else {
            None
        }
    }

    /// What the mappings of the roots from an index on give, and then the files.
    pub open spec fn mapped_target(self, id: i64, roots: Seq<Seq<char>>, root: int) -> Option<Seq<char>>
        decreases roots.len() - root,
    {
        if root >= roots.len() {
            self.file_target(id, roots)
        } else {
            match (self.mappings)(root) {
                Some((_, path)) => {
                    let file = mapping::mapped_file(roots[root], path);
                    if (self.exists)(file) {
                        Some(file)
                    } else {
                        self.mapped_target(id, roots, root + 1)
                    }
                },
                None => self.mapped_target(id, roots, root + 1),
            }
        }
    }

    /// What the project names of the roots from an index on give, then the
    /// mappings, then the files.
    pub open spec fn named_target(self, id: i64, roots: Seq<Seq<char>>, root: int) -> Option<Seq<char>>
        decreases roots.len() - root,
    {
        if root >= roots.len() {
            self.mapped_target(id, roots, 0)
        } else {
            match (self.names)(root) {
                Some(raw) => {
                    let file = settings::workspace_file(roots[root], settings::name_of(raw));
                    if settings::id_of(raw) is Some && settings::bears(
                        roots[root],
                        settings::name_of(raw),
                    ) && (self.exists)(file) {
                        Some(file)
                    } else {
                        self.named_target(id, roots, root + 1)
                    }
                },
                None => self.named_target(id, roots, root + 1),
            }
        }
    }

    /// The answer is the one that these sources give to what the hook's search waits for.
    pub open spec fn hook_answer(
        self,
        d: hook_discovery::TargetSearch,
        a: hook_discovery::Answer,
    ) -> bool {
        match (d.stage, a) {
            (
                hook_discovery::Stage::Name { root },
                hook_discovery::Answer::ProjectName(raw),
            ) => text::opt(raw) == (self.names)(root as int),
            (
                hook_discovery::Stage::ProbeName { root, name, .. },
                hook_discovery::Answer::Exists(b),
            ) => b == (self.exists)(settings::workspace_file(d.root_at(root as int), name@)),
            (hook_discovery::Stage::Mapping { root }, hook_discovery::Answer::Mapping(m)) => (
            self.mappings)(root as int) == (match m {
                Some(m) => Some((m.workspace_id, m.workspace_file@)),
                None => None,
            }),
            (
                hook_discovery::Stage::ProbeMapped { root, mapping },
                hook_discovery::Answer::Exists(b),
            ) => b == (self.exists)(
                mapping::mapped_file(d.root_at(root as int), mapping.workspace_file@),
            ),
            (hook_discovery::Stage::Scan, hook_discovery::Answer::Files(f)) => text::texts(f@)
                == self.files,
            (
                hook_discovery::Stage::OwnName { root, .. },
                hook_discovery::Answer::ProjectName(raw),
            ) => text::opt(raw) == (self.names)(root as int),
            (
                hook_discovery::Stage::ProbeOwn { path, .. },
                hook_discovery::Answer::Exists(b),
            ) => b == (self.exists)(path@),
            (hook_discovery::Stage::ProbeNew, hook_discovery::Answer::Exists(b)) => b == (
            self.exists)(d.new_file()),
            _ => false,
        }
    }

    /// The file that the hook's search still has ahead, from where it stands.
    pub open spec fn target_ahead(self, d: hook_discovery::TargetSearch) -> Option<Seq<char>> {
        let roots = text::texts(d.roots@);
        let id = d.workspace_id;
        match d.stage {
            hook_discovery::Stage::Name { root } => self.named_target(id, roots, root as int),
            hook_discovery::Stage::ProbeName { root, name, .. } => {
                let file = settings::workspace_file(d.root_at(root as int), name@);
                if (self.exists)(file) {
                    Some(file)
                } else {
                    self.named_target(id, roots, root + 1)
                }
            },
            hook_discovery::Stage::Mapping { root } => self.mapped_target(id, roots, root as int),
            hook_discovery::Stage::ProbeMapped { root, mapping } => {
                let file = mapping::mapped_file(d.root_at(root as int), mapping.workspace_file@);
                if (self.exists)(file) {
                    Some(file)
                } else {
                    self.mapped_target(id, roots, root + 1)
                }
            },
            hook_discovery::Stage::Scan => self.file_target(id, roots),
            hook_discovery::Stage::OwnName { root, found } => self.own_target(
                id,
                roots,
                root as int,
                text::texts(found@),
            ),
            hook_discovery::Stage::ProbeOwn { root, found, path } => self.own_target(
                id,
                roots,
                root + 1,
                if (self.exists)(path@) {
                    text::texts(found@).push(path@)
                } else {
                    text::texts(found@)
                },
            ),
            hook_discovery::Stage::ProbeNew => Some(self.new_target(roots)),
            hook_discovery::Stage::Over => None,
        }
    }
}

/// The hook's search, where it learns what the given sources say, finds what the
/// first of them gives that settles the matter: the project names of the roots,
/// their mappings, the only workspace file in them, or where they hold none the only
/// file that a project name of this workspace names, or a new one. With each step the search either ends
/// with that file, or still has it ahead.
pub proof fn lemma_target_search_finds(
    s: Sources,
    d: hook_discovery::TargetSearch,
    answer: hook_discovery::Answer,
    next: hook_discovery::TargetSearch,
    step: hook_discovery::Step,
)
    requires
        d.wf(),
        s.hook_answer(d, answer),
        d.steps_to(answer, next, step),
    ensures
        match step.verdict {
            hook_discovery::Verdict::Ask(_) => s.target_ahead(next) == s.target_ahead(d),
            hook_discovery::Verdict::Target(f) => s.target_ahead(d) == Some(f@),
            hook_discovery::Verdict::Nothing => s.target_ahead(d) is None,
        },
{
    reveal_with_fuel(Sources::named_target, 2);
    reveal_with_fuel(Sources::mapped_target, 2);
    reveal_with_fuel(Sources::own_target, 2);
    let roots = text::texts(d.roots@);
    assert(d.awaits(answer));
    assert(text::texts(next.roots@) == roots);
    assert forall|i: int| 0 <= i < roots.len() implies #[trigger] roots[i] == d.root_at(i) by {}
    if d.stage is Scan {
        let all = discovery::workspace_files(s.files);
        if all.len() == 0 {
            assert(text::texts(next.stage->OwnName_found@) == Seq::<Seq<char>>::empty());
        }
    }
}

/// The hook's search starts with the first source ahead of it.
pub proof fn lemma_target_search_starts(s: Sources, d: hook_discovery::TargetSearch)
    requires
        d.stage == (hook_discovery::Stage::Name { root: 0 }),
    ensures
        s.target_ahead(d) == s.named_target(d.workspace_id, text::texts(d.roots@), 0),
{
}

} // verus!
