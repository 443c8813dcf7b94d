//! The mapping between a Zed workspace and its workspace file, and what belongs
//! to the channel that a Zed is of.
use vstd::prelude::*;

use crate::components;
use crate::decimal;
use crate::paths;
use crate::sync_engine;
use crate::text;

verus! {

broadcast use vstd::string::group_string_axioms;

/// The name of the mapping file within a `.zed` directory.
pub const MAPPING_FILENAME: &'static str = "zed-project-workspace.json";

/// Ties a Zed workspace to a workspace file.
#[derive(Debug, Clone)]
pub struct WorkspaceMapping {
    /// Zed's number of the workspace.
    pub workspace_id: i64,
    /// The path from the worktree root to the workspace file.
    pub workspace_file: String,
    /// The channel of the Zed that the number belongs to.
    pub zed_channel: Option<String>,
    /// When the two sides were last in step, in ISO 8601.
    pub last_sync_ts: Option<String>,
}

/// The path of the mapping file of a worktree root.
pub open spec fn mapping_path(root: Seq<char>) -> Seq<char> {
    components::join(components::join(root, ".zed"@), MAPPING_FILENAME@)
}

/// The path of the workspace file that a mapping of a root names.
pub open spec fn mapped_file(root: Seq<char>, file: Seq<char>) -> Seq<char> {
    components::join(root, file)
}

/// The text tells the time of a sync: it has a date, a time of day and an offset,
/// and reads as a time again, unless its year has more than four digits and it
/// starts with `+`.
pub open spec fn is_stamp(t: Seq<char>) -> bool {
    t.len() >= 25 && (t[0] == '+' || sync_engine::rfc3339_millis(t) is Some)
}

/// The current time in RFC 3339, as `chrono::Utc::now().to_rfc3339()` gives it: at
/// least 25 characters, which `chrono::DateTime::parse_from_rfc3339` reads where
/// the year has four digits.
///
/// Which time it is, is not said, since that depends on the clock.
#[verifier::external_body]
pub(crate) fn now_rfc3339() -> (r: String)
    ensures
        is_stamp(r@),
{
    chrono::Utc::now().to_rfc3339()
}

impl WorkspaceMapping {
    /// The path of the mapping file of a worktree root.
    pub fn file_path(worktree_root: &str) -> (r: String)
        ensures
            r@ == mapping_path(worktree_root@),
    {
        let dir = components::join_path(worktree_root, ".zed");
        components::join_path(dir.as_str(), MAPPING_FILENAME)
    }

    /// The path of the workspace file, seen from the worktree root.
    pub fn resolve_workspace_file(&self, worktree_root: &str) -> (r: String)
        ensures
            r@ == mapped_file(worktree_root@, self.workspace_file@),
    {
        components::join_path(worktree_root, self.workspace_file.as_str())
    }

    /// Sets the time at which the two sides were last in step.
    pub fn set_sync_ts(&mut self, ts: String)
        ensures
            final(self).last_sync_ts == Some(ts),
            final(self).workspace_id == old(self).workspace_id,
            final(self).workspace_file == old(self).workspace_file,
            final(self).zed_channel == old(self).zed_channel,
    {
        self.last_sync_ts = Some(ts);
    }

    /// Sets the time at which the two sides were last in step to the current time.
    pub fn touch_sync_ts(&mut self)
        ensures
            final(self).last_sync_ts matches Some(t) && is_stamp(t@),
            final(self).workspace_id == old(self).workspace_id,
            final(self).workspace_file == old(self).workspace_file,
            final(self).zed_channel == old(self).zed_channel,
    {
        self.set_sync_ts(now_rfc3339());
    }

    /// A mapping that has not been used for a sync yet.
    pub fn new(workspace_id: i64, workspace_file: &str, zed_channel: Option<&str>) -> (r: Self)
        ensures
            r.workspace_id == workspace_id,
            r.workspace_file@ == workspace_file@,
            text::opt(r.zed_channel) == text::opt_str(zed_channel),
            r.last_sync_ts is None,
    {
        WorkspaceMapping {
            workspace_id,
            workspace_file: workspace_file.to_string(),
            zed_channel: text::own_opt(zed_channel),
            last_sync_ts: None,
        }
    }

    /// The two mappings say the same.
    pub open spec fn same(self, other: Self) -> bool {
        &&& self.workspace_id == other.workspace_id
        &&& self.workspace_file@ == other.workspace_file@
        &&& text::opt(self.zed_channel) == text::opt(other.zed_channel)
        &&& text::opt(self.last_sync_ts) == text::opt(other.last_sync_ts)
    }

    /// The mapping for another workspace of Zed with the same file.
    pub fn with_id(&self, workspace_id: i64) -> (r: Self)
        ensures
            r.workspace_id == workspace_id,
            r.workspace_file@ == self.workspace_file@,
            text::opt(r.zed_channel) == text::opt(self.zed_channel),
            text::opt(r.last_sync_ts) == text::opt(self.last_sync_ts),
    {
        WorkspaceMapping {
            workspace_id,
            workspace_file: self.workspace_file.clone(),
            zed_channel: text::copy_opt(&self.zed_channel),
            last_sync_ts: text::copy_opt(&self.last_sync_ts),
        }
    }

    /// The mapping as it is written to a root: the same, with the path of the
    /// workspace file as seen from that root.
    ///
    /// Where the root leads back to the workspace file, resolving the copy gives
    /// the workspace file again.
    pub fn for_root(&self, root: &str, workspace_file_abs: &str) -> (r: WorkspaceMapping)
        ensures
            r.workspace_id == self.workspace_id,
            r.workspace_file@ == paths::relative(root@, workspace_file_abs@),
            text::opt(r.zed_channel) == text::opt(self.zed_channel),
            text::opt(r.last_sync_ts) == text::opt(self.last_sync_ts),
            paths::leads_back(root@, workspace_file_abs@) ==> paths::equal(
                mapped_file(root@, r.workspace_file@),
                workspace_file_abs@,
            ),
    {
        WorkspaceMapping {
            workspace_id: self.workspace_id,
            workspace_file: paths::relative_path(root, workspace_file_abs),
            zed_channel: text::copy_opt(&self.zed_channel),
            last_sync_ts: text::copy_opt(&self.last_sync_ts),
        }
    }

    /// The mappings that are written to the roots of a workspace, one for each.
    pub fn write_to_roots(&self, roots: &[String], workspace_file_abs: &str) -> (r: Vec<
        WorkspaceMapping,
    >)
        ensures
            r@.len() == roots@.len(),
            forall|i: int| #![trigger r@[i]]
                0 <= i < r@.len() ==> {
                    &&& r@[i].workspace_id == self.workspace_id
                    &&& r@[i].workspace_file@ == paths::relative(roots@[i]@, workspace_file_abs@)
                    &&& text::opt(r@[i].zed_channel) == text::opt(self.zed_channel)
                    &&& text::opt(r@[i].last_sync_ts) == text::opt(self.last_sync_ts)
                    &&& paths::leads_back(roots@[i]@, workspace_file_abs@) ==> paths::equal(
                        mapped_file(roots@[i]@, r@[i].workspace_file@),
                        workspace_file_abs@,
                    )
                },
    {
        let mut r: Vec<WorkspaceMapping> = Vec::new();
        let mut i: usize = 0;
        while i < roots.len()
            invariant
                i <= roots.len(),
                r@.len() == i,
                forall|k: int| #![trigger r@[k]]
                    0 <= k < i ==> {
                        &&& r@[k].workspace_id == self.workspace_id
                        &&& r@[k].workspace_file@ == paths::relative(
                            roots@[k]@,
                            workspace_file_abs@,
                        )
                        &&& text::opt(r@[k].zed_channel) == text::opt(self.zed_channel)
                        &&& text::opt(r@[k].last_sync_ts) == text::opt(self.last_sync_ts)
                        &&& paths::leads_back(roots@[k]@, workspace_file_abs@) ==> paths::equal(
                            mapped_file(roots@[k]@, r@[k].workspace_file@),
                            workspace_file_abs@,
                        )
                    },
            decreases roots.len() - i,
        {
            r.push(self.for_root(roots[i].as_str(), workspace_file_abs));
            i = i + 1;
        }
        r
    }
}

/// The channel that the path of a Zed executable tells.
pub open spec fn channel_of_executable(exe: Seq<char>) -> Option<Seq<char>> {
    if text::occurs_in("Zed Preview"@, exe) || text::occurs_in("zed-preview"@, exe) {
        Some("preview"@)
    } else if text::occurs_in("Zed.app"@, exe) || text::occurs_in("zed-stable"@, exe) {
        Some("stable"@)
    } else {
        None
    }
}

/// Detects the channel of Zed from the path of its executable.
pub fn detect_zed_channel(exe: &str) -> (r: Option<String>)
    ensures
        text::opt(r) == channel_of_executable(exe@),
{
    if text::contains_text(exe, "Zed Preview") || text::contains_text(exe, "zed-preview") {
        Some("preview".to_string())
    } else if text::contains_text(exe, "Zed.app") || text::contains_text(exe, "zed-stable") {
        Some("stable".to_string())
    } else {
        None
    }
}

/// The channel that the path of a Zed database tells.
pub open spec fn channel_of_db(db_path: Seq<char>) -> Option<Seq<char>> {
    if text::occurs_in("0-preview"@, db_path) {
        Some("preview"@)
    } else if text::occurs_in("0-stable"@, db_path) {
        Some("stable"@)
    } else {
        None
    }
}

/// Detects the channel of Zed from the path of its database.
pub fn channel_from_db_path(db_path: &str) -> (r: Option<String>)
    ensures
        text::opt(r) == channel_of_db(db_path@),
{
    if text::contains_text(db_path, "0-preview") {
        Some("preview".to_string())
    } else if text::contains_text(db_path, "0-stable") {
        Some("stable".to_string())
    } else {
        None
    }
}

/// The command line program of a channel of Zed.
pub open spec fn cli_of(channel: Option<Seq<char>>) -> Seq<char> {
    if channel == Some("preview"@) {
        "zed-preview"@
    } else {
        "zed"@
    }
}

/// The command line program of a channel of Zed.
pub fn zed_cli_command(channel: Option<&str>) -> (r: &'static str)
    ensures
        r@ == cli_of(text::opt_str(channel)),
{
    match channel {
        Some(c) => if text::text_eq(c, "preview") {
            "zed-preview"
        } else {
            "zed"
        },
        None => "zed",
    }
}

/// What the sockets of a channel's hooks have in common.
pub open spec fn socket_prefix(channel: Seq<char>) -> Seq<char> {
    "/tmp/zed-prj-workspace-"@ + channel + "-"@
}

/// The socket of a hook.
pub open spec fn socket_of(channel: Seq<char>, pid: int) -> Seq<char> {
    socket_prefix(channel) + decimal::written(pid) + ".sock"@
}

fn prefix_of_sockets(channel: &str) -> (r: String)
    ensures
        r@ == socket_prefix(channel@),
{
    text::concat(text::concat("/tmp/zed-prj-workspace-", channel).as_str(), "-")
}

/// The path of the socket of a hook.
pub fn hook_socket_path(channel: &str, pid: u32) -> (r: String)
    ensures
        r@ == socket_of(channel@, pid as int),
{
    let start = text::concat(
        prefix_of_sockets(channel).as_str(),
        decimal::write_u64(pid as u64).as_str(),
    );
    text::concat(start.as_str(), ".sock")
}

/// A file found beside the sockets, with the time of its last change where it is known.
#[derive(Debug)]
pub struct FoundFile {
    pub path: String,
    pub modified: Option<i128>,
}

/// The path is that of a socket of the channel.
pub open spec fn is_socket(path: Seq<char>, channel: Seq<char>) -> bool {
    socket_prefix(channel).is_prefix_of(path) && ".sock"@.is_suffix_of(path)
}

/// `a` changed later than `b`; a time that is known is later than one that is not.
pub open spec fn is_newer(a: Option<i128>, b: Option<i128>) -> bool {
    a is Some && (b is None || a->0 > b->0)
}

/// The file at `i` is the newest socket of the channel, the first of several.
pub open spec fn is_newest(files: Seq<FoundFile>, channel: Seq<char>, i: int) -> bool {
    &&& 0 <= i < files.len()
    &&& is_socket(files[i].path@, channel)
    &&& forall|k: int|
        0 <= k < files.len() && is_socket(files[k].path@, channel) ==> !is_newer(
            #[trigger] files[k].modified,
            files[i].modified,
        )
    &&& forall|k: int|
        0 <= k < i && is_socket(files[k].path@, channel) ==> is_newer(
            files[i].modified,
            #[trigger] files[k].modified,
        )
}

fn newer(a: Option<i128>, b: Option<i128>) -> (r: bool)
    ensures
        r == is_newer(a, b),
{
    match (a, b) {
        (Some(x), Some(y)) => x > y,
        (Some(_), None) => true,
        _ => false,
    }
}

/// Picks the newest socket of a channel among the files of the sockets' directory.
pub fn find_hook_socket(channel: &str, files: &[FoundFile]) -> (r: Option<String>)
    ensures
        match r {
            Some(p) => exists|i: int| is_newest(files@, channel@, i) && files@[i].path@ == p@,
            None => forall|k: int|
                0 <= k < files@.len() ==> !is_socket((#[trigger] files@[k]).path@, channel@),
        },
{
    let prefix = prefix_of_sockets(channel);
    let mut best: Option<usize> = None;
    let mut i: usize = 0;
    while i < files.len()
        invariant
            i <= files.len(),
            prefix@ == socket_prefix(channel@),
            match best {
                Some(b) => b < i && is_newest(files@.take(i as int), channel@, b as int),
                None => forall|k: int|
                    0 <= k < i ==> !is_socket((#[trigger] files@[k]).path@, channel@),
            },
        decreases files.len() - i,
    {
        let ghost seen = files@.take(i as int);
        let ghost now = files@.take(i + 1);
        proof {
            assert forall|k: int| 0 <= k < i implies #[trigger] now[k] == seen[k] by {}
            assert(now[i as int] == files@[i as int]);
        }
        let path = files[i].path.as_str();
        if text::starts_with_text(path, prefix.as_str()) && text::ends_with_text(path, ".sock") {
            match best {
                Some(b) => {
                    if newer(files[i].modified, files[b].modified) {
                        proof {
                            assert(is_newest(now, channel@, i as int)) by {
                                assert forall|k: int|
                                    0 <= k < i && is_socket(
                                        now[k].path@,
                                        channel@,
                                    ) implies is_newer(
                                    now[i as int].modified,
                                    #[trigger] now[k].modified,
                                ) by {
                                    assert(!is_newer(seen[k].modified, seen[b as int].modified));
                                }
                                assert forall|k: int|
                                    0 <= k < now.len() && is_socket(
                                        now[k].path@,
                                        channel@,
                                    ) implies !is_newer(
                                    #[trigger] now[k].modified,
                                    now[i as int].modified,
                                ) by {
                                    if k < i {
                                        assert(!is_newer(
                                            seen[k].modified,
                                            seen[b as int].modified,
                                        ));
                                    }
                                }
                            }
                        }
                        best = Some(i);
                    } else {
                        proof {
                            lemma_newest_stays(files@, channel@, i as int, b as int);
                        }
                    }
                },
                None => {
                    proof {
                        assert(is_newest(now, channel@, i as int)) by {
                            assert forall|k: int| 0 <= k < i implies !is_socket(
                                (#[trigger] now[k]).path@,
                                channel@,
                            ) by {
                                assert(files@[k] == now[k]);
                            }
                        }
                    }
                    best = Some(i);
                },
            }
        } else if let Some(b) = best {
            proof {
                lemma_newest_stays(files@, channel@, i as int, b as int);
            }
        }
        i = i + 1;
    }
    assert(files@.take(files@.len() as int) == files@);
    match best {
        Some(b) => Some(files[b].path.clone()),
        None => None,
    }
}

proof fn lemma_newest_stays(files: Seq<FoundFile>, channel: Seq<char>, n: int, b: int)
    requires
        0 <= n < files.len(),
        is_newest(files.take(n), channel, b),
        !is_socket(files[n].path@, channel) || !is_newer(files[n].modified, files[b].modified),
    ensures
        is_newest(files.take(n + 1), channel, b),
{
    let seen = files.take(n);
    let now = files.take(n + 1);
    assert forall|k: int| 0 <= k < now.len() && is_socket(now[k].path@, channel) implies !is_newer(
        #[trigger] now[k].modified,
        now[b].modified,
    ) by {
        if k < n {
            assert(now[k] == seen[k]);
            assert(!is_newer(seen[k].modified, seen[b].modified));
        }
    }
    assert forall|k: int| 0 <= k < b && is_socket(now[k].path@, channel) implies is_newer(
        now[b].modified,
        #[trigger] now[k].modified,
    ) by {
        assert(now[k] == seen[k]);
        assert(is_newer(seen[b].modified, seen[k].modified));
    }
}

/// The socket of a hook is one of its channel's sockets.
pub proof fn lemma_socket_is_found(channel: Seq<char>, pid: nat)
    ensures
        is_socket(socket_of(channel, pid as int), channel),
{
    let s = socket_of(channel, pid as int);
    let p = socket_prefix(channel);
    let e = ".sock"@;
    assert(s.subrange(0, p.len() as int) == p);
    assert(s.subrange(s.len() - e.len(), s.len() as int) == e);
}

} // verus!
