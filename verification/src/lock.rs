//! The files that guard writing a workspace file, and how a failure to lock is told.
use vstd::prelude::*;

use crate::components;
use crate::text;

verus! {

broadcast use vstd::string::group_string_axioms;

/// The file whose lock guards a workspace file.
pub fn lock_path(workspace_file: &str) -> (r: String)
    ensures
        r@ == workspace_file@ + ".lock"@,
{
    text::concat(workspace_file, ".lock")
}

/// The file that new content goes to before it takes the place of a workspace file.
pub fn temporary_path(path: &str) -> (r: String)
    ensures
        r@ == components::with_extension(path@, "code-workspace.tmp"@),
{
    components::replace_extension(path, "code-workspace.tmp")
}

/// The new content of a file waits beside it, in the same directory and under
/// another name, so that moving it replaces the file.
pub proof fn lemma_temporary_is_beside(path: Seq<char>)
    requires
        components::file_name(path) is Some,
    ensures
        ({
            let t = components::with_extension(path, "code-workspace.tmp"@);
            &&& components::components(t).drop_last() == components::components(path).drop_last()
            &&& components::file_name(t) is Some
            &&& !components::same_path(t, path)
        }),
{
    reveal_strlit("code-workspace.tmp");
    let ext = "code-workspace.tmp"@;
    let c = components::components(path);
    let name = components::file_name(path)->0;
    let fresh = components::stem(name).push('.') + ext;
    let out = c.drop_last().push(components::Part::Normal(fresh));
    components::lemma_components_proper(path);
    let t = components::with_extension(path, ext);
    components::lemma_last_dot(name);
    assert(components::is_name(name)) by {
        if components::plain(c) {
            assert(c[c.len() - 1] == components::Part::Normal(name));
        } else {
            assert(c.skip(1)[c.len() - 2] == components::Part::Normal(name));
        }
    }
    assert(components::is_name(fresh)) by {
        let st = components::stem(name);
        assert forall|k: int| 0 <= k < fresh.len() implies fresh[k] != '/' by {
            if k < st.len() {
                assert(fresh[k] == st[k]);
                assert(st[k] == name[k]);
            } else if k > st.len() {
                assert(fresh[k] == ext[k - st.len() - 1]);
            }
        }
        assert(fresh.len() >= 3);
    }
    assert(components::proper(out)) by {
        if components::plain(c) {
            assert forall|i: int| 0 <= i < out.len() implies match #[trigger] out[i] {
                components::Part::Root => false,
                components::Part::Cur => false,
                components::Part::Parent => true,
                components::Part::Normal(n) => components::is_name(n),
            } by {
                if i < c.len() - 1 {
                    assert(out[i] == c[i]);
                }
            }
        } else {
            assert(out[0] == c[0]);
            let rest = out.skip(1);
            assert forall|i: int| 0 <= i < rest.len() implies match #[trigger] rest[i] {
                components::Part::Root => false,
                components::Part::Cur => false,
                components::Part::Parent => true,
                components::Part::Normal(n) => components::is_name(n),
            } by {
                if i < c.len() - 2 {
                    assert(rest[i] == c.skip(1)[i]);
                }
            }
        }
    }
    components::lemma_components_of_render(out);
    assert(components::components(t) == out);
    assert(out.drop_last() == c.drop_last());
    if components::same_path(t, path) {
        assert(out.last() == c.last());
        assert(fresh == name);
        assert(ext[14] == '.');
        assert(fresh[components::stem(name).len() as int + 15] == '.');
        assert(name[components::stem(name).len() as int + 15] == '.');
    }
}

/// Why work under a lock failed.
#[derive(Debug)]
pub enum LockError<E> {
    /// The lock could not be taken: the message of the error, and the lock's file.
    Io(String, String),
    /// The work itself failed.
    Inner(E),
}

/// How a failure to take a lock is told.
pub open spec fn io_message(error: Seq<char>, path: Seq<char>) -> Seq<char> {
    "lock IO error on "@ + path + ": "@ + error
}

impl LockError<String> {
    /// The error in words.
    pub fn message(&self) -> (r: String)
        ensures
            match self {
                LockError::Io(e, p) => r@ == io_message(e@, p@),
                LockError::Inner(e) => r@ == "inner error: "@ + e@,
            },
    {
        match self {
            LockError::Io(e, p) => {
                let start = text::concat("lock IO error on ", p.as_str());
                text::concat(text::concat(start.as_str(), ": ").as_str(), e.as_str())
            },
            LockError::Inner(e) => text::concat("inner error: ", e.as_str()),
        }
    }
}

} // verus!
