//! Telling the workspace that Zed writes from what it binds to a statement.
use vstd::prelude::*;

verus! {

/// The workspace that a binding tells: the value of the first parameter of the
/// statement that is being watched.
pub fn captured_workspace(is_watched: bool, index: i32, value: i64) -> (r: Option<i64>)
    ensures
        r == (if is_watched && index == 1 {
            Some(value)
        } else {
            None::<i64>
        }),
{
    if is_watched && index == 1 {
        Some(value)
    } else {
        None
    }
}

/// Whether the hook on bindings is there, given where the original function lies.
pub fn is_installed(original: usize) -> (r: bool)
    ensures
        r == (original != 0),
{
    original != 0
}

} // verus!
