//! Showing the target folder first in Zed's project picker: reading the entries
//! of a sorted list out of memory, and moving one of them to the front.
use vstd::prelude::*;
use vstd::slice::slice_subrange;

use crate::search;
use crate::text;

verus! {

broadcast use vstd::string::group_string_axioms;

/// The size of an entry of the picker, in bytes.
pub const ENTRY_SIZE: usize = 88;

/// The first three words of an entry, which hold its name.
#[derive(Debug, Clone, Copy)]
pub struct NameWords {
    /// 0 for borrowed text, 1 for text behind the two counters of a shared allocation.
    pub tag: u64,
    pub base: u64,
    /// The length of the text in bytes.
    pub len: u64,
}

/// Where the text of a name starts.
pub open spec fn text_start(w: NameWords) -> int {
    (w.base + w.tag * 16) % 0x1_0000_0000_0000_0000
}

/// The words can be those of a name.
pub open spec fn is_plausible(w: NameWords) -> bool {
    w.tag <= 1 && w.base != 0 && 0 < w.len <= 4096 && text_start(w) >= 0x1000
}

/// Where the text of an entry's name lies: its address and its length. Nothing
/// is returned where there is no entry, or where its words cannot be those of a name.
pub fn read_entry_name(words: Option<NameWords>) -> (r: Option<(u64, u64)>)
    ensures
        match words {
            None => r is None,
            Some(w) => if is_plausible(w) {
                r == Some((text_start(w) as u64, w.len))
            } else {
                r is None
            },
        },
{
    let w = match words {
        Some(w) => w,
        None => {
            return None;
        },
    };
    if w.tag > 1 || w.base == 0 || w.len == 0 || w.len > 4096 {
        return None;
    }
    let start: u64 = w.base.wrapping_add(w.tag * 16);
    if start < 0x1000 {
        return None;
    }
    Some((start, w.len))
}

/// The name at an index is the given one.
pub open spec fn is_name_at(names: Seq<Option<String>>, target: Seq<char>) -> spec_fn(int) -> bool {
    |i: int| text::opt(names[i]) == Some(target)
}

/// The index of the entry that has to move to the front: the first one with the
/// target's name, unless it stands there.
pub fn find_target(names: &[Option<String>], target: &str) -> (r: Option<usize>)
    ensures
        match search::first(names@.len(), is_name_at(names@, target@)) {
            Some(i) => if i > 0 {
                r matches Some(k) && k == i && k < names@.len()
            } else {
                r is None
            },
            None => r is None,
        },
{
    let ghost p = is_name_at(names@, target@);
    let mut i: usize = 0;
    while i < names.len()
        invariant
            i <= names.len(),
            p == is_name_at(names@, target@),
            forall|k: int| 0 <= k < i ==> !#[trigger] p(k),
        decreases names.len() - i,
    {
        if let Some(n) = &names[i] {
            if text::text_eq(n.as_str(), target) {
                proof {
                    assert(p(i as int));
                    search::lemma_first_is(names@.len(), p, i as int);
                }
                return if i > 0 {
                    Some(i)
                } else {
                    None
                };
            }
        }
        i = i + 1;
    }
    proof {
        search::lemma_first(names@.len(), p);
    }
    None
}

/// The bytes of the entry at an index.
pub open spec fn entry(data: Seq<u8>, i: int) -> Seq<u8> {
    data.subrange(i * ENTRY_SIZE, (i + 1) * ENTRY_SIZE)
}

/// The bytes with the entry at an index moved in front of all others.
pub open spec fn rotated(data: Seq<u8>, i: int) -> Seq<u8> {
    entry(data, i) + data.take(i * ENTRY_SIZE) + data.skip((i + 1) * ENTRY_SIZE)
}

/// Moves the entry at an index to the front, and the entries before it one place
/// towards the end.
pub fn pin_target_to_front(data: &[u8], index: usize) -> (r: Vec<u8>)
    requires
        (index + 1) * ENTRY_SIZE <= data@.len(),
    ensures
        r@ == rotated(data@, index as int),
        r@.len() == data@.len(),
{
    let n: usize = data.len();
    assert(0 <= index * ENTRY_SIZE <= (index + 1) * ENTRY_SIZE <= n) by (nonlinear_arith)
        requires
            (index + 1) * ENTRY_SIZE <= n,
            ENTRY_SIZE == 88,
    ;
    assert(index * ENTRY_SIZE + ENTRY_SIZE == (index + 1) * ENTRY_SIZE) by (nonlinear_arith);
    let start: usize = index * ENTRY_SIZE;
    let end: usize = start + ENTRY_SIZE;
    let mut r: Vec<u8> = Vec::new();
    append(&mut r, slice_subrange(data, start, end));
    append(&mut r, slice_subrange(data, 0, start));
    append(&mut r, slice_subrange(data, end, n));
    assert(r@ == rotated(data@, index as int));
    r
}

fn append(r: &mut Vec<u8>, part: &[u8])
    ensures
        final(r)@ == old(r)@ + part@,
{
    let ghost start = r@;
    let mut i: usize = 0;
    while i < part.len()
        invariant
            i <= part.len(),
            start == old(r)@,
            r@ == start + part@.take(i as int),
        decreases part.len() - i,
    {
        r.push(part[i]);
        i = i + 1;
        assert(part@.take(i as int) == part@.take(i - 1).push(part@[i - 1]));
    }
    assert(part@.take(part@.len() as int) == part@);
}

/// Moving an entry to the front keeps all entries: it comes first, those before
/// it move up by one, and those behind it stay.
pub proof fn lemma_rotated_entries(data: Seq<u8>, i: int, k: int)
    requires
        0 <= i,
        0 <= k,
        (i + 1) * ENTRY_SIZE <= data.len(),
        (k + 1) * ENTRY_SIZE <= data.len(),
    ensures
        entry(rotated(data, i), k) == (if k == 0 {
            entry(data, i)
        } else if k <= i {
            entry(data, k - 1)
        } else {
            entry(data, k)
        }),
{
    let s = ENTRY_SIZE as int;
    assert(s == 88);
    let out = rotated(data, i);
    assert(entry(out, k) =~= (if k == 0 {
        entry(data, i)
    } else if k <= i {
        entry(data, k - 1)
    } else {
        entry(data, k)
    }));
}

} // verus!
