//! Finding the functions of Zed that the hook replaces, by patterns in their names.
use vstd::prelude::*;

use crate::search;
use crate::text;

verus! {

broadcast use vstd::string::group_string_axioms;

/// The name holds all wanted patterns and no unwanted one.
pub open spec fn fits(name: Seq<char>, wanted: Seq<Seq<char>>, unwanted: Seq<Seq<char>>) -> bool {
    &&& forall|i: int| 0 <= i < wanted.len() ==> text::occurs_in(#[trigger] wanted[i], name)
    &&& forall|i: int| 0 <= i < unwanted.len() ==> !text::occurs_in(#[trigger] unwanted[i], name)
}

pub open spec fn fits_at(
    names: Seq<Seq<char>>,
    wanted: Seq<Seq<char>>,
    unwanted: Seq<Seq<char>>,
) -> spec_fn(int) -> bool {
    |i: int| fits(names[i], wanted, unwanted)
}

/// Where a function was found.
#[derive(Debug, Clone, Copy, PartialEq, Eq, Structural)]
pub enum Place {
    /// Among the exports, at an index.
    Export(usize),
    /// Among the other symbols, at an index.
    Symbol(usize),
}

/// The first export that fits, else the first symbol that does.
pub open spec fn found(
    exports: Seq<Seq<char>>,
    symbols: Seq<Seq<char>>,
    wanted: Seq<Seq<char>>,
    unwanted: Seq<Seq<char>>,
) -> Option<Place> {
    match search::first(exports.len(), fits_at(exports, wanted, unwanted)) {
        Some(i) => Some(Place::Export(i as usize)),
        None => match search::first(symbols.len(), fits_at(symbols, wanted, unwanted)) {
            Some(i) => Some(Place::Symbol(i as usize)),
            None => None,
        },
    }
}

fn name_fits(name: &str, wanted: &[String], unwanted: &[String]) -> (r: bool)
    ensures
        r == fits(name@, text::texts(wanted@), text::texts(unwanted@)),
{
    let ghost w = text::texts(wanted@);
    let ghost u = text::texts(unwanted@);
    let mut i: usize = 0;
    while i < wanted.len()
        invariant
            i <= wanted.len(),
            w == text::texts(wanted@),
            forall|k: int| 0 <= k < i ==> text::occurs_in(#[trigger] w[k], name@),
        decreases wanted.len() - i,
    {
        if !text::contains_text(name, wanted[i].as_str()) {
            assert(w[i as int] == wanted@[i as int]@);
            return false;
        }
        i = i + 1;
    }
    let mut j: usize = 0;
    while j < unwanted.len()
        invariant
            j <= unwanted.len(),
            u == text::texts(unwanted@),
            forall|k: int| 0 <= k < j ==> !text::occurs_in(#[trigger] u[k], name@),
        decreases unwanted.len() - j,
    {
        if text::contains_text(name, unwanted[j].as_str()) {
            assert(u[j as int] == unwanted@[j as int]@);
            return false;
        }
        j = j + 1;
    }
    true
}

fn find_in(names: &[String], wanted: &[String], unwanted: &[String]) -> (r: Option<usize>)
    ensures
        match search::first(
            names@.len(),
            fits_at(text::texts(names@), text::texts(wanted@), text::texts(unwanted@)),
        ) {
            Some(i) => r matches Some(k) && k == i && k < names@.len(),
            None => r is None,
        },
{
    let ghost p = fits_at(text::texts(names@), text::texts(wanted@), text::texts(unwanted@));
    let mut i: usize = 0;
    while i < names.len()
        invariant
            i <= names.len(),
            p == fits_at(text::texts(names@), text::texts(wanted@), text::texts(unwanted@)),
            forall|k: int| 0 <= k < i ==> !#[trigger] p(k),
        decreases names.len() - i,
    {
        if name_fits(names[i].as_str(), wanted, unwanted) {
            proof {
                assert(p(i as int));
                search::lemma_first_is(names@.len(), p, i as int);
            }
            return Some(i);
        }
        i = i + 1;
    }
    proof {
        search::lemma_first(names@.len(), p);
    }
    None
}

/// Finds a function by patterns in its name: among the exports first, then among
/// the other symbols.
pub fn find_by_pattern(
    exports: &[String],
    symbols: &[String],
    wanted: &[String],
    unwanted: &[String],
) -> (r: Option<Place>)
    ensures
        r == found(
            text::texts(exports@),
            text::texts(symbols@),
            text::texts(wanted@),
            text::texts(unwanted@),
        ),
{
    match find_in(exports, wanted, unwanted) {
        Some(i) => Some(Place::Export(i)),
        None => match find_in(symbols, wanted, unwanted) {
            Some(i) => Some(Place::Symbol(i)),
            None => None,
        },
    }
}

/// The patterns of the function that sorts the project picker.
pub open spec fn picker_patterns() -> Seq<Seq<char>> {
    seq!["driftsort_main"@, "get_open_folders"@, "OpenFolderEntry"@]
}

/// The patterns of the function that sorts it in older versions of Zed.
pub open spec fn legacy_picker_patterns() -> Seq<Seq<char>> {
    seq!["insertion_sort_shift_left"@, "get_open_folders"@, "OpenFolderEntry"@]
}

/// The patterns of functions that only look like it.
pub open spec fn picker_exclusions() -> Seq<Seq<char>> {
    seq!["drop_in_place"@, "vtable"@]
}

fn patterns(first: &str) -> (r: Vec<String>)
    ensures
        text::texts(r@) == seq![first@, "get_open_folders"@, "OpenFolderEntry"@],
{
    let mut r: Vec<String> = Vec::new();
    r.push(first.to_string());
    r.push("get_open_folders".to_string());
    r.push("OpenFolderEntry".to_string());
    assert(text::texts(r@) =~= seq![first@, "get_open_folders"@, "OpenFolderEntry"@]);
    r
}

/// Finds the function that sorts the project picker: the one of current versions
/// of Zed, else the one of older versions.
pub fn find_picker_sort(exports: &[String], symbols: &[String]) -> (r: Option<Place>)
    ensures
        ({
            let (e, s) = (text::texts(exports@), text::texts(symbols@));
            r == match found(e, s, picker_patterns(), picker_exclusions()) {
                Some(p) => Some(p),
                None => found(e, s, legacy_picker_patterns(), picker_exclusions()),
            }
        }),
{
    let mut unwanted: Vec<String> = Vec::new();
    unwanted.push("drop_in_place".to_string());
    unwanted.push("vtable".to_string());
    assert(text::texts(unwanted@) =~= picker_exclusions());
    let current = patterns("driftsort_main");
    match find_by_pattern(exports, symbols, current.as_slice(), unwanted.as_slice()) {
        Some(p) => Some(p),
        None => {
            let legacy = patterns("insertion_sort_shift_left");
            find_by_pattern(exports, symbols, legacy.as_slice(), unwanted.as_slice())
        },
    }
}

} // verus!
