//! What the patch tool decides: its arguments, its log files, its output.
use vstd::prelude::*;
use vstd::slice::slice_subrange;

use crate::components;
use crate::mapping::FoundFile;
use crate::search;
use crate::text;
use crate::workspace_db;

verus! {

broadcast use vstd::string::group_string_axioms;

pub open spec fn is_flag(a: Seq<char>) -> bool {
    a.len() > 0 && a[0] == '-'
}

fn looks_like_flag(a: &str) -> (r: bool)
    ensures
        r == is_flag(a@),
{
    let v = text::chars_of(a);
    v.len() > 0 && v[0] == '-'
}

/// The argument at an index, the program's name aside, is no flag.
pub open spec fn no_flag_at(args: Seq<Seq<char>>) -> spec_fn(int) -> bool {
    |i: int| i > 0 && !is_flag(args[i])
}

/// The first argument behind the program's name that is no flag.
pub fn first_non_flag(args: &[String]) -> (r: Option<&str>)
    ensures
        match search::first(args@.len(), no_flag_at(text::texts(args@))) {
            Some(i) => 0 <= i < args@.len() && (r matches Some(a) && a@ == args@[i]@),
            None => r is None,
        },
{
    let ghost p = no_flag_at(text::texts(args@));
    let mut i: usize = 0;
    while i < args.len()
        invariant
            i <= args.len(),
            p == no_flag_at(text::texts(args@)),
            forall|k: int| 0 <= k < i ==> !#[trigger] p(k),
        decreases args.len() - i,
    {
        if i > 0 && !looks_like_flag(args[i].as_str()) {
            proof {
                assert(p(i as int));
                search::lemma_first_is(args@.len(), p, i as int);
            }
            return Some(args[i].as_str());
        }
        i = i + 1;
    }
    proof {
        search::lemma_first(args@.len(), p);
    }
    None
}

/// Whether a flag is among the arguments.
pub fn has_flag(args: &[String], flag: &str) -> (r: bool)
    ensures
        r == text::texts(args@).contains(flag@),
{
    let mut i: usize = 0;
    while i < args.len()
        invariant
            i <= args.len(),
            forall|k: int| 0 <= k < i ==> args@[k]@ != flag@,
        decreases args.len() - i,
    {
        if text::text_eq(args[i].as_str(), flag) {
            assert(text::texts(args@)[i as int] == flag@);
            return true;
        }
        i = i + 1;
    }
    assert forall|k: int| 0 <= k < args@.len() implies text::texts(args@)[k] != flag@ by {
        assert(text::texts(args@)[k] == args@[k]@);
    }
    false
}

/// The arguments without the first occurrence of the subcommand.
pub open spec fn without_first(args: Seq<Seq<char>>, subcommand: Seq<char>) -> Seq<Seq<char>>
    decreases args.len(),
{
    if args.len() == 0 {
        args
    } else if args[0] == subcommand && !is_flag(args[0]) {
        args.skip(1)
    } else {
        seq![args[0]] + without_first(args.skip(1), subcommand)
    }
}

/// The arguments behind the program's name, without the first occurrence of the
/// subcommand.
pub fn strip_custom_subcommand(args: &[String], subcommand: &str) -> (r: Vec<String>)
    ensures
        text::texts(r@) == without_first(
            if args@.len() > 0 {
                text::texts(args@).skip(1)
            } else {
                text::texts(args@)
            },
            subcommand@,
        ),
{
    let ghost all = text::texts(args@);
    let mut r: Vec<String> = Vec::new();
    assert(text::texts(r@) == Seq::<Seq<char>>::empty());
    if args.len() == 0 {
        assert(all == Seq::<Seq<char>>::empty());
        return r;
    }
    let ghost want = without_first(all.skip(1), subcommand@);
    let mut removed = false;
    let mut i: usize = 1;
    assert(text::texts(r@) + want == want);
    while i < args.len()
        invariant
            1 <= i <= args.len(),
            all == text::texts(args@),
            want == without_first(all.skip(1), subcommand@),
            want == text::texts(r@) + (if removed {
                all.skip(i as int)
            } else {
                without_first(all.skip(i as int), subcommand@)
            }),
        decreases args.len() - i,
    {
        let ghost rest = all.skip(i as int);
        let ghost before = text::texts(r@);
        proof {
            assert(rest[0] == args@[i as int]@);
            assert(rest.skip(1) == all.skip(i + 1));
        }
        if !removed && !looks_like_flag(args[i].as_str()) && text::text_eq(
            args[i].as_str(),
            subcommand,
        ) {
            removed = true;
        } else {
            let a = args[i].clone();
            r.push(a);
            proof {
                assert(text::texts(r@) == before.push(a@));
                if removed {
                    assert(rest == seq![a@] + rest.skip(1));
                    assert(before + rest == before.push(a@) + rest.skip(1));
                } else {
                    let later = without_first(rest.skip(1), subcommand@);
                    assert(before + (seq![a@] + later) == before.push(a@) + later);
                }
            }
        }
        i = i + 1;
    }
    proof {
        assert(all.skip(args@.len() as int) == Seq::<Seq<char>>::empty());
        assert(want == text::texts(r@));
    }
    r
}

/// The arguments that the `stack` subcommand hands on: nothing is built unless
/// it is asked for, or a library is given.
pub fn stack_args(args: &[String]) -> (r: Vec<String>)
    ensures
        ({
            let kept = without_first(
                if args@.len() > 0 {
                    text::texts(args@).skip(1)
                } else {
                    text::texts(args@)
                },
                "stack"@,
            );
            text::texts(r@) == (if kept.contains("--no-build"@) || kept.contains("--dylib"@) {
                kept
            } else {
                kept.push("--no-build"@)
            })
        }),
{
    let mut r = strip_custom_subcommand(args, "stack");
    let ghost kept = text::texts(r@);
    if !has_flag(r.as_slice(), "--no-build") && !has_flag(r.as_slice(), "--dylib") {
        let a = "--no-build".to_string();
        r.push(a);
        assert(text::texts(r@) == kept.push("--no-build"@));
    }
    r
}

/// What the tool is asked to do.
#[derive(Debug, Clone, Copy, PartialEq, Eq, Structural)]
pub enum Task {
    StackHelp,
    DoctorHelp,
    /// The patcher's own help, with that of the tool's commands behind it.
    PatchHelp,
    Stack,
    Doctor,
    /// Anything else is the patcher's.
    Patch,
}

/// The subcommand among the arguments.
pub open spec fn subcommand(args: Seq<Seq<char>>) -> Option<Seq<char>> {
    match search::first(args.len(), no_flag_at(args)) {
        Some(i) => Some(args[i]),
        None => None,
    }
}

/// Decides what the tool is asked to do.
pub fn choose_task(args: &[String]) -> (r: Task)
    ensures
        ({
            let all = text::texts(args@);
            let help = all.contains("--help"@) || all.contains("-h"@);
            r == (if subcommand(all) == Some("stack"@) {
                if help {
                    Task::StackHelp
                } else {
                    Task::Stack
                }
            } else if subcommand(all) == Some("doctor"@) {
                if help {
                    Task::DoctorHelp
                } else {
                    Task::Doctor
                }
            } else if help {
                Task::PatchHelp
            } else {
                Task::Patch
            })
        }),
{
    let help = has_flag(args, "--help") || has_flag(args, "-h");
    proof {
        reveal_strlit("stack");
        reveal_strlit("doctor");
        assert("stack"@.len() != "doctor"@.len());
    }
    match first_non_flag(args) {
        Some(s) => if text::text_eq(s, "stack") {
            if help {
                Task::StackHelp
            } else {
                Task::Stack
            }
        } else if text::text_eq(s, "doctor") {
            if help {
                Task::DoctorHelp
            } else {
                Task::Doctor
            }
        } else if help {
            Task::PatchHelp
        } else {
            Task::Patch
        },
        None => if help {
            Task::PatchHelp
        } else {
            Task::Patch
        },
    }
}

/// A path with a leading `~/` replaced by the home directory, where that is known.
pub open spec fn expanded(path: Seq<char>, home: Option<Seq<char>>) -> Seq<char> {
    if "~/"@.is_prefix_of(path) && home is Some {
        components::join(home->0, path.skip(2))
    } else {
        path
    }
}

/// Expands a leading `~/`.
pub fn expand_tilde(path: &str, home: Option<&str>) -> (r: String)
    ensures
        r@ == expanded(path@, text::opt_str(home)),
{
    if let Some(h) = home {
        if text::starts_with_text(path, "~/") {
            let v = text::chars_of(path);
            let n: usize = v.len();
            proof {
                reveal_strlit("~/");
                assert(v@.subrange(2, n as int) == v@.skip(2));
            }
            let rest = text::text_of(slice_subrange(v.as_slice(), 2, n));
            return components::join_path(h, rest.as_str());
        }
    }
    path.to_string()
}

/// The first occurrence of a part of a pattern from a position on.
pub open spec fn occurs_from(s: Seq<char>, pos: int, part: Seq<char>) -> spec_fn(int) -> bool {
    |k: int| text::occurs_at(part, s, pos + k)
}

/// Where the text goes on behind the first `n` parts of a pattern, each taken at
/// its first occurrence behind the one before; the first part stands at the start.
pub open spec fn glob_position(s: Seq<char>, parts: Seq<Seq<char>>, n: nat) -> Option<int>
    decreases n,
{
    if n == 0 {
        Some(0)
    } else {
        match glob_position(s, parts, (n - 1) as nat) {
            None => None,
            Some(pos) => {
                let part = parts[n - 1];
                if part.len() == 0 {
                    Some(pos)
                } else {
                    match search::first((s.len() - pos + 1) as nat, occurs_from(s, pos, part)) {
                        Some(k) => if n == 1 && k != 0 {
                            None
                        } else {
                            Some(pos + k + part.len())
                        },
                        None => None,
                    }
                }
            },
        }
    }
}

/// The text matches the pattern, in which `*` stands for anything. The parts of
/// the pattern are taken at their first occurrences.
pub open spec fn matches_glob(s: Seq<char>, pattern: Seq<char>) -> bool {
    if !pattern.contains('*') {
        s == pattern
    } else {
        let parts = text::split_on(pattern, '*');
        match glob_position(s, parts, parts.len()) {
            Some(pos) => pattern.last() == '*' || pos == s.len(),
            None => false,
        }
    }
}

fn find_from(s: &[char], pos: usize, part: &[char]) -> (r: Option<usize>)
    requires
        pos <= s@.len(),
        part@.len() > 0,
    ensures
        match search::first((s@.len() - pos + 1) as nat, occurs_from(s@, pos as int, part@)) {
            Some(k) => r matches Some(i) && i == k && pos + i + part@.len() <= s@.len(),
            None => r is None,
        },
{
    let ghost p = occurs_from(s@, pos as int, part@);
    let ghost n = (s@.len() - pos + 1) as nat;
    let mut k: usize = 0;
    let len: usize = s.len();
    while k < len - pos
        invariant
            pos <= len == s@.len(),
            k <= len - pos,
            p == occurs_from(s@, pos as int, part@),
            n == s@.len() - pos + 1,
            forall|j: int| 0 <= j < k ==> !#[trigger] p(j),
        decreases len - pos - k,
    {
        if text::stands_here(s, part, pos + k) {
            proof {
                assert(p(k as int));
                search::lemma_first_is(n, p, k as int);
            }
            return Some(k);
        }
        assert(!p(k as int));
        k = k + 1;
    }
    proof {
        assert(!p(len - pos));
        search::lemma_first(n, p);
    }
    None
}

/// Whether a text matches a pattern in which `*` stands for anything.
pub fn matches_simple_glob(s: &str, pattern: &str) -> (r: bool)
    ensures
        r == matches_glob(s@, pattern@),
{
    let pat = text::chars_of(pattern);
    if text::find_char(pat.as_slice(), '*').is_none() {
        return text::text_eq(s, pattern);
    }
    let v = text::chars_of(s);
    let parts = text::split_text(pattern, '*');
    let ghost all = text::texts(parts@);
    let len: usize = v.len();
    let mut pos: usize = 0;
    let mut i: usize = 0;
    while i < parts.len()
        invariant
            i <= parts.len(),
            v@ == s@,
            pattern@.contains('*'),
            all == text::texts(parts@),
            all == text::split_on(pattern@, '*'),
            pos <= len == v@.len(),
            glob_position(s@, all, i as nat) == Some(pos as int),
        decreases parts.len() - i,
    {
        let part = text::chars_of(parts[i].as_str());
        assert(all[i as int] == part@);
        if part.len() > 0 {
            match find_from(v.as_slice(), pos, part.as_slice()) {
                Some(k) => {
                    if i == 0 && k != 0 {
                        proof {
                            assert(glob_position(s@, all, (i + 1) as nat) is None);
                            lemma_glob_stuck(s@, all, (i + 1) as nat, all.len());
                        }
                        return false;
                    }
                    pos = pos + k + part.len();
                },
                None => {
                    proof {
                        assert(glob_position(s@, all, (i + 1) as nat) is None);
                        lemma_glob_stuck(s@, all, (i + 1) as nat, all.len());
                    }
                    return false;
                },
            }
        }
        i = i + 1;
    }
    if pat.len() > 0 && pat[pat.len() - 1] == '*' {
        return true;
    }
    pos == len
}

proof fn lemma_glob_stuck(s: Seq<char>, parts: Seq<Seq<char>>, m: nat, n: nat)
    requires
        m <= n,
        glob_position(s, parts, m) is None,
    ensures
        glob_position(s, parts, n) is None,
    decreases n - m,
{
    if m < n {
        lemma_glob_stuck(s, parts, m, (n - 1) as nat);
    }
}

/// The file at `i` is the latest that matches the pattern, the last of several.
pub open spec fn is_latest(files: Seq<FoundFile>, pattern: Seq<char>, i: int) -> bool {
    &&& 0 <= i < files.len()
    &&& is_log(files[i], pattern)
    &&& forall|k: int|
        0 <= k < files.len() && is_log(files[k], pattern) ==> stamp(#[trigger] files[k]) <= stamp(
            files[i],
        )
    &&& forall|k: int|
        i < k < files.len() && is_log(files[k], pattern) ==> stamp(#[trigger] files[k]) < stamp(
            files[i],
        )
}

/// The name of the file matches the pattern.
pub open spec fn is_log(f: FoundFile, pattern: Seq<char>) -> bool {
    match components::file_name(f.path@) {
        Some(n) => matches_glob(n, pattern),
        None => false,
    }
}

/// The time of a file's last change; 0 where it is not known.
pub open spec fn stamp(f: FoundFile) -> int {
    match f.modified {
        Some(t) => t as int,
        None => 0,
    }
}

/// Picks the latest file whose name matches a pattern.
pub fn resolve_glob_latest(pattern: &str, files: &[FoundFile]) -> (r: Option<String>)
    ensures
        match r {
            Some(p) => exists|i: int| is_latest(files@, pattern@, i) && files@[i].path@ == p@,
            None => forall|k: int| 0 <= k < files@.len() ==> !is_log(#[trigger] files@[k], pattern@),
        },
{
    let mut best: Option<usize> = None;
    let mut i: usize = 0;
    while i < files.len()
        invariant
            i <= files.len(),
            match best {
                Some(b) => b < i && is_latest(files@.take(i as int), pattern@, b as int),
                None => forall|k: int| 0 <= k < i ==> !is_log(#[trigger] files@[k], pattern@),
            },
        decreases files.len() - i,
    {
        let ghost seen = files@.take(i as int);
        let ghost now = files@.take(i + 1);
        proof {
            assert forall|k: int| 0 <= k < i implies #[trigger] now[k] == seen[k] by {}
            assert(now[i as int] == files@[i as int]);
        }
        let fits = match components::file_name_of(files[i].path.as_str()) {
            Some(n) => matches_simple_glob(n.as_str(), pattern),
            None => false,
        };
        let later = match best {
            Some(b) => stamp_of(&files[i]) >= stamp_of(&files[b]),
            None => true,
        };
        if fits && later {
            proof {
                assert(is_latest(now, pattern@, i as int)) by {
                    assert forall|k: int|
                        0 <= k < now.len() && is_log(now[k], pattern@) implies stamp(
                        #[trigger] now[k],
                    ) <= stamp(now[i as int]) by {
                        if k < i {
                            assert(now[k] == files@[k]);
                            if let Some(b) = best {
                                assert(stamp(seen[k]) <= stamp(seen[b as int]));
                            }
                        }
                    }
                }
            }
            best = Some(i);
        } else if let Some(b) = best {
            proof {
                assert(is_latest(now, pattern@, b as int)) by {
                    assert forall|k: int|
                        0 <= k < now.len() && is_log(now[k], pattern@) implies stamp(
                        #[trigger] now[k],
                    ) <= stamp(now[b as int]) by {
                        if k < i {
                            assert(stamp(seen[k]) <= stamp(seen[b as int]));
                        }
                    }
                    assert forall|k: int|
                        b < k < now.len() && is_log(now[k], pattern@) implies stamp(
                        #[trigger] now[k],
                    ) < stamp(now[b as int]) by {
                        if k < i {
                            assert(stamp(seen[k]) < stamp(seen[b as int]));
                        }
                    }
                }
            }
        }
        i = i + 1;
    }
    assert(files@.take(files@.len() as int) == files@);
    match best {
        Some(b) => Some(files[b].path.clone()),
        None => None,
    }
}

fn stamp_of(f: &FoundFile) -> (r: i128)
    ensures
        r == stamp(*f),
{
    match f.modified {
        Some(t) => t,
        None => 0,
    }
}

/// The places where the database of an application may lie, in the order in
/// which they are tried.
pub fn detect_db_path(home: &str, app_id: &str) -> (r: Vec<String>)
    ensures
        ({
            let dir = workspace_db::db_dir_in(home@);
            text::texts(r@) == (if app_id@ == "zed-stable"@ {
                seq![
                    components::join(dir, "0/db.sqlite"@),
                    components::join(dir, "0-stable/db.sqlite"@),
                ]
            } else {
                seq![
                    components::join(dir, "0-preview/db.sqlite"@),
                    components::join(dir, "0/db.sqlite"@),
                ]
            })
        }),
{
    let dir = components::join_path(home, "Library/Application Support/Zed/db");
    let (first, second) = if text::text_eq(app_id, "zed-stable") {
        ("0/db.sqlite", "0-stable/db.sqlite")
    } else {
        ("0-preview/db.sqlite", "0/db.sqlite")
    };
    let a = components::join_path(dir.as_str(), first);
    let b = components::join_path(dir.as_str(), second);
    let ghost both = seq![a@, b@];
    let mut r: Vec<String> = Vec::new();
    r.push(a);
    r.push(b);
    assert(text::texts(r@) =~= both);
    r
}

/// The last lines of a text, at most `n`.
pub fn last_lines(content: &str, n: usize) -> (r: Vec<String>)
    ensures
        ({
            let all = text::lines(content@);
            text::texts(r@) == (if all.len() > n {
                all.skip(all.len() - n)
            } else {
                all
            })
        }),
{
    let lines = text::lines_of(content);
    let ghost all = text::texts(lines@);
    let len: usize = lines.len();
    assert(all.len() == len);
    let start: usize = if len > n {
        len - n
    } else {
        0
    };
    let mut r: Vec<String> = Vec::new();
    let mut i: usize = start;
    assert(text::texts(r@) =~= all.subrange(start as int, start as int));
    while i < len
        invariant
            start <= i <= len == lines.len(),
            all == text::texts(lines@),
            text::texts(r@) == all.subrange(start as int, i as int),
        decreases len - i,
    {
        let l = lines[i].clone();
        let ghost before = text::texts(r@);
        r.push(l);
        i = i + 1;
        assert(text::texts(r@) == before.push(l@));
        assert(text::texts(r@) == all.subrange(start as int, i as int));
    }
    assert(all.subrange(start as int, len as int) == all.skip(start as int));
    assert(all.skip(0) == all);
    r
}

/// The line holds a result.
pub open spec fn holds_result(lines: Seq<Seq<char>>) -> spec_fn(int) -> bool {
    |i: int| text::occurs_in("\"result\""@, lines[i])
}

/// The line of a server's output that is shown: the first with a result, else
/// the first line, unless all is blank.
pub fn result_line(output: &str) -> (r: Option<String>)
    ensures
        ({
            let all = text::lines(output@);
            text::opt(r) == match search::first(all.len(), holds_result(all)) {
                Some(i) => Some(all[i]),
                None => if text::trim(output@).len() == 0 {
                    None
                } else if all.len() > 0 {
                    Some(all[0])
                } else {
                    Some(Seq::<char>::empty())
                },
            }
        }),
{
    let lines = text::lines_of(output);
    let ghost all = text::texts(lines@);
    let ghost p = holds_result(all);
    let mut i: usize = 0;
    while i < lines.len()
        invariant
            i <= lines.len(),
            all == text::texts(lines@),
            all == text::lines(output@),
            p == holds_result(all),
            forall|k: int| 0 <= k < i ==> !#[trigger] p(k),
        decreases lines.len() - i,
    {
        assert(all[i as int] == lines@[i as int]@);
        if text::contains_text(lines[i].as_str(), "\"result\"") {
            proof {
                assert(p(i as int));
                search::lemma_first_is(all.len(), p, i as int);
            }
            return Some(lines[i].clone());
        }
        i = i + 1;
    }
    proof {
        search::lemma_first(all.len(), p);
    }
    if text::trim_text(output).as_str().is_empty() {
        None
    } else if lines.len() > 0 {
        assert(all[0] == lines@[0]@);
        Some(lines[0].clone())
    } else {
        let none = String::new();
        assert(none@ == Seq::<char>::empty());
        Some(none)
    }
}

/// The lines of the given ones that name an injected library, without
/// surrounding white space.
pub open spec fn hook_lines(lines: Seq<Seq<char>>) -> Seq<Seq<char>>
    decreases lines.len(),
{
    if lines.len() == 0 {
        lines
    } else {
        let before = hook_lines(lines.drop_last());
        if text::occurs_in("yolo"@, lines.last()) || text::occurs_in("prj"@, lines.last()) {
            before.push(text::trim(lines.last()))
        } else {
            before
        }
    }
}

/// Picks the injected libraries from a list of libraries.
pub fn injected_hooks(output: &str) -> (r: Vec<String>)
    ensures
        text::texts(r@) == hook_lines(text::lines(output@)),
{
    let lines = text::lines_of(output);
    let ghost all = text::texts(lines@);
    let mut r: Vec<String> = Vec::new();
    let mut i: usize = 0;
    assert(all.take(0) == Seq::<Seq<char>>::empty());
    assert(text::texts(r@) == Seq::<Seq<char>>::empty());
    while i < lines.len()
        invariant
            i <= lines.len(),
            all == text::texts(lines@),
            text::texts(r@) == hook_lines(all.take(i as int)),
        decreases lines.len() - i,
    {
        let ghost before = text::texts(r@);
        proof {
            assert(all.take(i + 1).drop_last() == all.take(i as int));
            assert(all.take(i + 1).last() == lines@[i as int]@);
        }
        let line = lines[i].as_str();
        if text::contains_text(line, "yolo") || text::contains_text(line, "prj") {
            let t = text::trim_text(line);
            r.push(t);
            assert(text::texts(r@) == before.push(t@));
        }
        i = i + 1;
    }
    assert(all.take(all.len() as int) == all);
    r
}

/// What is done about the server while its answer is awaited.
#[derive(Debug, Clone, Copy, PartialEq, Eq, Structural)]
pub enum Wait {
    /// It has ended: its output is taken.
    Take,
    /// It has had its time: it is stopped, and there is no answer.
    GiveUp,
    /// It is looked at again after some milliseconds.
    Sleep { ms: u64 },
}

/// Decides what is done about the server, which has run for some milliseconds of
/// those that it gets. One that has ended is never given up.
pub fn await_answer(ended: bool, waited_ms: u64, limit_ms: u64) -> (r: Wait)
    ensures
        r == (if ended {
            Wait::Take
        } else if waited_ms >= limit_ms {
            Wait::GiveUp
        } else {
            Wait::Sleep { ms: 100 }
        }),
{
    if ended {
        Wait::Take
    } else if waited_ms >= limit_ms {
        Wait::GiveUp
    } else {
        Wait::Sleep { ms: 100 }
    }
}

/// What is done about an application that was asked to quit.
#[derive(Debug, Clone, Copy, PartialEq, Eq, Structural)]
pub enum Quit {
    /// It has ended.
    Stopped,
    /// It is looked at again after some milliseconds.
    Sleep { ms: u64 },
    /// It is killed, and gets some milliseconds to end.
    Kill { ms: u64 },
}

/// Decides what is done about an application that was asked to quit, and has been
/// waited for a number of times since. It is waited for ten times, and then killed.
pub fn await_quit(running: bool, waits: u64) -> (r: Quit)
    ensures
        r == (if !running {
            Quit::Stopped
        } else if waits < 10 {
            Quit::Sleep { ms: 500 }
        } else {
            Quit::Kill { ms: 2000 }
        }),
{
    if !running {
        Quit::Stopped
    } else if waits < 10 {
        Quit::Sleep { ms: 500 }
    } else {
        Quit::Kill { ms: 2000 }
    }
}

} // verus!
