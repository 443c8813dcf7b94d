use zed_prj_workspace::mapping::FoundFile;
use zed_prj_workspace::xtask::{
    await_answer, await_quit, choose_task, detect_db_path, expand_tilde, first_non_flag, has_flag,
    injected_hooks, last_lines, matches_simple_glob, resolve_glob_latest, result_line, stack_args,
    strip_custom_subcommand, Quit, Task, Wait,
};

fn texts(v: &[&str]) -> Vec<String> {
    v.iter().map(|t| t.to_string()).collect()
}

#[test]
fn the_answer_is_awaited_for_its_time() {
    assert_eq!(await_answer(false, 0, 5000), Wait::Sleep { ms: 100 });
    assert_eq!(await_answer(false, 4999, 5000), Wait::Sleep { ms: 100 });
    assert_eq!(await_answer(false, 5000, 5000), Wait::GiveUp);
    assert_eq!(await_answer(true, 9000, 5000), Wait::Take);
}

#[test]
fn an_application_that_stays_is_killed() {
    assert_eq!(await_quit(false, 0), Quit::Stopped);
    assert_eq!(await_quit(true, 0), Quit::Sleep { ms: 500 });
    assert_eq!(await_quit(true, 9), Quit::Sleep { ms: 500 });
    assert_eq!(await_quit(true, 10), Quit::Kill { ms: 2000 });
    assert_eq!(await_quit(false, 10), Quit::Stopped);
}

#[test]
fn arguments() {
    let args = texts(&["xtask", "--verbose", "doctor", "stack"]);
    assert_eq!(first_non_flag(&args), Some("doctor"));
    assert_eq!(first_non_flag(&texts(&["xtask", "-h"])), None);
    assert!(has_flag(&args, "--verbose"));
    assert!(!has_flag(&args, "-v"));
    assert_eq!(strip_custom_subcommand(&args, "stack"), texts(&["--verbose", "doctor"]));
    assert_eq!(
        strip_custom_subcommand(&texts(&["x", "stack", "stack"]), "stack"),
        texts(&["stack"])
    );
    assert!(strip_custom_subcommand(&[], "stack").is_empty());
}

#[test]
fn stacking_builds_nothing_unless_asked() {
    assert_eq!(stack_args(&texts(&["x", "stack"])), texts(&["--no-build"]));
    assert_eq!(
        stack_args(&texts(&["x", "stack", "--dylib", "a"])),
        texts(&["--dylib", "a"])
    );
    assert_eq!(stack_args(&texts(&["x", "--no-build", "stack"])), texts(&["--no-build"]));
}

#[test]
fn tasks() {
    let task = |v: &[&str]| choose_task(&texts(v));
    assert_eq!(task(&["x", "stack"]), Task::Stack);
    assert_eq!(task(&["x", "stack", "-h"]), Task::StackHelp);
    assert_eq!(task(&["x", "doctor"]), Task::Doctor);
    assert_eq!(task(&["x", "--help", "doctor"]), Task::DoctorHelp);
    assert_eq!(task(&["x", "--help"]), Task::PatchHelp);
    assert_eq!(task(&["x", "verify"]), Task::Patch);
    assert_eq!(task(&["x"]), Task::Patch);
}

#[test]
fn tilde() {
    assert_eq!(expand_tilde("~/a/b", Some("/h")), "/h/a/b");
    assert_eq!(expand_tilde("~/a", None), "~/a");
    assert_eq!(expand_tilde("~a", Some("/h")), "~a");
    assert_eq!(expand_tilde("/a/~/b", Some("/h")), "/a/~/b");
}

#[test]
fn globs() {
    for (text, pattern, want) in [
        ("hook.log", "hook.log", true),
        ("hook.log", "hook", false),
        ("hook-1.log", "hook-*.log", true),
        ("xhook-1.log", "hook-*.log", false),
        ("hook-1.log.gz", "hook-*.log", false),
        ("hook-1.log.gz", "hook-*.log*", true),
        ("anything", "*", true),
        ("", "*", true),
        ("abc", "a*b*c", true),
        ("acb", "a*b*c", false),
        ("a.log.log", "*.log", false),
        ("", "", true),
    ] {
        assert_eq!(matches_simple_glob(text, pattern), want, "{} {}", text, pattern);
    }
}

fn found(path: &str, modified: Option<i128>) -> FoundFile {
    FoundFile { path: path.to_string(), modified }
}

#[test]
fn latest_log() {
    let files = [
        found("/l/hook-1.log", Some(5)),
        found("/l/hook-2.log", Some(9)),
        found("/l/other.log", Some(99)),
        found("/l/hook-3.log", Some(9)),
        found("/l/hook-4.log", None),
    ];
    assert_eq!(resolve_glob_latest("hook-*.log", &files).as_deref(), Some("/l/hook-3.log"));
    assert_eq!(resolve_glob_latest("none*", &files), None);
}

#[test]
fn databases_of_an_application() {
    let dir = "/h/Library/Application Support/Zed/db";
    assert_eq!(
        detect_db_path("/h", "zed-stable"),
        vec![format!("{}/0/db.sqlite", dir), format!("{}/0-stable/db.sqlite", dir)]
    );
    assert_eq!(
        detect_db_path("/h", "zed-preview"),
        vec![format!("{}/0-preview/db.sqlite", dir), format!("{}/0/db.sqlite", dir)]
    );
}

#[test]
fn output_lines() {
    assert_eq!(last_lines("a\nb\nc\n", 2), texts(&["b", "c"]));
    assert_eq!(last_lines("a", 5), texts(&["a"]));
    assert!(last_lines("", 5).is_empty());
    assert_eq!(
        result_line("log\n{\"result\": 1}\n{\"result\": 2}").as_deref(),
        Some("{\"result\": 1}")
    );
    assert_eq!(result_line("first\nsecond").as_deref(), Some("first"));
    assert_eq!(result_line(" \n "), None);
    assert_eq!(
        injected_hooks("\t/a/libyolo.dylib (x)\n/usr/lib/libc\n  /b/zed_prj.dylib  "),
        texts(&["/a/libyolo.dylib (x)", "/b/zed_prj.dylib"])
    );
}
