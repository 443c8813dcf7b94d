use zed_prj_workspace::hook_client::{
    hook_channel, invoke_zed_add, invoke_zed_reuse, read_reply, HookClient, HookResponse,
    InvocationEvent, InvocationStep,
};
use zed_prj_workspace::mapping::FoundFile;

fn texts(v: &[&str]) -> Vec<String> {
    v.iter().map(|t| t.to_string()).collect()
}

fn json(text: &str) -> serde_json::Value {
    serde_json::from_str(text).unwrap()
}

fn reply(ok: bool, error: Option<&str>) -> HookResponse {
    HookResponse { ok, error: error.map(String::from), raw: serde_json::Value::Null }
}

#[test]
fn requests() {
    let client = HookClient { socket_path: "/tmp/x.sock".to_string() };
    assert_eq!(client.ping(), r#"{"cmd":"ping"}"#);
    assert_eq!(
        client.add_folders(&texts(&["/a", "/b \"c\""])),
        r#"{"cmd":"add_folders","paths":["/a","/b \"c\""]}"#
    );
    assert_eq!(client.reuse_folders(&[]), r#"{"cmd":"reuse_folders","paths":[]}"#);
    assert!(!client.add_folders(&texts(&["/a\nb"])).contains('\n'));
}

#[test]
fn replies() {
    assert!(read_reply(" \n").is_none());
    let ok = read_reply("{\"ok\":true}\n").unwrap().unwrap();
    assert_eq!(ok, HookResponse { ok: true, error: None, raw: json("{\"ok\":true}") });
    let reply = r#"{"ok":false,"error":"why","pid":7}"#;
    let refused = read_reply(reply).unwrap().unwrap();
    assert_eq!((refused.ok, refused.error.as_deref()), (false, Some("why")));
    assert_eq!(refused.raw, json(reply));
    assert_eq!(refused.raw["pid"], 7);
    let odd = read_reply("[1]").unwrap().unwrap();
    assert_eq!(odd, HookResponse { ok: false, error: None, raw: json("[1]") });
    let bad = read_reply("{").unwrap().unwrap_err();
    assert!(bad.starts_with("parse response: EOF"), "{}", bad);
}

#[test]
fn default_hook_channel() {
    assert_eq!(hook_channel(None), "preview");
    assert_eq!(hook_channel(Some("stable")), "stable");
}

#[test]
fn a_hook_that_did_it_ends_the_command() {
    let add = invoke_zed_add("/new", Some("preview"), Some("/root"));
    assert_eq!(add.paths, texts(&["/root", "/new"]));
    assert_eq!(add.hook_request(), r#"{"cmd":"add_folders","paths":["/root","/new"]}"#);
    let step = add.next(InvocationEvent::HookReplied(reply(true, None)));
    assert!(matches!(step, InvocationStep::Done { by_hook: true }));
}

#[test]
fn no_hook_leaves_it_to_the_program() {
    let reuse = invoke_zed_reuse(&texts(&["/a", "/b"]), Some("preview")).unwrap();
    let refusal = reply(false, Some("no"));
    for event in [InvocationEvent::NoHook, InvocationEvent::HookReplied(refusal)] {
        match reuse.next(event) {
            InvocationStep::RunCli { program, args } => {
                assert_eq!(program, "zed-preview");
                assert_eq!(args, texts(&["--reuse", "/a", "/b"]));
            }
            other => panic!("{:?}", other),
        }
    }
    let done = reuse.next(InvocationEvent::CliSucceeded);
    assert!(matches!(done, InvocationStep::Done { by_hook: false }));
}

#[test]
fn failures_in_words() {
    let add = invoke_zed_add("/a", None, None);
    let message = |event| match add.next(event) {
        InvocationStep::Failed(m) => m,
        other => panic!("{:?}", other),
    };
    assert_eq!(message(InvocationEvent::HookFailed("broken pipe".to_string())), "broken pipe");
    let failed = InvocationEvent::CliFailed {
        status: "exit status: 1".to_string(),
        stderr: "oops".to_string(),
    };
    assert_eq!(message(failed), "zed --add exited exit status: 1: oops");
    let missing = InvocationEvent::CliNotStarted("not found".to_string());
    assert_eq!(message(missing), "failed to invoke zed: not found");
}

#[test]
fn reuse_needs_paths() {
    assert_eq!(invoke_zed_reuse(&[], None).unwrap_err(), "no paths for reuse");
}

#[test]
fn the_newest_socket_is_talked_to() {
    let file = |path: &str, modified| FoundFile { path: path.to_string(), modified };
    let files = [
        file("/tmp/zed-prj-workspace-preview-1.sock", Some(1)),
        file("/tmp/zed-prj-workspace-preview-2.sock", Some(2)),
        file("/tmp/zed-prj-workspace-stable-3.sock", Some(3)),
    ];
    let client = HookClient::connect(None, &files).unwrap();
    assert_eq!(client.socket_path, "/tmp/zed-prj-workspace-preview-2.sock");
    let client = HookClient::connect(Some("stable"), &files).unwrap();
    assert_eq!(client.socket_path, "/tmp/zed-prj-workspace-stable-3.sock");
}

#[test]
fn connect_nonexistent_returns_none() {
    assert!(HookClient::connect(Some("test-nonexistent"), &[]).is_none());
}
