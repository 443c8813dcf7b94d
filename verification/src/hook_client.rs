//! Talking to the hook inside Zed, and falling back to Zed's command line
//! program where no hook answers.
use vstd::prelude::*;

use crate::json;
use crate::json::{Entry, Field, Scalar};
use crate::mapping;
use crate::mapping::FoundFile;
use crate::paths;
use crate::text;

verus! {

broadcast use vstd::string::group_string_axioms;

/// What the hook answered.
#[derive(Debug, PartialEq, Eq)]
pub struct HookResponse {
    pub ok: bool,
    pub error: Option<String>,
    /// The whole answer.
    pub raw: serde_json::Value,
}

/// A connection to the hook of a running Zed.
#[derive(Debug)]
pub struct HookClient {
    pub socket_path: String,
}

/// The entries of a request without paths.
pub open spec fn bare_request(cmd: Seq<char>) -> json::Entries {
    json::no_entries().insert("cmd"@, Entry::Text(cmd))
}

/// The entries of a request with paths.
pub open spec fn paths_request(cmd: Seq<char>, paths: Seq<Seq<char>>) -> json::Entries {
    bare_request(cmd).insert("paths"@, json::texts(paths))
}

/// The truth value that a text's object holds under a key; `false` where it holds none.
pub open spec fn flag_in(s: Seq<char>, key: Seq<char>) -> bool {
    match json::object_in(s) {
        Some(m) => m.contains_key(key) && m[key] == Entry::Flag(true),
        None => false,
    }
}

/// The string that a text's object holds under a key.
pub open spec fn string_in(s: Seq<char>, key: Seq<char>) -> Option<Seq<char>> {
    match json::object_in(s) {
        Some(m) => if m.contains_key(key) && m[key] is Text {
            Some(m[key]->Text_0)
        } else {
            None
        },
        None => None,
    }
}

fn request_text(cmd: &str, paths: Option<&[String]>) -> (r: String)
    ensures
        ({
            let m = match paths {
                Some(p) => paths_request(cmd@, text::texts(p@)),
                None => bare_request(cmd@),
            };
            r@ == json::compact(m) && json::object_in(r@) == Some(m)
        }),
        !r@.contains('\n'),
{
    let mut m = json::new_object();
    json::put(&mut m, "cmd", Scalar::Text(cmd.to_string()));
    if let Some(p) = paths {
        json::put(&mut m, "paths", Scalar::Texts(paths::copy_texts(p)));
    }
    proof {
        let all = json::entries(m);
        assert forall|k: Seq<char>| #[trigger] all.contains_key(k) implies json::is_shallow(
            all[k],
        ) by {
            assert(k == "cmd"@ || k == "paths"@);
        }
        json::lemma_shallow(all);
    }
    json::to_compact(&m).unwrap()
}

impl HookClient {
    /// The hook of a channel to talk to, the preview's where none is given: the
    /// newest socket among the files of the sockets' directory. Nothing is said of
    /// whether anyone listens there.
    pub fn connect(channel: Option<&str>, files: &[FoundFile]) -> (r: Option<HookClient>)
        ensures
            match r {
                Some(c) => exists|i: int|
                    mapping::is_newest(files@, asked_channel(text::opt_str(channel)), i)
                        && files@[i].path@ == c.socket_path@,
                None => forall|k: int|
                    0 <= k < files@.len() ==> !mapping::is_socket(
                        (#[trigger] files@[k]).path@,
                        asked_channel(text::opt_str(channel)),
                    ),
            },
    {
        let asked = hook_channel(channel);
        match mapping::find_hook_socket(asked.as_str(), files) {
            Some(socket_path) => Some(HookClient { socket_path }),
            None => None,
        }
    }

    /// The request by which the hook shows that it is alive, in one line.
    pub fn ping(&self) -> (r: String)
        ensures
            r@ == json::compact(bare_request("ping"@)),
            json::object_in(r@) == Some(bare_request("ping"@)),
            !r@.contains('\n'),
    {
        request_text("ping", None)
    }

    /// The request to add folders to the workspace, in one line.
    pub fn add_folders(&self, paths: &[String]) -> (r: String)
        ensures
            r@ == json::compact(paths_request("add_folders"@, text::texts(paths@))),
            json::object_in(r@) == Some(paths_request("add_folders"@, text::texts(paths@))),
            !r@.contains('\n'),
    {
        request_text("add_folders", Some(paths))
    }

    /// The request to replace the folders of the workspace, in one line.
    pub fn reuse_folders(&self, paths: &[String]) -> (r: String)
        ensures
            r@ == json::compact(paths_request("reuse_folders"@, text::texts(paths@))),
            json::object_in(r@) == Some(paths_request("reuse_folders"@, text::texts(paths@))),
            !r@.contains('\n'),
    {
        request_text("reuse_folders", Some(paths))
    }
}

/// What a line from the hook means: nothing where it is blank, else the answer
/// or the reason why it is none.
pub open spec fn is_reply(line: Seq<char>, r: Option<Result<HookResponse, String>>) -> bool {
    if text::trim(line).len() == 0 {
        r is None
    } else {
        match json::parsed(line) {
            Ok(value) => r matches Some(Ok(resp)) && resp.ok == flag_in(line, "ok"@) && text::opt(
                resp.error,
            ) == string_in(line, "error"@) && json::held(resp.raw) == value,
            Err(e) => r matches Some(Err(m)) && m@ == "parse response: "@ + e,
        }
    }
}

/// Reads a line from the hook.
pub fn read_reply(line: &str) -> (r: Option<Result<HookResponse, String>>)
    ensures
        is_reply(line@, r),
{
    if text::trim_text(line).as_str().is_empty() {
        return None;
    }
    match json::parse_json(line) {
        Ok(raw) => match json::as_object(&raw) {
            Some(m) => {
                let ok = match json::get(&m, "ok") {
                    Some(Field::Flag(b)) => b,
                    _ => false,
                };
                let error = match json::get(&m, "error") {
                    Some(Field::Text(t)) => Some(t),
                    _ => None,
                };
                Some(Ok(HookResponse { ok, error, raw }))
            },
            None => Some(Ok(HookResponse { ok: false, error: None, raw })),
        },
        Err(e) => Some(Err(text::concat("parse response: ", e.as_str()))),
    }
}

/// The channel whose hook is asked; the preview's where none is given.
pub open spec fn asked_channel(channel: Option<Seq<char>>) -> Seq<char> {
    match channel {
        Some(c) => c,
        None => "preview"@,
    }
}

/// The channel whose hook is asked; the preview's where none is given.
pub fn hook_channel(channel: Option<&str>) -> (r: String)
    ensures
        r@ == asked_channel(text::opt_str(channel)),
{
    match channel {
        Some(c) => c.to_string(),
        None => "preview".to_string(),
    }
}

/// What Zed is to do with folders.
#[derive(Debug, Clone, Copy, PartialEq, Eq, Structural)]
pub enum FolderCommand {
    /// Add them to a workspace.
    Add,
    /// Replace the folders of a workspace by them.
    Reuse,
}

impl FolderCommand {
    pub open spec fn option(self) -> Seq<char> {
        match self {
            FolderCommand::Add => "--add"@,
            FolderCommand::Reuse => "--reuse"@,
        }
    }

    pub open spec fn request(self) -> Seq<char> {
        match self {
            FolderCommand::Add => "add_folders"@,
            FolderCommand::Reuse => "reuse_folders"@,
        }
    }

    /// The option of the command line program.
    pub fn cli_option(self) -> (r: &'static str)
        ensures
            r@ == self.option(),
    {
        match self {
            FolderCommand::Add => "--add",
            FolderCommand::Reuse => "--reuse",
        }
    }

    /// The command of the hook.
    pub fn hook_command(self) -> (r: &'static str)
        ensures
            r@ == self.request(),
    {
        match self {
            FolderCommand::Add => "add_folders",
            FolderCommand::Reuse => "reuse_folders",
        }
    }
}

/// A command for a running Zed.
#[derive(Debug)]
pub struct Invocation {
    pub command: FolderCommand,
    /// The paths in the order in which Zed gets them.
    pub paths: Vec<String>,
    pub channel: Option<String>,
}

/// What came of asking the hook, or of running the command line program.
#[derive(Debug)]
pub enum InvocationEvent {
    /// No hook can be reached.
    NoHook,
    /// Asking the hook failed.
    HookFailed(String),
    /// The hook answered.
    HookReplied(HookResponse),
    /// The command line program succeeded.
    CliSucceeded,
    /// It ended with another status.
    CliFailed { status: String, stderr: String },
    /// It could not be started.
    CliNotStarted(String),
}

/// What is done next.
#[derive(Debug)]
pub enum InvocationStep {
    /// Run the program with the arguments.
    RunCli { program: String, args: Vec<String> },
    /// The command is done: by the hook, or else by the command line program.
    Done { by_hook: bool },
    /// The command failed.
    Failed(String),
}

impl Invocation {
    pub open spec fn program(self) -> Seq<char> {
        mapping::cli_of(text::opt(self.channel))
    }

    pub open spec fn args(self) -> Seq<Seq<char>> {
        seq![self.command.option()] + text::texts(self.paths@)
    }

    /// What follows an event: a hook that did what it was asked ends the command,
    /// one that cannot be reached or refused leaves it to the command line
    /// program, and one with which talking failed fails it.
    pub open spec fn follows(self, event: InvocationEvent, step: InvocationStep) -> bool {
        let runs_cli = step matches InvocationStep::RunCli { program, args } && program@
            == self.program() && text::texts(args@) == self.args();
        match event {
            InvocationEvent::NoHook => runs_cli,
            InvocationEvent::HookFailed(e) => step matches InvocationStep::Failed(m) && m@ == e@,
            InvocationEvent::HookReplied(resp) => if resp.ok {
                step == (InvocationStep::Done { by_hook: true })
            } else {
                runs_cli
            },
            InvocationEvent::CliSucceeded => step == (InvocationStep::Done { by_hook: false }),
            InvocationEvent::CliFailed { status, stderr } => step matches InvocationStep::Failed(m)
                && m@ == self.program() + " "@ + self.command.option() + " exited "@ + status@
                + ": "@ + stderr@,
            InvocationEvent::CliNotStarted(e) => step matches InvocationStep::Failed(m) && m@
                == "failed to invoke "@ + self.program() + ": "@ + e@,
        }
    }

    /// The request for the hook, in one line.
    pub fn hook_request(&self) -> (r: String)
        ensures
            r@ == json::compact(paths_request(self.command.request(), text::texts(self.paths@))),
            json::object_in(r@) == Some(
                paths_request(self.command.request(), text::texts(self.paths@)),
            ),
            !r@.contains('\n'),
    {
        request_text(self.command.hook_command(), Some(self.paths.as_slice()))
    }

    /// Decides what is done after an event.
    pub fn next(&self, event: InvocationEvent) -> (r: InvocationStep)
        ensures
            self.follows(event, r),
    {
        let program = mapping::zed_cli_command(text::borrow_opt(&self.channel));
        match event {
            InvocationEvent::NoHook => self.run_cli(),
            InvocationEvent::HookFailed(e) => InvocationStep::Failed(e),
            InvocationEvent::HookReplied(resp) => if resp.ok {
                InvocationStep::Done { by_hook: true }
            } else {
                self.run_cli()
            },
            InvocationEvent::CliSucceeded => InvocationStep::Done { by_hook: false },
            InvocationEvent::CliFailed { status, stderr } => {
                let mut m = program.to_string();
                m.append(" ");
                m.append(self.command.cli_option());
                m.append(" exited ");
                m.append(status.as_str());
                m.append(": ");
                m.append(stderr.as_str());
                InvocationStep::Failed(m)
            },
            InvocationEvent::CliNotStarted(e) => {
                let mut m = "failed to invoke ".to_string();
                m.append(program);
                m.append(": ");
                m.append(e.as_str());
                InvocationStep::Failed(m)
            },
        }
    }

    fn run_cli(&self) -> (r: InvocationStep)
        ensures
            r matches InvocationStep::RunCli { program, args } && program@ == self.program()
                && text::texts(args@) == self.args(),
    {
        let program = mapping::zed_cli_command(text::borrow_opt(&self.channel));
        let args = cli_args(self.command.cli_option(), self.paths.as_slice());
        InvocationStep::RunCli { program: program.to_string(), args }
    }
}

/// The arguments of a command line program: an option, then paths.
pub fn cli_args(option: &str, paths: &[String]) -> (r: Vec<String>)
    ensures
        text::texts(r@) == seq![option@] + text::texts(paths@),
{
    let mut args: Vec<String> = Vec::new();
    args.push(option.to_string());
    let ghost all = text::texts(paths@);
    let mut i: usize = 0;
    assert(text::texts(args@) == seq![option@] + all.take(0));
    while i < paths.len()
        invariant
            i <= paths.len(),
            all == text::texts(paths@),
            text::texts(args@) == seq![option@] + all.take(i as int),
        decreases paths.len() - i,
    {
        let ghost before = text::texts(args@);
        let p = paths[i].clone();
        args.push(p);
        i = i + 1;
        assert(text::texts(args@) == before.push(p@));
        assert(text::texts(args@) == seq![option@] + all.take(i as int));
    }
    assert(all.take(all.len() as int) == all);
    args
}

/// The command that adds a folder to a running Zed; a root of the workspace that
/// it is meant for goes in front.
pub fn invoke_zed_add(path: &str, channel: Option<&str>, existing_root: Option<&str>) -> (r:
    Invocation)
    ensures
        r.command == FolderCommand::Add,
        text::opt(r.channel) == text::opt_str(channel),
        text::texts(r.paths@) == (match text::opt_str(existing_root) {
            Some(root) => seq![root, path@],
            None => seq![path@],
        }),
{
    let mut paths: Vec<String> = Vec::new();
    if let Some(root) = existing_root {
        paths.push(root.to_string());
    }
    paths.push(path.to_string());
    Invocation { command: FolderCommand::Add, paths, channel: text::own_opt(channel) }
}

/// The command that replaces the folders of a running Zed; there must be some.
pub fn invoke_zed_reuse(paths: &[String], channel: Option<&str>) -> (r: Result<
    Invocation,
    String,
>)
    ensures
        match r {
            Ok(i) => paths@.len() > 0 && i.command == FolderCommand::Reuse && text::opt(i.channel)
                == text::opt_str(channel) && i.paths@ == paths@,
            Err(e) => paths@.len() == 0 && e@ == "no paths for reuse"@,
        },
{
    if paths.len() == 0 {
        return Err("no paths for reuse".to_string());
    }
    Ok(
        Invocation {
            command: FolderCommand::Reuse,
            paths: paths::copy_texts(paths),
            channel: text::own_opt(channel),
        },
    )
}

} // verus!
