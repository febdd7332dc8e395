//! What is handed to the command-line tool and what is made of its answer:
//! the argument lists of each operation, the result of a finished process,
//! and the environment variables that a child process inherits.

use crate::model::{AddServerResult, AddView};
use crate::text::{
    append_chars, chars_of, concat_text, is_outcome, same_text, starts_with, string_of, trim,
    trimmed,
};
use vstd::prelude::*;

verus! {

/// Appends the text `s` to `out`.
pub fn push_text(out: &mut Vec<String>, s: &str)
    ensures
        final(out).deep_view() == old(out).deep_view().push(s@),
{
    out.push(s.to_string());
    assert(out.deep_view() =~= old(out).deep_view().push(s@));
}

/// Appends the texts `items` to `out`.
pub fn extend_texts(out: &mut Vec<String>, items: &Vec<String>)
    ensures
        final(out).deep_view() == old(out).deep_view() + items.deep_view(),
{
    let mut i: usize = 0;
    assert(items.deep_view().subrange(0, 0) =~= Seq::<Seq<char>>::empty());
    assert(out.deep_view() =~= old(out).deep_view() + Seq::<Seq<char>>::empty());
    while i < items.len()
        invariant
            i <= items.len(),
            out.deep_view() == old(out).deep_view() + items.deep_view().subrange(0, i as int),
        decreases items.len() - i,
    {
        let ghost before = out.deep_view();
        out.push(items[i].clone());
        i += 1;
        assert(out.deep_view() =~= before.push(items[i - 1]@));
        assert(items.deep_view().subrange(0, i as int) =~= items.deep_view().subrange(
            0,
            i - 1,
        ).push(items[i - 1]@));
        assert(out.deep_view() =~= old(out).deep_view() + items.deep_view().subrange(
            0,
            i as int,
        ));
    }
    assert(items.deep_view().subrange(0, items.len() as int) =~= items.deep_view());
}

/// Whether a child process inherits the environment variable `key`.
pub open spec fn is_forwarded(key: Seq<char>) -> bool {
    ||| key == "PATH"@
    ||| key == "HOME"@
    ||| key == "USER"@
    ||| key == "SHELL"@
    ||| key == "LANG"@
    ||| key == "LC_ALL"@
    ||| "LC_"@.is_prefix_of(key)
    ||| key == "NODE_PATH"@
    ||| key == "NVM_DIR"@
    ||| key == "NVM_BIN"@
    ||| key == "HOMEBREW_PREFIX"@
    ||| key == "HOMEBREW_CELLAR"@
    ||| key == "HTTP_PROXY"@
    ||| key == "HTTPS_PROXY"@
    ||| key == "NO_PROXY"@
    ||| key == "ALL_PROXY"@
}

/// Whether a child process inherits the environment variable `key`: the
/// variables that locate programs and the user's home, the locale, the Node
/// and Homebrew locations, and the proxies.
pub fn is_forwarded_env_key(key: &str) -> (b: bool)
    ensures
        b == is_forwarded(key@),
{
    same_text(key, "PATH") || same_text(key, "HOME") || same_text(key, "USER") || same_text(
        key,
        "SHELL",
    ) || same_text(key, "LANG") || same_text(key, "LC_ALL") || starts_with(
        &chars_of(key),
        &chars_of("LC_"),
    ) || same_text(key, "NODE_PATH") || same_text(key, "NVM_DIR") || same_text(key, "NVM_BIN")
        || same_text(key, "HOMEBREW_PREFIX") || same_text(key, "HOMEBREW_CELLAR") || same_text(
        key,
        "HTTP_PROXY",
    ) || same_text(key, "HTTPS_PROXY") || same_text(key, "NO_PROXY") || same_text(
        key,
        "ALL_PROXY",
    )
}

/// The arguments of the bundled tool for an operation: `mcp`, then the
/// operation's own.
pub fn sidecar_arguments(args: &Vec<String>) -> (r: Vec<String>)
    ensures
        r.deep_view() == seq!["mcp"@] + args.deep_view(),
{
    let mut out: Vec<String> = Vec::new();
    assert(out.deep_view() =~= Seq::<Seq<char>>::empty());
    push_text(&mut out, "mcp");
    extend_texts(&mut out, args);
    assert(out.deep_view() =~= seq!["mcp"@] + args.deep_view());
    out
}

/// What a process printed, as one text: its standard output, followed on a
/// new line by its standard error where that is not empty.
pub open spec fn combined_output(stdout: Seq<char>, stderr: Seq<char>) -> Seq<char> {
    if stderr.len() == 0 {
        stdout
    } else {
        stdout + seq!['\n'] + stderr
    }
}

/// The result of a finished process: its standard output where it exited
/// with code 0, else the failure with what it printed, trimmed. A process
/// without an exit code has failed.
pub open spec fn process_result(exit_code: Option<i32>, stdout: Seq<char>, stderr: Seq<char>)
    -> Result<Seq<char>, Seq<char>> {
    if exit_code == Some(0i32) {
        Ok(stdout)
    } else {
        Err("Command failed: "@ + trim(combined_output(stdout, stderr)))
    }
}

/// The result of a finished process, from its exit code and what it printed.
pub fn command_result(exit_code: Option<i32>, stdout: String, stderr: &str) -> (r: Result<
    String,
    String,
>)
    ensures
        is_outcome(r, process_result(exit_code, stdout@, stderr@)),
{
    let success = match exit_code {
        Some(code) => code == 0,
        None => false,
    };
    if success {
        return Ok(stdout);
    }
    let mut combined = chars_of(stdout.as_str());
    let errors = chars_of(stderr);
    if errors.len() > 0 {
        combined.push('\n');
        append_chars(&mut combined, &errors);
    }
    assert(combined@ =~= combined_output(stdout@, stderr@));
    let shown = string_of(&trimmed(&combined));
    Err(concat_text("Command failed: ", shown.as_str()))
}

/// The flags that hand the environment `env` to `add`: `-e NAME=value` for
/// each variable, in order.
pub open spec fn env_flags(env: Seq<(Seq<char>, Seq<char>)>) -> Seq<Seq<char>>
    decreases env.len(),
{
    if env.len() == 0 {
        Seq::empty()
    } else {
        env_flags(env.drop_last()) + seq!["-e"@, env.last().0 + seq!['='] + env.last().1]
    }
}

/// What follows the server's name in the arguments of `add`, by transport:
/// for `stdio` the separator `--`, the command and its arguments; for `sse`
/// the URL; nothing for another transport. The error is the message for a
/// `stdio` server without a command or an `sse` server without a URL.
pub open spec fn add_target(
    transport: Seq<char>,
    command: Option<Seq<char>>,
    args: Seq<Seq<char>>,
    url: Option<Seq<char>>,
) -> Result<Seq<Seq<char>>, Seq<char>> {
    if transport == "stdio"@ {
        match command {
            Some(c) => Ok(seq!["--"@, c] + args),
            None => Err("Command is required for stdio transport"@),
        }
    } else if transport == "sse"@ {
        match url {
            Some(u) => Ok(seq![u]),
            None => Err("URL is required for SSE transport"@),
        }
    } else {
        Ok(Seq::empty())
    }
}

/// The arguments of `add` for a server, or the message with which the
/// request is refused: `add -s <scope>`, `--transport sse` for `sse`, the
/// environment flags, the name, and the target.
pub open spec fn add_plan(
    name: Seq<char>,
    transport: Seq<char>,
    command: Option<Seq<char>>,
    args: Seq<Seq<char>>,
    env: Seq<(Seq<char>, Seq<char>)>,
    url: Option<Seq<char>>,
    scope: Seq<char>,
) -> Result<Seq<Seq<char>>, Seq<char>> {
    match add_target(transport, command, args, url) {
        Ok(target) => Ok(
            seq!["add"@, "-s"@, scope] + if transport == "sse"@ {
                seq!["--transport"@, "sse"@]
            } else {
                Seq::empty()
            } + env_flags(env) + seq![name] + target,
        ),
        Err(m) => Err(m),
    }
}

/// The result of a request that was refused with `message`.
pub open spec fn refusal(message: Seq<char>) -> AddView {
    AddView { success: false, message, server_name: None }
}

/// The result of adding the server `name`, from the result of the process:
/// success with the trimmed output, or failure with the error's message.
pub open spec fn add_outcome_of(outcome: Result<Seq<char>, Seq<char>>, name: Seq<char>)
    -> AddView {
    match outcome {
        Ok(output) => AddView { success: true, message: trim(output), server_name: Some(name) },
        Err(m) => refusal(m),
    }
}

/// The text `s` without its leading and trailing white space.
pub fn trimmed_text(s: &str) -> (r: String)
    ensures
        r@ == trim(s@),
{
    string_of(&trimmed(&chars_of(s)))
}

/// The arguments of `add` for a server, or the refusal of a `stdio` server
/// without a command or an `sse` server without a URL.
pub fn add_arguments(
    name: &str,
    transport: &str,
    command: Option<&str>,
    args: &Vec<String>,
    env: &Vec<(String, String)>,
    url: Option<&str>,
    scope: &str,
) -> (r: Result<Vec<String>, AddServerResult>)
    ensures
        match add_plan(
            name@,
            transport@,
            command.deep_view(),
            args.deep_view(),
            env.deep_view(),
            url.deep_view(),
            scope@,
        ) {
            Ok(plan) => r matches Ok(a) && a.deep_view() == plan,
            Err(m) => r matches Err(refused) && refused@ == refusal(m),
        },
{
    let mut out: Vec<String> = Vec::new();
    assert(out.deep_view() =~= Seq::<Seq<char>>::empty());
    push_text(&mut out, "add");
    push_text(&mut out, "-s");
    push_text(&mut out, scope);
    let is_sse = same_text(transport, "sse");
    let is_stdio = same_text(transport, "stdio");
    if is_sse {
        push_text(&mut out, "--transport");
        push_text(&mut out, "sse");
    }
    let ghost head = out.deep_view();
    assert(head =~= seq!["add"@, "-s"@, scope@] + if transport@ == "sse"@ {
        seq!["--transport"@, "sse"@]
    } else {
        Seq::empty()
    });
    let ghost pairs = env.deep_view();
    let mut i: usize = 0;
    assert(pairs.subrange(0, 0) =~= Seq::<(Seq<char>, Seq<char>)>::empty());
    assert(out.deep_view() =~= head + env_flags(pairs.subrange(0, 0)));
    while i < env.len()
        invariant
            i <= env.len(),
            pairs == env.deep_view(),
            out.deep_view() == head + env_flags(pairs.subrange(0, i as int)),
        decreases env.len() - i,
    {
        let ghost before = out.deep_view();
        let key = concat_text(env[i].0.as_str(), "=");
        let flag = concat_text(key.as_str(), env[i].1.as_str());
        push_text(&mut out, "-e");
        push_text(&mut out, flag.as_str());
        i += 1;
        proof {
            reveal_strlit("=");
            let next = pairs.subrange(0, i as int);
            assert(next.drop_last() =~= pairs.subrange(0, i - 1));
            assert(next.last() == pairs[i - 1]);
            assert(pairs[i - 1] == (env[i - 1].0@, env[i - 1].1@));
            assert("="@ =~= seq!['=']);
            assert(flag@ =~= next.last().0 + seq!['='] + next.last().1);
            assert(out.deep_view() =~= before + seq!["-e"@, flag@]);
            assert(out.deep_view() =~= head + env_flags(next));
        }
    }
    assert(pairs.subrange(0, pairs.len() as int) =~= pairs);
    push_text(&mut out, name);
    let ghost stem = out.deep_view();
    assert(stem =~= head + env_flags(pairs) + seq![name@]);
    if is_stdio {
        match command {
            Some(c) => {
                push_text(&mut out, "--");
                push_text(&mut out, c);
                extend_texts(&mut out, args);
                assert(out.deep_view() =~= stem + add_target(
                    transport@,
                    command.deep_view(),
                    args.deep_view(),
                    url.deep_view(),
                )->Ok_0);
                Ok(out)
            },
            None => Err(
                AddServerResult {
                    success: false,
                    message: "Command is required for stdio transport".to_string(),
                    server_name: None,
                },
            ),
        }
    } else if is_sse {
        match url {
            Some(u) => {
                push_text(&mut out, u);
                assert(out.deep_view() =~= stem + seq![u@]);
                Ok(out)
            },
            None => Err(
                AddServerResult {
                    success: false,
                    message: "URL is required for SSE transport".to_string(),
                    server_name: None,
                },
            ),
        }
    } else {
        assert(out.deep_view() =~= stem + Seq::<Seq<char>>::empty());
        Ok(out)
    }
}

/// The result of adding the server `name`, from the result of the process.
pub fn add_result(outcome: Result<String, String>, name: &str) -> (r: AddServerResult)
    ensures
        r@ == add_outcome_of(
            match outcome {
                Ok(s) => Ok(s@),
                Err(m) => Err(m@),
            },
            name@,
        ),
{
    match outcome {
        Ok(output) => AddServerResult {
            success: true,
            message: trimmed_text(output.as_str()),
            server_name: Some(name.to_string()),
        },
        Err(m) => AddServerResult { success: false, message: m, server_name: None },
    }
}

/// The arguments of `add-json` for a server: the name, its configuration as
/// JSON text, and the scope.
pub fn add_json_arguments(name: &str, json_config: &str, scope: &str) -> (r: Vec<String>)
    ensures
        r.deep_view() == seq!["add-json"@, name@, json_config@, "-s"@, scope@],
{
    let mut out: Vec<String> = Vec::new();
    assert(out.deep_view() =~= Seq::<Seq<char>>::empty());
    push_text(&mut out, "add-json");
    push_text(&mut out, name);
    push_text(&mut out, json_config);
    push_text(&mut out, "-s");
    push_text(&mut out, scope);
    assert(out.deep_view() =~= seq!["add-json"@, name@, json_config@, "-s"@, scope@]);
    out
}

/// The arguments of an operation on one server: the operation's word, then
/// the server's name.
pub fn server_arguments(operation: &str, name: &str) -> (r: Vec<String>)
    ensures
        r.deep_view() == seq![operation@, name@],
{
    let mut out: Vec<String> = Vec::new();
    assert(out.deep_view() =~= Seq::<Seq<char>>::empty());
    push_text(&mut out, operation);
    push_text(&mut out, name);
    assert(out.deep_view() =~= seq![operation@, name@]);
    out
}

/// The arguments of `get` for the server `name`.
pub fn get_arguments(name: &str) -> (r: Vec<String>)
    ensures
        r.deep_view() == seq!["get"@, name@],
{
    server_arguments("get", name)
}

/// The arguments of `remove` for the server `name`.
pub fn remove_arguments(name: &str) -> (r: Vec<String>)
    ensures
        r.deep_view() == seq!["remove"@, name@],
{
    server_arguments("remove", name)
}

/// The arguments of an operation that takes none but its own word.
pub fn plain_arguments(operation: &str) -> (r: Vec<String>)
    ensures
        r.deep_view() == seq![operation@],
{
    let mut out: Vec<String> = Vec::new();
    assert(out.deep_view() =~= Seq::<Seq<char>>::empty());
    push_text(&mut out, operation);
    assert(out.deep_view() =~= seq![operation@]);
    out
}

/// What is reported when the tool knows the server `name`.
pub fn connection_message(name: &str) -> (m: String)
    ensures
        m@ == "Connection to "@ + name@ + " successful"@,
{
    let head = concat_text("Connection to ", name);
    concat_text(head.as_str(), " successful")
}

/// What a running process reports.
#[derive(Debug, Clone, PartialEq, Eq)]
pub enum ProcessEvent {
    /// A piece of its standard output.
    Stdout(String),
    /// A piece of its standard error.
    Stderr(String),
    /// Its end, with the exit code where it has one.
    Terminated(Option<i32>),
    /// Anything else; it is ignored.
    Other,
}

/// What a process has reported so far.
#[derive(Debug, Clone, PartialEq, Eq)]
pub struct ProcessOutput {
    pub stdout: String,
    pub stderr: String,
    /// The exit code, once the process has ended with one.
    pub exit_code: Option<i32>,
    /// Whether the process has ended.
    pub finished: bool,
}

pub ghost enum EventView {
    Stdout(Seq<char>),
    Stderr(Seq<char>),
    Terminated(Option<i32>),
    Other,
}

pub ghost struct OutputView {
    pub stdout: Seq<char>,
    pub stderr: Seq<char>,
    pub exit_code: Option<i32>,
    pub finished: bool,
}

impl View for ProcessEvent {
    type V = EventView;

    open spec fn view(&self) -> EventView {
        match self {
            ProcessEvent::Stdout(s) => EventView::Stdout(s@),
            ProcessEvent::Stderr(s) => EventView::Stderr(s@),
            ProcessEvent::Terminated(code) => EventView::Terminated(*code),
            ProcessEvent::Other => EventView::Other,
        }
    }
}

impl View for ProcessOutput {
    type V = OutputView;

    open spec fn view(&self) -> OutputView {
        OutputView {
            stdout: self.stdout@,
            stderr: self.stderr@,
            exit_code: self.exit_code,
            finished: self.finished,
        }
    }
}

/// What has been reported after one more event. Output is appended to its
/// stream; the end of the process is noted with its exit code; events after
/// the end change nothing.
pub open spec fn after_event(o: OutputView, e: EventView) -> OutputView {
    if o.finished {
        o
    } else {
        match e {
            EventView::Stdout(s) => OutputView { stdout: o.stdout + s, ..o },
            EventView::Stderr(s) => OutputView { stderr: o.stderr + s, ..o },
            EventView::Terminated(code) => OutputView { exit_code: code, finished: true, ..o },
            EventView::Other => o,
        }
    }
}

/// What has been reported after the events `events`, in order.
pub open spec fn after_events(o: OutputView, events: Seq<EventView>) -> OutputView
    decreases events.len(),
{
    if events.len() == 0 {
        o
    } else {
        after_event(after_events(o, events.drop_last()), events.last())
    }
}

impl ProcessOutput {
    /// Nothing reported yet.
    pub fn new() -> (o: ProcessOutput)
        ensures
            o@ == (OutputView {
                stdout: Seq::empty(),
                stderr: Seq::empty(),
                exit_code: None,
                finished: false,
            }),
    {
        ProcessOutput {
            stdout: String::new(),
            stderr: String::new(),
            exit_code: None,
            finished: false,
        }
    }

    /// Takes one event in. Returns whether the process has ended, after
    /// which no more events need to be awaited.
    pub fn record(&mut self, event: ProcessEvent) -> (done: bool)
        ensures
            final(self)@ == after_event(old(self)@, event@),
            done == final(self).finished,
    {
        if self.finished {
            return true;
        }
        match event {
            ProcessEvent::Stdout(s) => {
                self.stdout = concat_text(self.stdout.as_str(), s.as_str());
            },
            ProcessEvent::Stderr(s) => {
                self.stderr = concat_text(self.stderr.as_str(), s.as_str());
            },
            ProcessEvent::Terminated(code) => {
                self.exit_code = code;
                self.finished = true;
            },
            ProcessEvent::Other => {},
        }
        self.finished
    }

    /// The result of the process, from what it has reported. A process
    /// that never reported its end has failed.
    pub fn result(self) -> (r: Result<String, String>)
        ensures
            is_outcome(r, process_result(self.exit_code, self.stdout@, self.stderr@)),
    {
        command_result(self.exit_code, self.stdout, self.stderr.as_str())
    }
}

/// Until a process ends, it has no exit code: what it has reported then
/// counts as a failure.
pub proof fn lemma_unfinished_has_no_code(events: Seq<EventView>)
    ensures
        ({
            let o = after_events(
                OutputView {
                    stdout: Seq::empty(),
                    stderr: Seq::empty(),
                    exit_code: None,
                    finished: false,
                },
                events,
            );
            !o.finished ==> o.exit_code is None
        }),
    decreases events.len(),
{
    if events.len() > 0 {
        lemma_unfinished_has_no_code(events.drop_last());
    }
}

} // verus!
