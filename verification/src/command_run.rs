//! Decisions around running an external command: which shell runs typed input, when a
//! shell run counts as "not a command at all", and what a finished run reports. Spawning,
//! polling and reading the pipes are the caller's part.

use vstd::prelude::*;
use vstd::string::*;

use crate::history::{join_strings, join_with, message_data, ChatMessage, MessageData, CLEAR_SENTINEL, QUIT_SENTINEL};
use crate::text::{chars_of, debug_quoted, debug_quoted_text, string_of, trim_bounds, trim_end_ws, trim_ws};

verus! {

broadcast use vstd::string::group_string_axioms;

/// The shell used when none is configured.
pub const DEFAULT_SHELL: &'static str = "/bin/sh";

/// The shell that runs typed input: `$ANVIL_SHELL` if set, else `$SHELL`, else
/// [`DEFAULT_SHELL`].
pub fn choose_shell(anvil_shell: Option<String>, login_shell: Option<String>) -> (r: String)
    ensures
        r@ == (match (anvil_shell, login_shell) {
            (Some(a), _) => a@,
            (None, Some(s)) => s@,
            (None, None) => DEFAULT_SHELL@,
        }),
{
    match anvil_shell {
        Some(a) => a,
        None => match login_shell {
            Some(s) => s,
            None => String::from_str(DEFAULT_SHELL),
        },
    }
}

/// The exit code shells give for "command not found".
pub const NOT_FOUND_EXIT: i32 = 127;

/// What a poll of a freshly started shell found.
#[derive(Clone, Copy, PartialEq, Eq, Structural, Debug)]
pub enum ShellPoll {
    /// The shell has exited, with this code (`None` when a signal ended it).
    Exited(Option<i32>),
    /// The shell is still running.
    Running,
    /// Asking for its status failed.
    Failed,
}

/// What to do after a poll.
#[derive(Clone, Copy, PartialEq, Eq, Structural, Debug)]
pub enum ShellDecision {
    /// The shell did not recognise the input: drop it without a trace.
    Rejected,
    /// A real command: stream and collect its output.
    Stream,
    /// Too early to tell: pause briefly and poll again.
    PollAgain,
    /// Report that waiting for the command failed.
    Fail,
}

/// Decides after one poll of a shell running typed input. A shell that exits with
/// [`NOT_FOUND_EXIT`] rejected the input; any other exit, or still running once the poll
/// window is over, is a real command.
pub fn shell_poll_decision(poll: ShellPoll, window_over: bool) -> (r: ShellDecision)
    ensures
        r == (match poll {
            ShellPoll::Exited(code) => if code == Some(NOT_FOUND_EXIT) {
                ShellDecision::Rejected
            } else {
                ShellDecision::Stream
            },
            ShellPoll::Running => if window_over {
                ShellDecision::Stream
            } else {
                ShellDecision::PollAgain
            },
            ShellPoll::Failed => ShellDecision::Fail,
        }),
{
    match poll {
        ShellPoll::Exited(code) => match code {
            Some(c) => if c == NOT_FOUND_EXIT {
                ShellDecision::Rejected
            } else {
                ShellDecision::Stream
            },
            None => ShellDecision::Stream,
        },
        ShellPoll::Running => if window_over {
            ShellDecision::Stream
        } else {
            ShellDecision::PollAgain
        },
        ShellPoll::Failed => ShellDecision::Fail,
    }
}

/// What a finished command reports: on success its standard output lines, joined and with
/// trailing white space dropped; on failure its standard error lines, joined and trimmed at
/// both ends.
pub open spec fn spec_command_result(success: bool, stdout: Seq<Seq<char>>, stderr: Seq<Seq<char>>) -> Result<
    Seq<char>,
    Seq<char>,
> {
    if success {
        Ok(trim_end_ws(join_with(stdout, '\n')))
    } else {
        Err(trim_ws(join_with(stderr, '\n')))
    }
}

/// The report of a finished command, from its exit status and the lines it wrote.
pub fn command_result(success: bool, stdout_lines: &Vec<String>, stderr_lines: &Vec<String>) -> (r: Result<String, String>)
    ensures
        match r {
            Ok(out) => spec_command_result(
                success,
                stdout_lines@.map_values(|l: String| l@),
                stderr_lines@.map_values(|l: String| l@),
            ) == Ok::<Seq<char>, Seq<char>>(out@),
            Err(err) => spec_command_result(
                success,
                stdout_lines@.map_values(|l: String| l@),
                stderr_lines@.map_values(|l: String| l@),
            ) == Err::<Seq<char>, Seq<char>>(err@),
        },
{
    if success {
        let joined = join_strings(stdout_lines, '\n');
        let chars = chars_of(joined.as_str());
        let (a, b) = trim_bounds(&chars, 0, chars.len(), false, true);
        proof {
            assert(chars@.subrange(0, chars@.len() as int) =~= joined@);
        }
        Ok(string_of(&chars, a, b))
    } else {
        let joined = join_strings(stderr_lines, '\n');
        let chars = chars_of(joined.as_str());
        let (a, b) = trim_bounds(&chars, 0, chars.len(), true, true);
        proof {
            assert(chars@.subrange(0, chars@.len() as int) =~= joined@);
        }
        Err(string_of(&chars, a, b))
    }
}

/// The reply recorded when a command succeeded without output.
pub const NO_OUTPUT_REPLY: &'static str = "(command ran, no output)";

/// What a failed shell command's reply starts with.
pub const COMMAND_FAILED_PREFIX: &'static str = "Command failed: ";

/// What a failed script's reply starts with.
pub const SCRIPT_FAILED_PREFIX: &'static str = "Script failed: ";

/// The reply recorded for a shell command's result.
pub open spec fn shell_reply(result: Result<Seq<char>, Seq<char>>) -> Seq<char> {
    match result {
        Ok(out) => if out.len() > 0 {
            out
        } else {
            NO_OUTPUT_REPLY@
        },
        Err(e) => COMMAND_FAILED_PREFIX@ + e,
    }
}

/// The plain values of a command result.
pub open spec fn result_view(result: Result<String, String>) -> Result<Seq<char>, Seq<char>> {
    match result {
        Ok(o) => Ok(o@),
        Err(e) => Err(e@),
    }
}

/// A copy of a text.
fn copy_text(s: &String) -> (r: String)
    ensures
        r@ == s@,
{
    s.clone()
}

/// What a shell command that the shell accepted adds to the transcript: the typed line,
/// the tool call, and the reply.
pub fn shell_run_messages(prompt: String, result: Result<String, String>) -> (r: Vec<ChatMessage>)
    ensures
        r@.map_values(|m: ChatMessage| message_data(m)) == seq![
            MessageData::User(prompt@),
            MessageData::Tool("shell"@, prompt@, Seq::<Seq<char>>::empty()),
            MessageData::Assistant(shell_reply(result_view(result))),
        ],
{
    let ghost rv = result_view(result);
    let reply = match result {
        Ok(output) => if output.unicode_len() > 0 {
            output
        } else {
            String::from_str(NO_OUTPUT_REPLY)
        },
        Err(error) => {
            let mut r = String::from_str(COMMAND_FAILED_PREFIX);
            r.append(error.as_str());
            r
        },
    };
    let user = ChatMessage::User(copy_text(&prompt));
    let no_output: Vec<String> = Vec::new();
    proof {
        assert(no_output@.map_values(|l: String| l@) =~= Seq::<Seq<char>>::empty());
    }
    let tool = ChatMessage::Tool { name: String::from_str("shell"), detail: prompt, output: no_output };
    let assistant = ChatMessage::Assistant(reply);
    let mut out: Vec<ChatMessage> = Vec::new();
    out.push(user);
    out.push(tool);
    out.push(assistant);
    proof {
        reveal_strlit("shell");
        assert(out@.map_values(|m: ChatMessage| message_data(m)) =~= seq![
            MessageData::User(prompt@),
            MessageData::Tool("shell"@, prompt@, Seq::<Seq<char>>::empty()),
            MessageData::Assistant(shell_reply(rv)),
        ]);
    }
    out
}

/// What a JS command's result does: whether it asks the app to quit, whether it cleared
/// the transcript, and what it adds to the transcript.
pub struct ScriptEffect {
    pub quit: bool,
    pub clear_transcript: bool,
    pub messages: Vec<ChatMessage>,
}

/// Whether a result is a success whose trimmed text is `sentinel`.
pub open spec fn is_sentinel(result: Result<Seq<char>, Seq<char>>, sentinel: Seq<char>) -> bool {
    result matches Ok(o) && trim_ws(o) == sentinel
}

/// What a JS command adds to the transcript: nothing when it cleared the transcript or
/// succeeded silently, else its tool call and its reply (the output, or the failure).
pub open spec fn script_messages(name: Seq<char>, result: Result<Seq<char>, Seq<char>>) -> Seq<MessageData> {
    if is_sentinel(result, CLEAR_SENTINEL@) || result == Ok::<Seq<char>, Seq<char>>(Seq::empty()) {
        Seq::empty()
    } else {
        seq![
            MessageData::Tool("js"@, name, Seq::<Seq<char>>::empty()),
            MessageData::Assistant(
                match result {
                    Ok(o) => o,
                    Err(e) => SCRIPT_FAILED_PREFIX@ + e,
                },
            ),
        ]
    }
}

/// Whether a result's text, trimmed, is `sentinel`.
fn trimmed_is(text: &String, sentinel: &str) -> (r: bool)
    ensures
        r == (trim_ws(text@) == sentinel@),
{
    let chars = chars_of(text.as_str());
    let (a, b) = trim_bounds(&chars, 0, chars.len(), true, true);
    proof {
        assert(chars@.subrange(0, chars@.len() as int) =~= text@);
    }
    let trimmed = string_of(&chars, a, b);
    crate::text::text_eq(trimmed.as_str(), sentinel)
}

/// The effect of a finished JS command named `command_name`.
pub fn script_effect(command_name: String, result: Result<String, String>) -> (r: ScriptEffect)
    ensures
        r.quit == is_sentinel(result_view(result), QUIT_SENTINEL@),
        r.clear_transcript == is_sentinel(result_view(result), CLEAR_SENTINEL@),
        r.messages@.map_values(|m: ChatMessage| message_data(m)) == script_messages(command_name@, result_view(result)),
{
    let ghost rv = result_view(result);
    let (quit, clear, silent) = match &result {
        Ok(output) => (trimmed_is(output, QUIT_SENTINEL), trimmed_is(output, CLEAR_SENTINEL), output.unicode_len() == 0),
        Err(_) => (false, false, false),
    };
    proof {
        reveal_strlit("js");
        if silent {
            match rv {
                Ok(o) => {
                    assert(o =~= Seq::<char>::empty());
                },
                Err(_) => {},
            }
            assert(rv == Ok::<Seq<char>, Seq<char>>(Seq::empty()));
        }
        if rv == Ok::<Seq<char>, Seq<char>>(Seq::empty()) {
            assert(silent);
        }
    }
    if clear || silent {
        let messages: Vec<ChatMessage> = Vec::new();
        proof {
            assert(messages@.map_values(|m: ChatMessage| message_data(m)) =~= Seq::<MessageData>::empty());
        }
        return ScriptEffect { quit, clear_transcript: clear, messages };
    }
    let reply = match result {
        Ok(output) => output,
        Err(error) => {
            let mut r = String::from_str(SCRIPT_FAILED_PREFIX);
            r.append(error.as_str());
            r
        },
    };
    let no_output: Vec<String> = Vec::new();
    proof {
        assert(no_output@.map_values(|l: String| l@) =~= Seq::<Seq<char>>::empty());
    }
    let mut messages: Vec<ChatMessage> = Vec::new();
    messages.push(ChatMessage::Tool { name: String::from_str("js"), detail: command_name, output: no_output });
    messages.push(ChatMessage::Assistant(reply));
    proof {
        assert(messages@.map_values(|m: ChatMessage| message_data(m)) =~= script_messages(command_name@, rv));
    }
    ScriptEffect { quit, clear_transcript: clear, messages }
}

/// The start of the note for a command the router script suggests.
pub const ROUTER_MATCH_PREFIX: &'static str = "(background check) found a possible match for ";

/// The note recorded after the router script looked at text the shell rejected: a
/// suggested command is named (with the rejected text quoted as `{:?}` shows it), otherwise
/// the script's own reply is recorded as is; nothing when it offered neither.
pub open spec fn router_note_text(prompt: Seq<char>, replace: Option<Seq<char>>, reply: Option<Seq<char>>) -> Option<Seq<char>> {
    match replace {
        Some(r) => Some(ROUTER_MATCH_PREFIX@ + debug_quoted_text(prompt) + seq![':', ' ', '`'] + r + seq!['`']),
        None => match reply {
            Some(t) => Some(t),
            None => None,
        },
    }
}

/// The text of the string field `key` of the JSON object that `text` holds, as
/// `serde_json` reads them: `None` when `text` is not JSON, is not an object, has no such
/// field, or the field is not a string.
pub uninterp spec fn json_text_field(text: Seq<char>, key: Seq<char>) -> Option<Seq<char>>;

/// `serde_json::from_str::<serde_json::Value>(text)`, then `Value::get(key)` and
/// `Value::as_str` on the field. Claimed: the result is the name [`json_text_field`] of the
/// two texts, a function of them alone; what that is for given texts is left to the crate.
#[verifier::external_body]
fn json_field_of(text: &str, key: &str) -> (r: Option<String>)
    ensures
        match r {
            Some(s) => json_text_field(text@, key@) == Some(s@),
            None => json_text_field(text@, key@) is None,
        },
{
    match serde_json::from_str::<serde_json::Value>(text) {
        Ok(value) => match value.get(key) {
            Some(field) => match field.as_str() {
                Some(t) => Some(t.to_string()),
                None => None,
            },
            None => None,
        },
        Err(_) => None,
    }
}

/// The router script's output field `replace`: a command to run in place of the rejected
/// input.
pub const ROUTER_REPLACE_FIELD: &'static str = "replace";

/// The router script's output field `reply`: a message to show.
pub const ROUTER_REPLY_FIELD: &'static str = "reply";

/// The router script's answer read from its run: nothing when it failed or printed
/// nothing; else the `replace` and `reply` string fields of the JSON object on its last
/// output line (each `None` when that line is not such an object or lacks the field).
pub fn router_answer(succeeded: bool, stdout: &str) -> (r: (Option<String>, Option<String>))
    ensures
        !succeeded || stdout@.len() == 0 ==> r.0 is None && r.1 is None,
        succeeded && stdout@.len() > 0 ==> {
            let line = crate::shape::spec_last_line(stdout@);
            &&& match r.0 {
                Some(s) => json_text_field(line, ROUTER_REPLACE_FIELD@) == Some(s@),
                None => json_text_field(line, ROUTER_REPLACE_FIELD@) is None,
            }
            &&& match r.1 {
                Some(s) => json_text_field(line, ROUTER_REPLY_FIELD@) == Some(s@),
                None => json_text_field(line, ROUTER_REPLY_FIELD@) is None,
            }
        },
{
    if !succeeded || stdout.unicode_len() == 0 {
        return (None, None);
    }
    let line = crate::shape::last_line(stdout);
    let replace = json_field_of(line, ROUTER_REPLACE_FIELD);
    let reply = json_field_of(line, ROUTER_REPLY_FIELD);
    (replace, reply)
}

/// The router script's answer for rejected shell input, as a transcript note, and the
/// suggested command to put into the input box when the user has not typed anything since.
pub fn router_outcome(prompt: &str, replace: Option<String>, reply: Option<String>, input_is_empty: bool) -> (r: (
    Option<ChatMessage>,
    Option<String>,
))
    ensures
        match router_note_text(
            prompt@,
            match replace {
                Some(s) => Some(s@),
                None => None,
            },
            match reply {
                Some(s) => Some(s@),
                None => None,
            },
        ) {
            Some(t) => r.0 matches Some(m) && message_data(m) == MessageData::Assistant(t),
            None => r.0 is None,
        },
        match r.1 {
            Some(fill) => input_is_empty && (replace matches Some(s) && fill@ == s@),
            None => !input_is_empty || replace is None,
        },
{
    match replace {
        Some(replacement) => {
            let fill = if input_is_empty {
                Some(copy_text(&replacement))
            } else {
                None
            };
            let mut note = String::from_str(ROUTER_MATCH_PREFIX);
            let quoted = debug_quoted(prompt);
            note.append(quoted.as_str());
            crate::text::push_char(&mut note, ':');
            crate::text::push_char(&mut note, ' ');
            crate::text::push_char(&mut note, '`');
            note.append(replacement.as_str());
            crate::text::push_char(&mut note, '`');
            proof {
                assert(note@ =~= ROUTER_MATCH_PREFIX@ + debug_quoted_text(prompt@) + seq![':', ' ', '`'] + replacement@ + seq!['`']);
            }
            (Some(ChatMessage::Assistant(note)), fill)
        },
        None => match reply {
            Some(text) => (Some(ChatMessage::Assistant(text)), None),
            None => (None, None),
        },
    }
}

/// The reply for a `/shape` run that rendered, up to the page's address.
pub const SHAPE_DONE_PREFIX: &'static str = "Shape rendered above — opening a tab to ";

/// The reply for a `/shape` run that rendered, after the page's address.
pub const SHAPE_DONE_SUFFIX: &'static str = ", and wrote Shape.uxml/Shape.uss into Aby's Unity project (Assets/UI/Generated/).";

/// What a failed `/shape` run's reply starts with.
pub const SHAPE_FAILED_PREFIX: &'static str = "Shape command failed: ";

/// The reply for a `/shape` run: where its page opens, or why it failed.
pub open spec fn shape_reply(result: Result<Seq<char>, Seq<char>>) -> Seq<char> {
    match result {
        Ok(url) => SHAPE_DONE_PREFIX@ + url + SHAPE_DONE_SUFFIX@,
        Err(e) => SHAPE_FAILED_PREFIX@ + e,
    }
}

/// What a finished `/shape` run adds to the transcript (its tool call and its reply), and
/// the page to open in a tab when it rendered.
pub fn shape_command_outcome(result: Result<String, String>) -> (r: (Vec<ChatMessage>, Option<String>))
    ensures
        r.0@.map_values(|m: ChatMessage| message_data(m)) == seq![
            MessageData::Tool("shape"@, "shape"@, Seq::<Seq<char>>::empty()),
            MessageData::Assistant(shape_reply(result_view(result))),
        ],
        match result {
            Ok(url) => r.1 matches Some(u) && u@ == url@,
            Err(_) => r.1 is None,
        },
{
    let ghost rv = result_view(result);
    let (reply, open) = match result {
        Ok(url) => {
            let mut reply = String::from_str(SHAPE_DONE_PREFIX);
            reply.append(url.as_str());
            reply.append(SHAPE_DONE_SUFFIX);
            (reply, Some(url))
        },
        Err(error) => {
            let mut reply = String::from_str(SHAPE_FAILED_PREFIX);
            reply.append(error.as_str());
            (reply, None)
        },
    };
    let no_output: Vec<String> = Vec::new();
    proof {
        assert(no_output@.map_values(|l: String| l@) =~= Seq::<Seq<char>>::empty());
        reveal_strlit("shape");
    }
    let mut messages: Vec<ChatMessage> = Vec::new();
    messages.push(
        ChatMessage::Tool { name: String::from_str("shape"), detail: String::from_str("shape"), output: no_output },
    );
    messages.push(ChatMessage::Assistant(reply));
    proof {
        assert(messages@.map_values(|m: ChatMessage| message_data(m)) =~= seq![
            MessageData::Tool("shape"@, "shape"@, Seq::<Seq<char>>::empty()),
            MessageData::Assistant(shape_reply(rv)),
        ]);
    }
    (messages, open)
}

/// What happens once the page-opening script has waited for a page.
pub enum PageOutcome {
    /// The page answered: open it in a tab.
    Open(String),
    /// Tell the user this instead.
    Notify(String),
}

/// What the page-opening script's result means: silence means the page is up and opens in
/// a tab; any output is shown as is; a failure says which page could not be opened and why.
pub fn open_page_outcome(url: String, result: Result<String, String>) -> (r: PageOutcome)
    ensures
        match result {
            Ok(out) => if out@.len() == 0 {
                r matches PageOutcome::Open(u) && u@ == url@
            } else {
                r matches PageOutcome::Notify(t) && t@ == out@
            },
            Err(e) => r matches PageOutcome::Notify(t) && t@ == "Failed to open "@ + url@ + ": "@ + e@,
        },
{
    match result {
        Ok(output) => if output.unicode_len() == 0 {
            PageOutcome::Open(url)
        } else {
            PageOutcome::Notify(output)
        },
        Err(error) => {
            let mut text = String::from_str("Failed to open ");
            text.append(url.as_str());
            text.append(": ");
            text.append(error.as_str());
            PageOutcome::Notify(text)
        },
    }
}

} // verus!
