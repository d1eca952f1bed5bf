//! The transcript and task rows as persisted: which messages are kept out of a reloaded
//! history, how a tool call's output lines share one text column, and how stored rows
//! read back.

use vstd::prelude::*;
use vstd::string::*;

use crate::text::{
    chars_of, find_char, first_char_in, has_at, is_white_space, lemma_first_char_in, lemma_trim_end_cut, lemma_trim_padded, lemma_trim_start_cut, push_char, string_of,
    trim_bounds, trim_ws,
};

verus! {

broadcast use vstd::string::group_string_axioms;

/// A single turn in the transcript.
#[derive(Debug)]
pub enum ChatMessage {
    User(String),
    Assistant(String),
    /// A tool call with its output lines, shown when expanded.
    Tool { name: String, detail: String, output: Vec<String> },
    /// A line forwarded live while a command runs; ephemeral, never persisted.
    Trace(String),
}

/// One entry in the task overlay. `status` is `"done"`, `"running"` or `"pending"`.
#[derive(Debug)]
pub struct TaskRow {
    pub label: String,
    pub status: String,
}

/// What a JS command returns to mean "quit".
pub const QUIT_SENTINEL: &'static str = "💀";

/// What `/clear` returns on success.
pub const CLEAR_SENTINEL: &'static str = "🧹";

/// Separates a tool call's output lines inside one stored text (ASCII Record Separator),
/// so a line's own newlines survive.
pub const OUTPUT_SEPARATOR: char = '\u{1e}';

/// Whether `message` is recorded but never shown again in a reloaded transcript: `/quit`'s
/// own request, tool call and reply.
pub open spec fn spec_hidden(message: ChatMessage) -> bool {
    match message {
        ChatMessage::User(text) => trim_ws(text@) == "/quit"@,
        ChatMessage::Tool { name, detail, .. } => name@ == "js"@ && detail@ == "quit"@,
        ChatMessage::Assistant(text) => trim_ws(text@) == QUIT_SENTINEL@,
        ChatMessage::Trace(_) => false,
    }
}

/// Whether `text`, trimmed of white space when `trim`, is exactly `lit`.
fn text_is(text: &str, lit: &str, trim: bool) -> (r: bool)
    ensures
        r == ((if trim { trim_ws(text@) } else { text@ }) == lit@),
{
    let chars = chars_of(text);
    let pat = chars_of(lit);
    let (a, b) = trim_bounds(&chars, 0, chars.len(), trim, trim);
    proof {
        assert(chars@.subrange(0, chars@.len() as int) =~= text@);
    }
    if b - a != pat.len() {
        return false;
    }
    let r = has_at(&chars, a, &pat);
    r
}

/// Whether `message` is kept out of a reloaded transcript.
pub fn is_hidden_from_history(message: &ChatMessage) -> (r: bool)
    ensures
        r == spec_hidden(*message),
{
    match message {
        ChatMessage::User(text) => text_is(text.as_str(), "/quit", true),
        ChatMessage::Tool { name, detail, .. } => text_is(name.as_str(), "js", false) && text_is(
            detail.as_str(),
            "quit",
            false,
        ),
        ChatMessage::Assistant(text) => text_is(text.as_str(), QUIT_SENTINEL, true),
        ChatMessage::Trace(_) => false,
    }
}

/// A reply that is the quit sentinel with any white space around it is kept out of a
/// reloaded transcript, however much white space pads it on either side.
pub proof fn law_padded_quit_reply_is_hidden(text: String, front: Seq<char>, back: Seq<char>)
    requires
        forall|i: int| 0 <= i < front.len() ==> is_white_space(#[trigger] front[i]),
        forall|i: int| 0 <= i < back.len() ==> is_white_space(#[trigger] back[i]),
        text@ == front + QUIT_SENTINEL@ + back,
    ensures
        spec_hidden(ChatMessage::Assistant(text)),
{
    reveal_strlit("\u{1f480}");
    let x = QUIT_SENTINEL@;
    assert(x.len() == 1);
    assert(!is_white_space(x[0]));
    lemma_trim_padded(front, x, back);
}

/// A reply kept out of a reloaded transcript is the quit sentinel and white space: it holds
/// the sentinel once, at some place, and every other character of it is white space.
pub proof fn law_hidden_reply_is_padded_quit(text: String)
    requires
        spec_hidden(ChatMessage::Assistant(text)),
    ensures
        exists|at: int|
            0 <= at && at + QUIT_SENTINEL@.len() <= text@.len() && #[trigger] text@.subrange(at, at + QUIT_SENTINEL@.len())
                == QUIT_SENTINEL@ && (forall|i: int|
                0 <= i < text@.len() && !(at <= i < at + QUIT_SENTINEL@.len()) ==> is_white_space(text@[i])),
{
    let t = text@;
    let a = lemma_trim_start_cut(t);
    let u = t.subrange(a, t.len() as int);
    let b = lemma_trim_end_cut(u);
    assert(trim_ws(t) == u.subrange(0, b));
    assert(u.subrange(0, b) == QUIT_SENTINEL@);
    assert(t.subrange(a, a + b) =~= u.subrange(0, b));
    assert forall|i: int| 0 <= i < t.len() && !(a <= i < a + QUIT_SENTINEL@.len()) implies is_white_space(t[i]) by {
        if i >= a + b {
            assert(t[i] == u[i - a]);
        }
    }
}

/// A `/quit` request with any white space around it is kept out of a reloaded transcript,
/// however much white space pads it on either side.
pub proof fn law_padded_quit_request_is_hidden(text: String, front: Seq<char>, back: Seq<char>)
    requires
        forall|i: int| 0 <= i < front.len() ==> is_white_space(#[trigger] front[i]),
        forall|i: int| 0 <= i < back.len() ==> is_white_space(#[trigger] back[i]),
        text@ == front + "/quit"@ + back,
    ensures
        spec_hidden(ChatMessage::User(text)),
{
    reveal_strlit("/quit");
    let x = "/quit"@;
    assert(!is_white_space(x[0]));
    assert(!is_white_space(x.last()));
    lemma_trim_padded(front, x, back);
}

/// `lines` joined into one text with `sep` between neighbours.
pub open spec fn join_with(lines: Seq<Seq<char>>, sep: char) -> Seq<char>
    decreases lines.len(),
{
    if lines.len() == 0 {
        Seq::empty()
    } else if lines.len() == 1 {
        lines[0]
    } else {
        lines[0] + seq![sep] + join_with(lines.drop_first(), sep)
    }
}

/// The position of the first `sep` in `s`, if any.
pub open spec fn first_sep(s: Seq<char>, sep: char) -> Option<int>
    decreases s.len(),
{
    if s.len() == 0 {
        None
    } else if s[0] == sep {
        Some(0)
    } else {
        match first_sep(s.drop_first(), sep) {
            Some(i) => Some(i + 1),
            None => None,
        }
    }
}

/// The pieces of `s` between occurrences of `sep` (what `str::split` yields).
pub open spec fn split_on(s: Seq<char>, sep: char) -> Seq<Seq<char>>
    decreases s.len(),
{
    match first_sep(s, sep) {
        Some(i) => {
            proof {
                lemma_first_sep(s, sep);
            }
            seq![s.take(i)] + split_on(s.skip(i + 1), sep)
        },
        None => seq![s],
    }
}

/// Where [`first_sep`] points, `sep` is, and nowhere before.
pub proof fn lemma_first_sep(s: Seq<char>, sep: char)
    ensures
        first_sep(s, sep) matches Some(i) ==> 0 <= i < s.len() && s[i] == sep && forall|j: int| 0 <= j < i ==> s[j] != sep,
        first_sep(s, sep) is None ==> forall|j: int| 0 <= j < s.len() ==> s[j] != sep,
    decreases s.len(),
{
    if s.len() > 0 && s[0] != sep {
        lemma_first_sep(s.drop_first(), sep);
        assert forall|j: int| 1 <= j < s.len() implies s[j] == s.drop_first()[j - 1] by {}
    }
}

/// The output lines read back from their stored text: none for an empty text.
pub open spec fn spec_decode_output(joined: Seq<char>) -> Seq<Seq<char>> {
    if joined.len() == 0 {
        Seq::empty()
    } else {
        split_on(joined, OUTPUT_SEPARATOR)
    }
}

/// `lines` joined into one text with `sep` between neighbours.
pub fn join_strings(lines: &Vec<String>, sep: char) -> (r: String)
    ensures
        r@ == join_with(lines@.map_values(|l: String| l@), sep),
{
    let ghost views = lines@.map_values(|l: String| l@);
    let mut out = String::new();
    let n = lines.len();
    let mut k = 0usize;
    while k < n
        invariant
            k <= n,
            n == lines@.len(),
            views == lines@.map_values(|l: String| l@),
            out@ == join_with(views.take(k as int), sep),
        decreases n - k,
    {
        let ghost before = out@;
        if k > 0 {
            push_char(&mut out, sep);
        }
        let line = chars_of(lines[k].as_str());
        let mut j = 0usize;
        while j < line.len()
            invariant
                j <= line@.len(),
                out@ == (if k > 0 { before + seq![sep] } else { before }) + line@.take(j as int),
            decreases line@.len() - j,
        {
            push_char(&mut out, line[j]);
            proof {
                assert(line@.take(j + 1) =~= line@.take(j as int).push(line@[j as int]));
            }
            j = j + 1;
        }
        proof {
            assert(line@.take(line@.len() as int) =~= line@);
            lemma_join_push(views.take(k as int), views[k as int], sep);
            assert(views.take(k + 1) =~= views.take(k as int).push(views[k as int]));
        }
        k = k + 1;
    }
    proof {
        assert(views.take(n as int) =~= views);
    }
    out
}

/// The stored text for a tool call's output lines.
pub fn encode_output(output: &Vec<String>) -> (r: String)
    ensures
        r@ == join_with(output@.map_values(|l: String| l@), OUTPUT_SEPARATOR),
{
    join_strings(output, OUTPUT_SEPARATOR)
}

/// Joining one more line appends a separator and the line.
pub proof fn lemma_join_push(lines: Seq<Seq<char>>, line: Seq<char>, sep: char)
    ensures
        join_with(lines.push(line), sep) == (if lines.len() == 0 {
            line
        } else {
            join_with(lines, sep) + seq![sep] + line
        }),
    decreases lines.len(),
{
    if lines.len() == 0 {
        assert(lines.push(line) =~= seq![line]);
        assert(join_with(seq![line], sep) == line);
    } else if lines.len() == 1 {
        assert(lines.push(line).drop_first() =~= seq![line]);
        assert(join_with(seq![line], sep) == line);
        assert(lines.push(line)[0] == lines[0]);
    } else {
        assert(lines.push(line)[0] == lines[0]);
        assert(lines.push(line).drop_first() =~= lines.drop_first().push(line));
        lemma_join_push(lines.drop_first(), line, sep);
        assert(lines[0] + seq![sep] + (join_with(lines.drop_first(), sep) + seq![sep] + line) =~= lines[0]
            + seq![sep] + join_with(lines.drop_first(), sep) + seq![sep] + line);
    }
}

proof fn lemma_first_sep_is(s: Seq<char>, sep: char, i: int)
    requires
        0 <= i <= s.len(),
        i < s.len() ==> s[i] == sep,
        forall|j: int| 0 <= j < i ==> s[j] != sep,
    ensures
        first_sep(s, sep) == (if i < s.len() { Some(i) } else { None::<int> }),
{
    lemma_first_sep(s, sep);
    match first_sep(s, sep) {
        Some(k) => {
            if k < i {
                assert(s[k] != sep);
            }
            if k > i && i < s.len() {
                assert(s[i] != sep);
            }
        },
        None => {
            if i < s.len() {
                assert(s[i] != sep);
            }
        },
    }
}

/// The output lines stored in `joined`: none for an empty text, otherwise the pieces
/// between separators.
pub fn decode_output(joined: &str) -> (r: Vec<String>)
    ensures
        r@.map_values(|l: String| l@) == spec_decode_output(joined@),
{
    let chars = chars_of(joined);
    let n = chars.len();
    let mut out: Vec<String> = Vec::new();
    if n == 0 {
        proof {
            assert(out@.map_values(|l: String| l@) =~= Seq::<Seq<char>>::empty());
        }
        return out;
    }
    let mut start: usize = 0;
    proof {
        assert(chars@.skip(0) =~= joined@);
        assert(out@.map_values(|l: String| l@) =~= Seq::<Seq<char>>::empty());
    }
    loop
        invariant
            start <= n,
            n == chars@.len(),
            chars@ == joined@,
            n > 0,
            out@.map_values(|l: String| l@) + split_on(chars@.skip(start as int), OUTPUT_SEPARATOR)
                == split_on(joined@, OUTPUT_SEPARATOR),
        decreases n - start,
    {
        let ghost rest = chars@.skip(start as int);
        let e = find_char(&chars, OUTPUT_SEPARATOR, start, n);
        proof {
            lemma_first_char_in(chars@, OUTPUT_SEPARATOR, start as int, n as int);
            assert forall|j: int| 0 <= j < e - start implies rest[j] != OUTPUT_SEPARATOR by {
                assert(rest[j] == chars@[start + j]);
            }
            if e < n {
                assert(rest[e - start] == chars@[e as int]);
            }
            lemma_first_sep_is(rest, OUTPUT_SEPARATOR, e - start);
            assert(rest.take(e - start) =~= chars@.subrange(start as int, e as int));
        }
        let piece = string_of(&chars, start, e);
        let ghost before = out@;
        out.push(piece);
        proof {
            assert(out@.map_values(|l: String| l@) =~= before.map_values(|l: String| l@).push(
                chars@.subrange(start as int, e as int),
            ));
        }
        if e < n {
            proof {
                assert(rest.skip(e - start + 1) =~= chars@.skip(e + 1));
                assert(split_on(rest, OUTPUT_SEPARATOR) == seq![chars@.subrange(start as int, e as int)]
                    + split_on(chars@.skip(e + 1), OUTPUT_SEPARATOR));
                assert(out@.map_values(|l: String| l@) + split_on(chars@.skip(e + 1), OUTPUT_SEPARATOR)
                    =~= before.map_values(|l: String| l@) + split_on(rest, OUTPUT_SEPARATOR));
            }
            start = e + 1;
        } else {
            proof {
                assert(split_on(rest, OUTPUT_SEPARATOR) == seq![rest]);
                assert(rest =~= chars@.subrange(start as int, e as int));
                assert(out@.map_values(|l: String| l@) =~= before.map_values(|l: String| l@)
                    + split_on(rest, OUTPUT_SEPARATOR));
            }
            return out;
        }
    }
}

proof fn lemma_split_join(lines: Seq<Seq<char>>, sep: char)
    requires
        lines.len() >= 1,
        forall|i: int, j: int| 0 <= i < lines.len() && 0 <= j < lines[i].len() ==> lines[i][j] != sep,
    ensures
        split_on(join_with(lines, sep), sep) == lines,
    decreases lines.len(),
{
    if lines.len() == 1 {
        lemma_first_sep_is(lines[0], sep, lines[0].len() as int);
        assert(seq![lines[0]] =~= lines);
    } else {
        let rest = lines.drop_first();
        let j = join_with(lines, sep);
        assert forall|a: int, b: int| 0 <= a < rest.len() && 0 <= b < rest[a].len() implies rest[a][b] != sep by {
            assert(rest[a] == lines[a + 1]);
        }
        lemma_split_join(rest, sep);
        assert forall|k: int| 0 <= k < lines[0].len() implies j[k] != sep by {
            assert(j[k] == lines[0][k]);
        }
        lemma_first_sep_is(j, sep, lines[0].len() as int);
        assert(j.take(lines[0].len() as int) =~= lines[0]);
        assert(j.skip(lines[0].len() + 1 as int) =~= join_with(rest, sep));
        assert(seq![lines[0]] + rest =~= lines);
    }
}

/// Reading stored output lines back gives the lines that were written, as long as no
/// line holds the separator itself and the output is not one single empty line (which is
/// stored as the same empty text as no output at all).
pub proof fn law_output_round_trip(lines: Seq<Seq<char>>)
    requires
        forall|i: int, j: int| 0 <= i < lines.len() && 0 <= j < lines[i].len() ==> lines[i][j] != OUTPUT_SEPARATOR,
        !(lines.len() == 1 && lines[0].len() == 0),
    ensures
        spec_decode_output(join_with(lines, OUTPUT_SEPARATOR)) == lines,
{
    if lines.len() == 0 {
        assert(join_with(lines, OUTPUT_SEPARATOR).len() == 0);
        assert(spec_decode_output(Seq::empty()) =~= lines);
    } else {
        if lines.len() >= 2 {
            assert(join_with(lines, OUTPUT_SEPARATOR).len() > 0);
        }
        lemma_split_join(lines, OUTPUT_SEPARATOR);
    }
}

/// A message's plain values.
pub enum MessageData {
    User(Seq<char>),
    Assistant(Seq<char>),
    Tool(Seq<char>, Seq<char>, Seq<Seq<char>>),
    Trace(Seq<char>),
}

/// The plain values of `message`.
pub open spec fn message_data(message: ChatMessage) -> MessageData {
    match message {
        ChatMessage::User(t) => MessageData::User(t@),
        ChatMessage::Assistant(t) => MessageData::Assistant(t@),
        ChatMessage::Tool { name, detail, output } => MessageData::Tool(
            name@,
            detail@,
            output@.map_values(|l: String| l@),
        ),
        ChatMessage::Trace(t) => MessageData::Trace(t@),
    }
}

/// One stored transcript row: its `kind` column, the text columns (NULL as `None`) and
/// the `hidden` flag.
pub struct MessageRow {
    pub kind: String,
    pub content: Option<String>,
    pub tool_name: Option<String>,
    pub tool_detail: Option<String>,
    pub tool_output: Option<String>,
    pub hidden: bool,
}

/// A row's plain values: kind, content, tool name, tool detail, tool output, hidden.
pub type RowData = (Seq<char>, Option<Seq<char>>, Option<Seq<char>>, Option<Seq<char>>, Option<Seq<char>>, bool);

/// The plain values of an optional text.
pub open spec fn opt_view(t: Option<String>) -> Option<Seq<char>> {
    match t {
        Some(s) => Some(s@),
        None => None,
    }
}

/// The plain values of `row`.
pub open spec fn row_data(row: MessageRow) -> RowData {
    (row.kind@, opt_view(row.content), opt_view(row.tool_name), opt_view(row.tool_detail), opt_view(row.tool_output), row.hidden)
}

/// The row a message is stored as, with whether it is hidden on reload; a live trace line
/// is never stored.
pub open spec fn spec_message_row(d: MessageData, hidden: bool) -> Option<RowData> {
    match d {
        MessageData::User(t) => Some(("user"@, Some(t), None, None, None, hidden)),
        MessageData::Assistant(t) => Some(("assistant"@, Some(t), None, None, None, hidden)),
        MessageData::Tool(name, detail, output) => Some(
            ("tool"@, None, Some(name), Some(detail), Some(join_with(output, OUTPUT_SEPARATOR)), hidden),
        ),
        MessageData::Trace(_) => None,
    }
}

/// A stored column that must hold text was NULL; it holds the column's index in the
/// `kind, content, tool_name, tool_detail, tool_output` selection.
#[derive(Debug, Clone, Copy, PartialEq, Eq, Structural)]
pub enum RowError {
    NullColumn(u8),
}

/// What a stored row reads back as: the message, `None` for an unknown kind (skipped), or
/// the first NULL among the columns its kind needs.
pub open spec fn spec_message_from_row(row: RowData) -> Result<Option<MessageData>, RowError> {
    let (kind, content, tool_name, tool_detail, tool_output, _) = row;
    if kind == "user"@ {
        match content {
            Some(t) => Ok(Some(MessageData::User(t))),
            None => Err(RowError::NullColumn(1)),
        }
    } else if kind == "assistant"@ {
        match content {
            Some(t) => Ok(Some(MessageData::Assistant(t))),
            None => Err(RowError::NullColumn(1)),
        }
    } else if kind == "tool"@ {
        match (tool_name, tool_detail) {
            (Some(name), Some(detail)) => Ok(Some(MessageData::Tool(
                name,
                detail,
                spec_decode_output(
                    match tool_output {
                        Some(o) => o,
                        None => Seq::empty(),
                    },
                ),
            ))),
            (None, _) => Err(RowError::NullColumn(2)),
            (Some(_), None) => Err(RowError::NullColumn(3)),
        }
    } else {
        Ok(None)
    }
}

/// The row `message` is stored as; `None` for a trace line, which is never stored.
pub fn message_row(message: &ChatMessage) -> (r: Option<MessageRow>)
    ensures
        match r {
            Some(row) => spec_message_row(message_data(*message), spec_hidden(*message)) == Some(row_data(row)),
            None => spec_message_row(message_data(*message), spec_hidden(*message)) is None,
        },
{
    let hidden = is_hidden_from_history(message);
    match message {
        ChatMessage::User(text) => {
            proof {
                reveal_strlit("user");
            }
            Some(MessageRow {
                kind: String::from_str("user"),
                content: Some(text.clone()),
                tool_name: None,
                tool_detail: None,
                tool_output: None,
                hidden,
            })
        },
        ChatMessage::Assistant(text) => {
            proof {
                reveal_strlit("assistant");
            }
            Some(MessageRow {
                kind: String::from_str("assistant"),
                content: Some(text.clone()),
                tool_name: None,
                tool_detail: None,
                tool_output: None,
                hidden,
            })
        },
        ChatMessage::Tool { name, detail, output } => {
            proof {
                reveal_strlit("tool");
            }
            let joined = encode_output(output);
            Some(MessageRow {
                kind: String::from_str("tool"),
                content: None,
                tool_name: Some(name.clone()),
                tool_detail: Some(detail.clone()),
                tool_output: Some(joined),
                hidden,
            })
        },
        ChatMessage::Trace(_) => None,
    }
}

/// Reads a stored row back (its `hidden` flag is not consulted: hidden rows are filtered
/// out before they are read).
pub fn message_from_row(row: &MessageRow) -> (r: Result<Option<ChatMessage>, RowError>)
    ensures
        match r {
            Ok(Some(m)) => spec_message_from_row(row_data(*row)) == Ok::<Option<MessageData>, RowError>(
                Some(message_data(m)),
            ),
            Ok(None) => spec_message_from_row(row_data(*row)) == Ok::<Option<MessageData>, RowError>(None),
            Err(e) => spec_message_from_row(row_data(*row)) == Err::<Option<MessageData>, RowError>(e),
        },
{
    match crate::anvil::stored_kind(row.kind.as_str()) {
        Some(crate::anvil::StoredKind::User) => match &row.content {
            Some(t) => Ok(Some(ChatMessage::User(t.clone()))),
            None => Err(RowError::NullColumn(1)),
        },
        Some(crate::anvil::StoredKind::Assistant) => match &row.content {
            Some(t) => Ok(Some(ChatMessage::Assistant(t.clone()))),
            None => Err(RowError::NullColumn(1)),
        },
        Some(crate::anvil::StoredKind::Tool) => match (&row.tool_name, &row.tool_detail) {
            (Some(name), Some(detail)) => {
                let output = match &row.tool_output {
                    Some(o) => decode_output(o.as_str()),
                    None => decode_output(""),
                };
                proof {
                    reveal_strlit("");
                }
                Ok(Some(ChatMessage::Tool { name: name.clone(), detail: detail.clone(), output }))
            },
            (None, _) => Err(RowError::NullColumn(2)),
            (Some(_), None) => Err(RowError::NullColumn(3)),
        },
        None => Ok(None),
    }
}

/// Storing a message and reading its row back gives the same message, for every message
/// that is stored at all, as long as no output line of a tool call holds the separator and
/// its output is not one single empty line.
pub proof fn law_message_row_round_trip(d: MessageData, hidden: bool)
    requires
        !(d is Trace),
        d matches MessageData::Tool(_, _, output) ==> {
            &&& forall|i: int, j: int| 0 <= i < output.len() && 0 <= j < output[i].len() ==> output[i][j] != OUTPUT_SEPARATOR
            &&& !(output.len() == 1 && output[0].len() == 0)
        },
    ensures
        spec_message_row(d, hidden) matches Some(row) && spec_message_from_row(row) == Ok::<Option<MessageData>, RowError>(Some(d)),
{
    reveal_strlit("user");
    reveal_strlit("assistant");
    reveal_strlit("tool");
    assert("user"@.len() != "assistant"@.len());
    assert("user"@[0] != "tool"@[0]);
    assert("user"@ != "tool"@);
    assert("assistant"@.len() != "tool"@.len());
    match d {
        MessageData::Tool(name, detail, output) => {
            law_output_round_trip(output);
        },
        _ => {},
    }
}

} // verus!
