//! Slash commands: the built-in list, reading a script's exported metadata, splitting
//! `/name args` input, and matching a partly typed name against the known commands.

use vstd::prelude::*;
use vstd::string::*;
use vstd::multiset::Multiset;

use crate::shape::strip_trailing_cr;
use crate::content::{first_newline, lemma_first_newline};
use crate::text::{append_text, chars_of, has_at, text_eq, is_white_space, string_of, trim_bounds, trim_end_ws, trim_start_ws, trim_ws};

verus! {

broadcast use vstd::string::group_string_axioms;

#[verifier::external_type_specification]
#[verifier::external_body]
pub struct ExPathBuf(std::path::PathBuf);

/// `<PathBuf as Clone>::clone`: an equal path.
#[verifier::external_body]
fn clone_path(p: &std::path::PathBuf) -> (r: std::path::PathBuf)
    ensures
        r == *p,
{
    p.clone()
}

/// A known `/command`, matched and completed against by name.
pub struct SlashCommand {
    pub name: String,
    /// Empty means the command takes no arguments.
    pub args_hint: String,
    pub description: String,
    /// The script that runs the command; `None` for commands dispatched by the app itself.
    pub script: Option<std::path::PathBuf>,
}

impl SlashCommand {
    /// A command; `args_hint: None` means it takes no arguments.
    pub fn new(name: &str, args_hint: Option<&str>, description: &str, script: Option<std::path::PathBuf>) -> (r: Self)
        ensures
            r.name@ == name@,
            r.args_hint@ == (match args_hint {
                Some(h) => h@,
                None => Seq::empty(),
            }),
            r.description@ == description@,
            r.script == script,
    {
        SlashCommand {
            name: name.to_owned(),
            args_hint: match args_hint {
                Some(h) => h.to_owned(),
                None => String::new(),
            },
            description: description.to_owned(),
            script,
        }
    }

    /// A copy of this command.
    pub fn duplicate(&self) -> (r: Self)
        ensures
            r.name@ == self.name@,
            r.args_hint@ == self.args_hint@,
            r.description@ == self.description@,
            r.script == self.script,
    {
        SlashCommand {
            name: self.name.clone(),
            args_hint: self.args_hint.clone(),
            description: self.description.clone(),
            script: match &self.script {
                Some(p) => Some(clone_path(p)),
                None => None,
            },
        }
    }
}

/// The commands the app dispatches itself, in the order they are listed.
pub fn builtin_commands() -> (r: Vec<SlashCommand>)
    ensures
        r@.len() == 8,
        r@[0].name@ == "task"@ && r@[0].args_hint@ == "<label>"@,
        r@[1].name@ == "relay-console"@ && r@[1].args_hint@.len() == 0,
        r@[2].name@ == "workspace"@ && r@[2].args_hint@.len() == 0,
        r@[3].name@ == "browser"@ && r@[3].args_hint@ == "<url>"@,
        r@[4].name@ == "scene"@ && r@[4].args_hint@.len() == 0,
        r@[5].name@ == "shape"@ && r@[5].args_hint@.len() == 0,
        r@[6].name@ == "inspect"@ && r@[6].args_hint@.len() == 0,
        r@[7].name@ == "welcome"@ && r@[7].args_hint@.len() == 0,
        forall|i: int| 0 <= i < 8 ==> (#[trigger] r@[i]).script is None,
{
    let mut v: Vec<SlashCommand> = Vec::new();
    v.push(SlashCommand::new("task", Some("<label>"), "Add a task to the overlay", None));
    v.push(SlashCommand::new("relay-console", None, "Open the P2P relay/state debug console", None));
    v.push(SlashCommand::new(
        "workspace",
        None,
        "List Brainbow projects Ethos's Workspace model discovers under the current directory",
        None,
    ));
    v.push(SlashCommand::new("browser", Some("<url>"), "Open a URL in the tabbed browser window", None));
    v.push(SlashCommand::new(
        "scene",
        None,
        "Open a Bevy window for scene visualization (stub — shows an empty tinted scene)",
        None,
    ));
    v.push(SlashCommand::new("shape", None, "Render a fixed demo shape across terminal/web/Unity outputs", None));
    v.push(SlashCommand::new("inspect", None, "Inspect live app state (turns, persistence)", None));
    v.push(SlashCommand::new("welcome", None, "Toggle the new-user overview shown on an empty transcript", None));
    v
}

/// The position of the first `' '` in `s`, if any.
pub open spec fn first_space(s: Seq<char>) -> Option<int>
    decreases s.len(),
{
    if s.len() == 0 {
        None
    } else if s[0] == ' ' {
        Some(0)
    } else {
        match first_space(s.drop_first()) {
            Some(i) => Some(i + 1),
            None => None,
        }
    }
}

proof fn lemma_first_space(s: Seq<char>, k: int)
    requires
        0 <= k <= s.len(),
        forall|i: int| 0 <= i < k ==> s[i] != ' ',
        k == s.len() || s[k] == ' ',
    ensures
        first_space(s) == (if k < s.len() { Some(k) } else { None::<int> }),
    decreases s.len(),
{
    if s.len() > 0 && s[0] != ' ' {
        lemma_first_space(s.drop_first(), k - 1);
    }
}

/// How `/name args` input splits: the name without its `/`, and the text after the first
/// space with leading white space trimmed (empty while the name is still being typed).
pub open spec fn spec_parse_slash(input: Seq<char>) -> Option<(Seq<char>, Seq<char>)> {
    if input.len() > 0 && input[0] == '/' {
        let rest = input.drop_first();
        match first_space(rest) {
            Some(j) => Some((rest.take(j), trim_start_ws(rest.skip(j + 1)))),
            None => Some((rest, Seq::empty())),
        }
    } else {
        None
    }
}

/// Splits a `/command args...` input into the command name and what follows it, if it
/// starts with `/` at all. `Some((name, ""))` means the name is still being typed.
pub fn parse_slash_command(input: &str) -> (r: Option<(&str, &str)>)
    ensures
        match r {
            Some((name, args)) => spec_parse_slash(input@) == Some((name@, args@)),
            None => spec_parse_slash(input@) is None,
        },
{
    let chars = chars_of(input);
    let n = chars.len();
    if n == 0 || chars[0] != '/' {
        return None;
    }
    let mut j: usize = 1;
    while j < n && chars[j] != ' '
        invariant
            1 <= j <= n,
            n == chars@.len(),
            forall|i: int| 1 <= i < j ==> chars@[i] != ' ',
        decreases n - j,
    {
        j = j + 1;
    }
    let ghost rest = input@.drop_first();
    proof {
        lemma_first_space(rest, j - 1);
    }
    if j < n {
        let (a, b) = trim_bounds(&chars, j + 1, n, true, false);
        proof {
            assert(rest.take(j - 1) =~= chars@.subrange(1, j as int));
            assert(rest.skip(j as int) =~= chars@.subrange(j + 1, n as int));
        }
        Some((input.substring_char(1, j), input.substring_char(a, b)))
    } else {
        proof {
            assert(rest =~= chars@.subrange(1, n as int));
        }
        Some((input.substring_char(1, n), input.substring_char(n, n)))
    }
}

/// The lines of `s` as `str::lines` yields them: split at `"\n"` or `"\r\n"`, the final
/// line ending optional, no line for an empty text.
pub open spec fn spec_lines(s: Seq<char>) -> Seq<Seq<char>>
    decreases s.len(),
{
    if s.len() == 0 {
        Seq::empty()
    } else {
        let i = first_newline(s);
        if i < s.len() {
            proof {
                lemma_first_newline(s);
            }
            seq![strip_trailing_cr(s.take(i as int))] + spec_lines(s.skip(i + 1 as int))
        } else {
            seq![s]
        }
    }
}

/// How many lines `str::lines` yields for `s`.
pub fn line_count(s: &str) -> (r: usize)
    ensures
        r == spec_lines(s@).len(),
{
    let chars = chars_of(s);
    let n = chars.len();
    let mut start: usize = 0;
    let mut count: usize = 0;
    proof {
        assert(chars@.skip(0) =~= s@);
    }
    while start < n
        invariant
            start <= n,
            n == chars@.len(),
            chars@ == s@,
            count <= start,
            count + spec_lines(chars@.skip(start as int)).len() == spec_lines(s@).len(),
        decreases n - start,
    {
        let ghost t = chars@.skip(start as int);
        let mut end = start;
        while end < n && chars[end] != '\n'
            invariant
                start <= end <= n,
                n == chars@.len(),
                forall|i: int| start <= i < end ==> chars@[i] != '\n',
            decreases n - end,
        {
            end = end + 1;
        }
        proof {
            lemma_first_newline(t);
            let i = first_newline(t);
            if i < end - start {
                assert(t[i as int] == chars@[start + i]);
            }
            if end < n {
                assert(t[end - start] == chars@[end as int]);
            }
            assert(i == end - start);
            if end < n {
                assert(t.skip(end - start + 1) =~= chars@.skip(end + 1));
            }
        }
        count = count + 1;
        if end < n {
            start = end + 1;
        } else {
            start = n;
            proof {
                assert(chars@.skip(n as int) =~= Seq::<char>::empty());
            }
        }
    }
    proof {
        assert(chars@.skip(start as int) =~= Seq::<char>::empty());
    }
    count
}

/// The lines of `s`, as `str::lines` yields them.
pub(crate) fn lines_of(s: &str) -> (r: Vec<String>)
    ensures
        r@.map_values(|l: String| l@) == spec_lines(s@),
{
    let chars = chars_of(s);
    let n = chars.len();
    let mut start: usize = 0;
    let mut out: Vec<String> = Vec::new();
    proof {
        assert(chars@.skip(0) =~= s@);
        assert(out@.map_values(|l: String| l@) + spec_lines(chars@.skip(0)) =~= spec_lines(s@));
    }
    while start < n
        invariant
            start <= n,
            n == chars@.len(),
            chars@ == s@,
            out@.map_values(|l: String| l@) + spec_lines(chars@.skip(start as int)) == spec_lines(s@),
        decreases n - start,
    {
        let ghost t = chars@.skip(start as int);
        let mut end = start;
        while end < n && chars[end] != '\n'
            invariant
                start <= end <= n,
                n == chars@.len(),
                forall|i: int| start <= i < end ==> chars@[i] != '\n',
            decreases n - end,
        {
            end = end + 1;
        }
        proof {
            lemma_first_newline(t);
            let i = first_newline(t);
            if i < end - start {
                assert(t[i as int] == chars@[start + i]);
            }
            if end < n {
                assert(t[end - start] == chars@[end as int]);
            }
            assert(i == end - start);
            if end < n {
                assert(t.skip(end - start + 1) =~= chars@.skip(end + 1));
            }
            assert(t.take(end - start) =~= chars@.subrange(start as int, end as int));
        }
        let stop = if end > start && chars[end - 1] == '\r' && end < n { end - 1 } else { end };
        let ghost before = out@.map_values(|l: String| l@);
        out.push(string_of(&chars, start, stop));
        proof {
            let line = chars@.subrange(start as int, stop as int);
            if end < n {
                assert(line =~= strip_trailing_cr(t.take(end - start)));
            } else {
                assert(t =~= chars@.subrange(start as int, n as int));
                assert(line =~= t);
            }
            assert(out@.map_values(|l: String| l@) =~= before.push(line));
        }
        proof {
            let line = chars@.subrange(start as int, stop as int);
            if end < n {
                assert(spec_lines(t) == seq![line] + spec_lines(chars@.skip(end + 1)));
                assert(before.push(line) + spec_lines(chars@.skip(end + 1)) =~= before + spec_lines(t));
            } else {
                assert(spec_lines(t) == seq![line]);
                assert(chars@.skip(n as int) =~= Seq::<char>::empty());
                assert(before.push(line) + spec_lines(chars@.skip(n as int)) =~= before + spec_lines(t));
            }
        }
        if end < n {
            start = end + 1;
        } else {
            start = n;
        }
    }
    proof {
        assert(chars@.skip(start as int) =~= Seq::<char>::empty());
        assert(out@.map_values(|l: String| l@) + Seq::<Seq<char>>::empty() =~= out@.map_values(|l: String| l@));
    }
    out
}

/// `s` without every trailing `c`.
pub open spec fn trim_end_char(s: Seq<char>, c: char) -> Seq<char>
    decreases s.len(),
{
    if s.len() > 0 && s.last() == c {
        trim_end_char(s.drop_last(), c)
    } else {
        s
    }
}

/// Whether `t` is `q...q`: at least two characters, opened and closed by `q`.
pub open spec fn quoted_by(t: Seq<char>, q: char) -> bool {
    t.len() >= 2 && t[0] == q && t.last() == q
}

/// What one source line says about the constant whose declaration starts with `prefix`:
/// `Some(None)` for `= null`, `Some(Some(v))` for a `"v"` or `'v'` literal, `None` when
/// the line is not such a declaration.
pub open spec fn exported_value(line: Seq<char>, prefix: Seq<char>) -> Option<Option<Seq<char>>> {
    let t = trim_ws(line);
    if t.len() >= prefix.len() && t.take(prefix.len() as int) == prefix {
        let rest = trim_ws(trim_end_char(trim_ws(t.skip(prefix.len() as int)), ';'));
        if rest == "null"@ {
            Some(None)
        } else if quoted_by(rest, '"') || quoted_by(rest, '\'') {
            Some(Some(rest.subrange(1, rest.len() - 1)))
        } else {
            None
        }
    } else {
        None
    }
}

/// The first declaration among `lines` that [`exported_value`] recognizes.
pub open spec fn first_exported(lines: Seq<Seq<char>>, prefix: Seq<char>) -> Option<Option<Seq<char>>>
    decreases lines.len(),
{
    if lines.len() == 0 {
        None
    } else {
        match exported_value(lines[0], prefix) {
            Some(v) => Some(v),
            None => first_exported(lines.drop_first(), prefix),
        }
    }
}

/// The declaration prefix `export const {name} =`.
pub open spec fn export_prefix(name: Seq<char>) -> Seq<char> {
    "export const "@ + name + " ="@
}

/// What a command script declares as `export const {name} = ...;`.
pub open spec fn spec_read_exported(source: Seq<char>, name: Seq<char>) -> Option<Option<Seq<char>>> {
    first_exported(spec_lines(source), export_prefix(name))
}

proof fn lemma_trim_end_char_skip(s: Seq<char>, c: char, k: int)
    requires
        0 <= k <= s.len(),
        forall|i: int| k <= i < s.len() ==> s[i] == c,
    ensures
        trim_end_char(s, c) == trim_end_char(s.subrange(0, k), c),
    decreases s.len() - k,
{
    if k < s.len() {
        assert(s.drop_last().subrange(0, k) =~= s.subrange(0, k));
        lemma_trim_end_char_skip(s.drop_last(), c, k);
    } else {
        assert(s.subrange(0, k) =~= s);
    }
}

/// What the line `chars[from..to]` declares.
fn line_value(chars: &Vec<char>, from: usize, to: usize, prefix: &Vec<char>) -> (r: Option<Option<String>>)
    requires
        from <= to <= chars@.len(),
    ensures
        match r {
            Some(Some(v)) => exported_value(chars@.subrange(from as int, to as int), prefix@) == Some(Some(v@)),
            Some(None) => exported_value(chars@.subrange(from as int, to as int), prefix@) == Some(None::<Seq<char>>),
            None => exported_value(chars@.subrange(from as int, to as int), prefix@) is None,
        },
{
    let ghost line = chars@.subrange(from as int, to as int);
    let (a, b) = trim_bounds(chars, from, to, true, true);
    let plen = prefix.len();
    if plen > b - a || !has_at(chars, a, prefix) {
        proof {
            let t = trim_ws(line);
            assert(t =~= chars@.subrange(a as int, b as int));
            if t.len() >= plen {
                assert(t.take(plen as int) =~= chars@.subrange(a as int, a + plen));
            }
        }
        return None;
    }
    let (c, d0) = trim_bounds(chars, a + plen, b, true, true);
    let mut d = d0;
    while d > c && chars[d - 1] == ';'
        invariant
            c <= d <= d0 <= chars@.len(),
            forall|i: int| d <= i < d0 ==> chars@[i] == ';',
        decreases d - c,
    {
        d = d - 1;
    }
    let (e, f) = trim_bounds(chars, c, d, true, true);
    let ghost rest = chars@.subrange(e as int, f as int);
    proof {
        let t = trim_ws(line);
        assert(t =~= chars@.subrange(a as int, b as int));
        assert(t.take(plen as int) =~= chars@.subrange(a as int, a + plen));
        assert(t.skip(plen as int) =~= chars@.subrange(a + plen, b as int));
        let u = chars@.subrange(c as int, d0 as int);
        lemma_trim_end_char_skip(u, ';', d - c);
        assert(u.subrange(0, d - c) =~= chars@.subrange(c as int, d as int));
        let w = chars@.subrange(c as int, d as int);
        if w.len() > 0 {
            assert(w.last() == chars@[d - 1]);
        }
        assert(trim_end_char(u, ';') == w);
        assert(rest == trim_ws(trim_end_char(trim_ws(t.skip(plen as int)), ';')));
    }
    let len = f - e;
    if len == 4 && chars[e] == 'n' && chars[e + 1] == 'u' && chars[e + 2] == 'l' && chars[e + 3] == 'l' {
        proof {
            reveal_strlit("null");
            assert(rest =~= "null"@);
        }
        return Some(None);
    }
    proof {
        reveal_strlit("null");
        if rest == "null"@ {
            assert(rest[0] == 'n' && rest[1] == 'u' && rest[2] == 'l' && rest[3] == 'l');
        }
    }
    if len >= 2 && ((chars[e] == '"' && chars[f - 1] == '"') || (chars[e] == '\'' && chars[f - 1] == '\'')) {
        proof {
            assert(rest.subrange(1, rest.len() - 1) =~= chars@.subrange(e + 1, f - 1));
        }
        return Some(Some(string_of(chars, e + 1, f - 1)));
    }
    None
}

/// Reads `export const {name} = "literal";` (or `= null;`) from a command script's
/// source, by a plain text scan rather than running the script. `None` when the constant
/// is not exported this way, `Some(None)` for an explicit `null`, `Some(Some(v))` for a
/// quoted string literal.
pub fn read_exported_string_const(source: &str, name: &str) -> (r: Option<Option<String>>)
    ensures
        match r {
            Some(Some(v)) => spec_read_exported(source@, name@) == Some(Some(v@)),
            Some(None) => spec_read_exported(source@, name@) == Some(None::<Seq<char>>),
            None => spec_read_exported(source@, name@) is None,
        },
{
    let mut prefix = chars_of("export const ");
    let mut name_chars = chars_of(name);
    let mut tail = chars_of(" =");
    prefix.append(&mut name_chars);
    prefix.append(&mut tail);
    proof {
        assert(prefix@ =~= export_prefix(name@));
    }
    let chars = chars_of(source);
    let n = chars.len();
    let mut start: usize = 0;
    proof {
        assert(chars@.skip(0) =~= source@);
    }
    while start < n
        invariant
            start <= n,
            n == chars@.len(),
            prefix@ == export_prefix(name@),
            first_exported(spec_lines(chars@.skip(start as int)), prefix@) == spec_read_exported(source@, name@),
        decreases n - start,
    {
        let ghost s = chars@.skip(start as int);
        let mut end = start;
        while end < n && chars[end] != '\n'
            invariant
                start <= end <= n,
                n == chars@.len(),
                forall|i: int| start <= i < end ==> chars@[i] != '\n',
            decreases n - end,
        {
            end = end + 1;
        }
        proof {
            lemma_first_newline(s);
            let i = first_newline(s);
            if i < end - start {
                assert(s[i as int] == chars@[start + i]);
            }
            if end < n {
                assert(s[end - start] == chars@[end as int]);
            }
            assert(i == end - start);
            assert(s.take(i as int) =~= chars@.subrange(start as int, end as int));
        }
        let mut line_end = end;
        if end < n && end > start && chars[end - 1] == '\r' {
            line_end = end - 1;
        }
        proof {
            let raw = chars@.subrange(start as int, end as int);
            if end < n {
                if end > start && chars@[end - 1] == '\r' {
                    assert(raw.drop_last() =~= chars@.subrange(start as int, line_end as int));
                }
                assert(strip_trailing_cr(raw) == chars@.subrange(start as int, line_end as int));
                assert(s.skip(end - start + 1) =~= chars@.skip(end + 1));
            } else {
                assert(s =~= raw);
            }
            assert(spec_lines(s)[0] == chars@.subrange(start as int, line_end as int));
            assert(spec_lines(s).drop_first() == (if end < n {
                spec_lines(chars@.skip(end + 1))
            } else {
                Seq::empty()
            }));
        }
        let v = line_value(&chars, start, line_end, &prefix);
        if v.is_some() {
            return v;
        }
        if end < n {
            start = end + 1;
        } else {
            start = n;
            proof {
                assert(chars@.skip(n as int) =~= Seq::<char>::empty());
            }
        }
    }
    proof {
        assert(chars@.skip(start as int) =~= Seq::<char>::empty());
    }
    None
}

/// A command's name, argument hint, description and script.
pub type CommandView = (Seq<char>, Seq<char>, Seq<char>, Option<std::path::PathBuf>);

/// The plain values a command carries.
pub open spec fn command_view(c: SlashCommand) -> CommandView {
    (c.name@, c.args_hint@, c.description@, c.script)
}

/// Whether `s` starts with `p`.
pub open spec fn starts_with(s: Seq<char>, p: Seq<char>) -> bool {
    p.len() <= s.len() && s.take(p.len() as int) == p
}

/// Whether `p` occurs somewhere in `s`.
pub open spec fn contains_text(s: Seq<char>, p: Seq<char>) -> bool {
    exists|i: int| 0 <= i && i + p.len() <= s.len() && #[trigger] s.subrange(i, i + p.len()) == p
}

/// The commands matching `partial`: those whose name starts with it, in order, then the
/// others whose name merely contains it, in order.
pub open spec fn spec_matching(
    commands: Seq<CommandView>,
    partial: Seq<char>,
) -> Seq<CommandView> {
    commands.filter(name_starts(partial)) + commands.filter(name_contains_later(partial))
}

/// Commands whose name starts with `partial`.
pub open spec fn name_starts(partial: Seq<char>) -> spec_fn(CommandView) -> bool {
    |c: CommandView| starts_with(c.0, partial)
}

/// Commands whose name contains `partial` but does not start with it.
pub open spec fn name_contains_later(partial: Seq<char>) -> spec_fn(CommandView) -> bool {
    |c: CommandView| !starts_with(c.0, partial) && contains_text(c.0, partial)
}

fn name_contains(name: &Vec<char>, p: &Vec<char>) -> (r: bool)
    ensures
        r == contains_text(name@, p@),
{
    let n = name.len();
    if p.len() > n {
        return false;
    }
    let last = n - p.len();
    let mut i: usize = 0;
    loop
        invariant
            n == name@.len(),
            p@.len() <= n,
            last == n - p@.len(),
            i <= last,
            forall|j: int| 0 <= j < i ==> #[trigger] name@.subrange(j, j + p@.len()) != p@,
        decreases last - i,
    {
        if has_at(name, i, p) {
            return true;
        }
        if i == last {
            return false;
        }
        i = i + 1;
    }
}

/// Every known command matching `partial_name`: `""` matches everything, a full name
/// matches itself. Prefix matches come first, then any command whose name contains
/// `partial_name` elsewhere (so `relay-console` is found by typing `console`).
pub fn matching_commands(commands: &[SlashCommand], partial_name: &str) -> (r: Vec<SlashCommand>)
    ensures
        r@.map_values(|c: SlashCommand| command_view(c)) == spec_matching(
            commands@.map_values(|c: SlashCommand| command_view(c)),
            partial_name@,
        ),
{
    let ghost views = commands@.map_values(|c: SlashCommand| command_view(c));
    let p = chars_of(partial_name);
    let mut first: Vec<SlashCommand> = Vec::new();
    let mut second: Vec<SlashCommand> = Vec::new();
    let n = commands.len();
    for i in 0..n
        invariant
            n == commands@.len(),
            p@ == partial_name@,
            views == commands@.map_values(|c: SlashCommand| command_view(c)),
            first@.map_values(|c: SlashCommand| command_view(c)) == views.take(i as int).filter(name_starts(partial_name@)),
            second@.map_values(|c: SlashCommand| command_view(c)) == views.take(i as int).filter(name_contains_later(partial_name@)),
    {
        proof {
            reveal_with_fuel(Seq::filter, 1);
            assert(views.take(i + 1).drop_last() =~= views.take(i as int));
        }
        let name = chars_of(commands[i].name.as_str());
        let is_prefix = p.len() <= name.len() && has_at(&name, 0, &p);
        let contained = name_contains(&name, &p);
        proof {
            if p@.len() <= name@.len() {
                assert(name@.subrange(0, p@.len() as int) =~= name@.take(p@.len() as int));
            }
            assert(views.take(i + 1).last() == command_view(commands@[i as int]));
            assert(views[i as int].0 == name@);
            assert(is_prefix == name_starts(partial_name@)(views[i as int]));
            assert((!is_prefix && contained) == name_contains_later(partial_name@)(views[i as int]));
        }
        if is_prefix {
            let c = commands[i].duplicate();
            let ghost before = first@;
            first.push(c);
            proof {
                assert(first@.map_values(|c: SlashCommand| command_view(c)) =~= before.map_values(
                    |c: SlashCommand| command_view(c),
                ).push(command_view(commands@[i as int])));
            }
        } else if contained {
            let c = commands[i].duplicate();
            let ghost before = second@;
            second.push(c);
            proof {
                assert(second@.map_values(|c: SlashCommand| command_view(c)) =~= before.map_values(
                    |c: SlashCommand| command_view(c),
                ).push(command_view(commands@[i as int])));
            }
        }
    }
    let ghost f = first@;
    let ghost g = second@;
    first.append(&mut second);
    proof {
        assert(views.take(n as int) =~= views);
        assert(first@.map_values(|c: SlashCommand| command_view(c)) =~= f.map_values(
            |c: SlashCommand| command_view(c),
        ) + g.map_values(|c: SlashCommand| command_view(c)));
    }
    first
}

/// An empty partial name lists every command, in order.
pub proof fn law_empty_partial_lists_everything(commands: Seq<CommandView>)
    ensures
        spec_matching(commands, Seq::empty()) == commands,
{
    lemma_all_start_with_empty(commands);
    lemma_none_later_for_empty(commands);
    assert(commands + Seq::<CommandView>::empty() =~= commands);
}

/// No command is a "contains but not prefix" match of the empty text.
proof fn lemma_none_later_for_empty(commands: Seq<CommandView>)
    ensures
        commands.filter(name_contains_later(Seq::empty())) == Seq::<CommandView>::empty(),
    decreases commands.len(),
{
    reveal_with_fuel(Seq::filter, 1);
    if commands.len() > 0 {
        lemma_none_later_for_empty(commands.drop_last());
        assert(commands.last().0.take(0) =~= Seq::<char>::empty());
        assert(!name_contains_later(Seq::empty())(commands.last()));
    }
}

/// Every name starts with the empty text, so the empty partial keeps every command in its
/// first half.
proof fn lemma_all_start_with_empty(commands: Seq<CommandView>)
    ensures
        commands.filter(name_starts(Seq::empty())) == commands,
    decreases commands.len(),
{
    reveal_with_fuel(Seq::filter, 1);
    if commands.len() > 0 {
        lemma_all_start_with_empty(commands.drop_last());
        assert(commands.last().0.take(0) =~= Seq::<char>::empty());
        assert(commands.drop_last().push(commands.last()) =~= commands);
    }
}

/// A command's full name lists that command among its matches.
pub proof fn law_full_name_matches_itself(commands: Seq<CommandView>, i: int)
    requires
        0 <= i < commands.len(),
    ensures
        spec_matching(commands, commands[i].0).contains(commands[i]),
    decreases commands.len(),
{
    reveal_with_fuel(Seq::filter, 1);
    let name = commands[i].0;
    let f = commands.filter(name_starts(name));
    if i == commands.len() - 1 {
        assert(commands[i].0.take(commands[i].0.len() as int) =~= commands[i].0);
        assert(name_starts(name)(commands.last()));
        assert(f == commands.drop_last().filter(name_starts(name)).push(commands.last()));
        assert(f[f.len() - 1] == commands[i]);
    } else {
        law_full_name_matches_itself(commands.drop_last(), i);
        let g = commands.drop_last().filter(name_starts(name));
        assert(commands.drop_last()[i] == commands[i]);
        lemma_starts_with_self(name);
        assert(g.contains(commands[i])) by {
            lemma_prefix_filter_contains(commands.drop_last(), i);
        }
        let k = choose|k: int| 0 <= k < g.len() && g[k] == commands[i];
        if name_starts(name)(commands.last()) {
            assert(f == g.push(commands.last()));
            assert(f[k] == commands[i]);
        } else {
            assert(f == g);
        }
        assert(spec_matching(commands, name)[k] == f[k]);
    }
    assert(f.contains(commands[i]));
    let k = choose|k: int| 0 <= k < f.len() && f[k] == commands[i];
    assert(spec_matching(commands, name)[k] == commands[i]);
}

proof fn lemma_starts_with_self(name: Seq<char>)
    ensures
        starts_with(name, name),
{
    assert(name.take(name.len() as int) =~= name);
}

/// The prefix half of the matches for a command's own name holds that command.
proof fn lemma_prefix_filter_contains(commands: Seq<CommandView>, i: int)
    requires
        0 <= i < commands.len(),
    ensures
        commands.filter(name_starts(commands[i].0)).contains(commands[i]),
    decreases commands.len(),
{
    reveal_with_fuel(Seq::filter, 1);
    let name = commands[i].0;
    lemma_starts_with_self(name);
    let f = commands.filter(name_starts(name));
    if i == commands.len() - 1 {
        assert(f == commands.drop_last().filter(name_starts(name)).push(commands.last()));
        assert(f[f.len() - 1] == commands[i]);
    } else {
        assert(commands.drop_last()[i] == commands[i]);
        lemma_prefix_filter_contains(commands.drop_last(), i);
        let g = commands.drop_last().filter(name_starts(name));
        let k = choose|k: int| 0 <= k < g.len() && g[k] == commands[i];
        if name_starts(name)(commands.last()) {
            assert(f == g.push(commands.last()));
            assert(f[k] == commands[i]);
        } else {
            assert(f == g);
        }
    }
}

/// Whether a script command takes no arguments when its script does not say: `clear` and
/// `quit`.
pub open spec fn no_args_by_default(name: Seq<char>) -> bool {
    name == "clear"@ || name == "quit"@
}

/// The command a script under a `commands/` directory declares. Its name is the script's
/// exported `command` string, else the file's stem; its description the exported
/// `description` string, else "Run <name> (<path>)" with the script's path relative to the
/// search root; its argument hint the exported `argsHint` (`null` meaning no arguments),
/// else no arguments for `clear` and `quit` and `<args>` for every other command.
pub fn command_from_script(source: &str, file_stem: &str, relative_path: &str, script: std::path::PathBuf) -> (r: SlashCommand)
    ensures
        r.name@ == (match spec_read_exported(source@, "command"@) {
            Some(Some(n)) => n,
            _ => file_stem@,
        }),
        r.description@ == (match spec_read_exported(source@, "description"@) {
            Some(Some(d)) => d,
            _ => "Run "@ + r.name@ + " ("@ + relative_path@ + ")"@,
        }),
        r.args_hint@ == (match spec_read_exported(source@, "argsHint"@) {
            Some(Some(h)) => h,
            Some(None) => Seq::empty(),
            None => if no_args_by_default(r.name@) {
                Seq::empty()
            } else {
                "<args>"@
            },
        }),
        r.script == Some(script),
{
    let name = match read_exported_string_const(source, "command") {
        Some(Some(n)) => n,
        _ => file_stem.to_owned(),
    };
    let description = match read_exported_string_const(source, "description") {
        Some(Some(d)) => d,
        _ => {
            let mut d = String::new();
            append_text(&mut d, "Run ");
            append_text(&mut d, name.as_str());
            append_text(&mut d, " (");
            append_text(&mut d, relative_path);
            append_text(&mut d, ")");
            proof {
                assert(d@ =~= "Run "@ + name@ + " ("@ + relative_path@ + ")"@);
            }
            d
        },
    };
    let args_hint = match read_exported_string_const(source, "argsHint") {
        Some(Some(h)) => h,
        Some(None) => String::new(),
        None => {
            if text_eq(name.as_str(), "clear") || text_eq(name.as_str(), "quit") {
                String::new()
            } else {
                "<args>".to_owned()
            }
        },
    };
    SlashCommand { name, args_hint, description, script: Some(script) }
}

/// What the search for command scripts does with a directory entry named `name`.
#[derive(Clone, Copy, Debug, PartialEq, Eq, Structural)]
pub enum DirVisit {
    /// Hidden (`.git`, `.cargo`, ...) or dependency/build output (`node_modules`, `target`):
    /// never entered.
    Skip,
    /// A `commands` directory: its scripts are collected, and it is not searched further for
    /// more `commands` directories.
    Commands,
    /// Anything else: searched for `commands` directories.
    Descend,
}

/// How the search treats a directory named `name`.
pub fn dir_visit(name: &str) -> (r: DirVisit)
    ensures
        r == (if (name@.len() > 0 && name@[0] == '.') || name@ == "node_modules"@ || name@ == "target"@ {
            DirVisit::Skip
        } else if name@ == "commands"@ {
            DirVisit::Commands
        } else {
            DirVisit::Descend
        }),
{
    let chars = chars_of(name);
    if (chars.len() > 0 && chars[0] == '.') || text_eq(name, "node_modules") || text_eq(name, "target") {
        DirVisit::Skip
    } else if text_eq(name, "commands") {
        DirVisit::Commands
    } else {
        DirVisit::Descend
    }
}

/// Whether a file with this extension is a command script: `js` exactly.
pub fn is_command_script(extension: Option<&str>) -> (r: bool)
    ensures
        r == (extension matches Some(e) && e@ == "js"@),
{
    match extension {
        Some(e) => text_eq(e, "js"),
        None => false,
    }
}

/// `a` comes no later than `b` in the order of names: character by character by code
/// point, a name before any longer name it starts.
pub open spec fn name_at_most(a: Seq<char>, b: Seq<char>) -> bool
    decreases a.len(),
{
    if a.len() == 0 {
        true
    } else if b.len() == 0 {
        false
    } else if a[0] != b[0] {
        (a[0] as int) < (b[0] as int)
    } else {
        name_at_most(a.drop_first(), b.drop_first())
    }
}

/// Of two names, one always comes no later than the other.
pub proof fn lemma_name_order_total(a: Seq<char>, b: Seq<char>)
    ensures
        name_at_most(a, b) || name_at_most(b, a),
    decreases a.len(),
{
    if a.len() > 0 && b.len() > 0 {
        if a[0] == b[0] {
            lemma_name_order_total(a.drop_first(), b.drop_first());
        } else {
            assert((a[0] as int) != (b[0] as int));
        }
    }
}

/// Whether `a` comes no later than `b`.
fn name_not_after(a: &str, b: &str) -> (r: bool)
    ensures
        r == name_at_most(a@, b@),
{
    let x = chars_of(a);
    let y = chars_of(b);
    let mut i: usize = 0;
    proof {
        assert(a@.skip(0) =~= a@);
        assert(b@.skip(0) =~= b@);
    }
    while i < x.len() && i < y.len() && x[i] == y[i]
        invariant
            x@ == a@,
            y@ == b@,
            i <= x@.len(),
            i <= y@.len(),
            forall|j: int| 0 <= j < i ==> x@[j] == y@[j],
            name_at_most(a@, b@) == name_at_most(a@.skip(i as int), b@.skip(i as int)),
        decreases x@.len() - i,
    {
        proof {
            assert(a@.skip(i as int).drop_first() =~= a@.skip(i + 1));
            assert(b@.skip(i as int).drop_first() =~= b@.skip(i + 1));
        }
        i = i + 1;
    }
    proof {
        if i < x@.len() {
            assert(a@.skip(i as int)[0] == x@[i as int]);
        }
        if i < y@.len() {
            assert(b@.skip(i as int)[0] == y@[i as int]);
        }
    }
    if i == x.len() {
        true
    } else if i == y.len() {
        false
    } else {
        x[i] < y[i]
    }
}

/// Every name comes no later than the next one.
pub open spec fn sorted_by_name(commands: Seq<SlashCommand>) -> bool {
    forall|i: int| 0 <= i < commands.len() - 1 ==> name_at_most(#[trigger] commands[i].name@, commands[i + 1].name@)
}

/// Coming no later is transitive.
proof fn lemma_name_order_trans(a: Seq<char>, b: Seq<char>, c: Seq<char>)
    requires
        name_at_most(a, b),
        name_at_most(b, c),
    ensures
        name_at_most(a, c),
    decreases a.len(),
{
    if a.len() > 0 && b.len() > 0 && c.len() > 0 && a[0] == b[0] && b[0] == c[0] {
        lemma_name_order_trans(a.drop_first(), b.drop_first(), c.drop_first());
    }
}

/// In a list sorted by name, every name comes no later than every name after it.
proof fn lemma_sorted_pairs(s: Seq<SlashCommand>, i: int, j: int)
    requires
        sorted_by_name(s),
        0 <= i <= j < s.len(),
    ensures
        name_at_most(s[i].name@, s[j].name@),
    decreases j - i,
{
    if i == j {
        lemma_name_at_most_refl(s[i].name@);
    } else {
        lemma_sorted_pairs(s, i, j - 1);
        assert(name_at_most(s[j - 1].name@, s[j].name@));
        lemma_name_order_trans(s[i].name@, s[j - 1].name@, s[j].name@);
    }
}

/// Every name comes no later than itself.
proof fn lemma_name_at_most_refl(a: Seq<char>)
    ensures
        name_at_most(a, a),
    decreases a.len(),
{
    if a.len() > 0 {
        lemma_name_at_most_refl(a.drop_first());
    }
}

/// Taking the first of the unsorted commands and inserting it where the sorting puts it
/// (after every command whose name comes no later) keeps, for each name, the commands of
/// that name in the same order.
proof fn lemma_filter_step(before_out: Seq<SlashCommand>, k: int, item: SlashCommand, rest: Seq<SlashCommand>, n: Seq<char>)
    requires
        sorted_by_name(before_out),
        0 <= k <= before_out.len(),
        k < before_out.len() ==> !name_at_most(before_out[k].name@, item.name@),
    ensures
        before_out.insert(k, item).filter(named(n)) + rest.filter(named(n)) == before_out.filter(named(n)) + (seq![item]
            + rest).filter(named(n)),
{
    let p = named(n);
    let head = before_out.take(k);
    let tail = before_out.skip(k);
    assert(before_out =~= head + tail);
    assert(before_out.insert(k, item) =~= head + seq![item] + tail);
    Seq::filter_distributes_over_add(head, tail, p);
    Seq::filter_distributes_over_add(head + seq![item], tail, p);
    Seq::filter_distributes_over_add(head, seq![item], p);
    Seq::filter_distributes_over_add(seq![item], rest, p);
    reveal_with_fuel(Seq::filter, 2);
    if item.name@ == n {
        assert forall|j: int| 0 <= j < tail.len() implies !p(tail[j]) by {
            assert(tail[j] == before_out[k + j]);
            lemma_sorted_pairs(before_out, k, k + j);
            if before_out[k + j].name@ == n {
                assert(name_at_most(before_out[k].name@, item.name@));
            }
        }
        tail.lemma_all_neg_filter_empty(p);
        assert(tail.filter(p) =~= Seq::<SlashCommand>::empty());
    }
    assert(before_out.insert(k, item).filter(p) + rest.filter(p) =~= before_out.filter(p) + (seq![item] + rest).filter(p));
}

/// The commands named `n`.
pub open spec fn named(n: Seq<char>) -> spec_fn(SlashCommand) -> bool {
    |c: SlashCommand| c.name@ == n
}

/// The commands ordered by name. Commands of the same name keep their order.
pub fn sort_by_name(commands: Vec<SlashCommand>) -> (r: Vec<SlashCommand>)
    ensures
        r@.to_multiset() == commands@.to_multiset(),
        sorted_by_name(r@),
        forall|n: Seq<char>| #[trigger] r@.filter(named(n)) == commands@.filter(named(n)),
{
    broadcast use vstd::seq_lib::group_to_multiset_ensures, vstd::multiset::group_multiset_axioms, vstd::multiset::lemma_multiset_empty_len;

    let mut out: Vec<SlashCommand> = Vec::new();
    let mut rest = commands;
    let ghost given = rest@;
    proof {
        assert(out@.to_multiset().len() == 0);
        assert(out@.to_multiset() =~= Multiset::<SlashCommand>::empty());
        assert(out@.to_multiset().add(rest@.to_multiset()) =~= given.to_multiset());
        assert forall|n: Seq<char>| #[trigger] out@.filter(named(n)) + rest@.filter(named(n)) == given.filter(named(n)) by {
            assert(out@.filter(named(n)) =~= Seq::<SlashCommand>::empty());
            assert(Seq::<SlashCommand>::empty() + rest@.filter(named(n)) =~= rest@.filter(named(n)));
        }
    }
    while rest.len() > 0
        invariant
            out@.to_multiset().add(rest@.to_multiset()) == given.to_multiset(),
            sorted_by_name(out@),
            forall|n: Seq<char>| #[trigger] out@.filter(named(n)) + rest@.filter(named(n)) == given.filter(named(n)),
        decreases rest@.len(),
    {
        let ghost before_rest = rest@;
        let item = rest.remove(0);
        proof {
            assert(rest@ == before_rest.remove(0));
            vstd::seq_lib::to_multiset_remove(before_rest, 0);
            assert(before_rest.contains(item)) by {
                assert(before_rest[0] == item);
            }
            vstd::seq_lib::to_multiset_contains(before_rest, item);
            assert(before_rest.to_multiset().count(item) > 0);
        }
        let mut k = out.len();
        while k > 0 && !name_not_after(out[k - 1].name.as_str(), item.name.as_str())
            invariant
                k <= out@.len(),
                k < out@.len() ==> !name_at_most(out@[k as int].name@, item.name@),
            decreases k,
        {
            k = k - 1;
        }
        let ghost before_out = out@;
        proof {
            if k < before_out.len() {
                lemma_name_order_total(before_out[k as int].name@, item.name@);
            }
        }
        out.insert(k, item);
        proof {
            assert(out@ == before_out.insert(k as int, item));
            assert forall|i: int| 0 <= i < out@.len() - 1 implies name_at_most(#[trigger] out@[i].name@, out@[i + 1].name@) by {
                if i < k as int - 1 {
                    assert(out@[i] == before_out[i] && out@[i + 1] == before_out[i + 1]);
                } else if i == k as int - 1 {
                    assert(out@[i] == before_out[i] && out@[i + 1] == item);
                } else if i == k as int {
                    assert(out@[i] == item && out@[i + 1] == before_out[i]);
                } else {
                    assert(out@[i] == before_out[i - 1] && out@[i + 1] == before_out[i]);
                }
            }
            vstd::seq_lib::to_multiset_insert(before_out, k as int, item);
            assert(out@.to_multiset() == before_out.to_multiset().insert(item));
            assert(out@.to_multiset().add(rest@.to_multiset()) =~= given.to_multiset());
            assert(before_rest =~= seq![item] + rest@);
            assert forall|n: Seq<char>| #[trigger] out@.filter(named(n)) + rest@.filter(named(n)) == given.filter(named(n)) by {
                lemma_filter_step(before_out, k as int, item, rest@, n);
            }
        }
    }
    proof {
        assert(rest@.to_multiset().len() == 0);
        assert(rest@.to_multiset() =~= Multiset::<SlashCommand>::empty());
        assert(out@.to_multiset().add(rest@.to_multiset()) =~= out@.to_multiset());
        assert forall|n: Seq<char>| #[trigger] out@.filter(named(n)) == given.filter(named(n)) by {
            assert(rest@.filter(named(n)) =~= Seq::<SlashCommand>::empty());
            assert(out@.filter(named(n)) + rest@.filter(named(n)) =~= out@.filter(named(n)));
        }
    }
    out
}

} // verus!
