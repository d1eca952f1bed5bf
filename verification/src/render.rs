//! The terminal text of the assistant view: the command rows of the palette, the tasks
//! overlay, a task's own page and the welcome overview, colored with `owo-colors` in the
//! theme's colors and aligned by `unicode-width` columns.

use vstd::prelude::*;
use vstd::string::*;

use owo_colors::OwoColorize;

use crate::commands::{lines_of, spec_lines, SlashCommand};
use crate::palette::{highlight_parts, spec_highlight_parts};
use crate::history::{join_strings, join_with, TaskRow};
use crate::styleguide::{spec_lookup, ColorTable};
use crate::anvil::InspectSubpage;
use crate::text::{append_text, push_char};

verus! {

broadcast use vstd::string::group_string_axioms;

/// A color's red, green and blue.
pub type Rgb = (u8, u8, u8);

/// The colors the terminal view paints with.
#[derive(Clone, Copy, Debug, PartialEq, Eq)]
pub struct Theme {
    /// Headings, command names, the picked-row marker.
    pub accent: Rgb,
    /// Argument hints.
    pub accent_warn: Rgb,
    /// Finished tasks, user messages.
    pub success: Rgb,
    /// Warnings.
    pub danger: Rgb,
    /// Secondary text.
    pub muted: Rgb,
    /// The overlay's background.
    pub background: Rgb,
}

/// The theme's colors when the styleguide names none.
pub open spec fn fallback_theme() -> Theme {
    Theme {
        accent: (97, 175, 239),
        accent_warn: (204, 154, 77),
        success: (106, 153, 85),
        danger: (217, 83, 79),
        muted: (138, 138, 138),
        background: (32, 32, 32),
    }
}

/// The color named `name` in the styleguide's table, else `fallback`.
pub open spec fn token_or(table: Seq<(Seq<char>, Rgb)>, name: Seq<char>, fallback: Rgb) -> Rgb {
    match spec_lookup(table, name) {
        Some(c) => c,
        None => fallback,
    }
}

/// The color named `name` in `table`, else `fallback`.
fn token(table: &ColorTable, name: &str, fallback: Rgb) -> (r: Rgb)
    ensures
        r == token_or(table@, name@, fallback),
{
    match table.color(name) {
        Some(c) => c,
        None => fallback,
    }
}

/// The theme the styleguide's color tokens give: `accent`, `accent-warn`, `success`,
/// `danger`, `text-muted` and `background`, each falling back to the built-in color when
/// the styleguide lacks it.
pub fn theme_from(table: &ColorTable) -> (r: Theme)
    ensures
        r.accent == token_or(table@, "accent"@, fallback_theme().accent),
        r.accent_warn == token_or(table@, "accent-warn"@, fallback_theme().accent_warn),
        r.success == token_or(table@, "success"@, fallback_theme().success),
        r.danger == token_or(table@, "danger"@, fallback_theme().danger),
        r.muted == token_or(table@, "text-muted"@, fallback_theme().muted),
        r.background == token_or(table@, "background"@, fallback_theme().background),
{
    Theme {
        accent: token(table, "accent", (97, 175, 239)),
        accent_warn: token(table, "accent-warn", (204, 154, 77)),
        success: token(table, "success", (106, 153, 85)),
        danger: token(table, "danger", (217, 83, 79)),
        muted: token(table, "text-muted", (138, 138, 138)),
        background: token(table, "background", (32, 32, 32)),
    }
}

/// The decimal digits of `n`, without leading zeros.
pub open spec fn decimal(n: u8) -> Seq<char> {
    if n < 10 {
        seq![(48 + n) as char]
    } else if n < 100 {
        seq![(48 + n / 10) as char, (48 + n % 10) as char]
    } else {
        seq![(48 + n / 100) as char, (48 + (n / 10) % 10) as char, (48 + n % 10) as char]
    }
}

/// `text` in the foreground color `c`: the 24-bit color escape, the text, then the escape
/// back to the default foreground.
pub open spec fn painted(text: Seq<char>, c: Rgb) -> Seq<char> {
    "\x1b[38;2;"@ + decimal(c.0) + ";"@ + decimal(c.1) + ";"@ + decimal(c.2) + "m"@ + text + "\x1b[39m"@
}

/// `text` in bold: the bold escape, the text, then the reset escape.
pub open spec fn emboldened(text: Seq<char>) -> Seq<char> {
    "\x1b[1m"@ + text + "\x1b[0m"@
}

/// `OwoColorize::truecolor` displayed (owo-colors): claimed to write `"\x1b[38;2;R;G;Bm"`
/// (the components in decimal), the text, then `"\x1b[39m"`, as the crate's `Rgb` color
/// and `FgDynColorDisplay` write them.
#[verifier::external_body]
fn paint(text: &str, c: Rgb) -> (r: String)
    ensures
        r@ == painted(text@, c),
{
    format!("{}", text.truecolor(c.0, c.1, c.2))
}

/// `OwoColorize::bold` displayed (owo-colors): claimed to write `"\x1b[1m"`, the text,
/// then `"\x1b[0m"`, as the crate's `BoldDisplay` writes them.
#[verifier::external_body]
fn embolden(text: &str) -> (r: String)
    ensures
        r@ == emboldened(text@),
{
    format!("{}", text.bold())
}

/// The columns `unicode_width::UnicodeWidthStr::width` gives a text.
pub uninterp spec fn str_columns(s: Seq<char>) -> usize;

/// Whether every character of `s` is printable ASCII, `' '` to `'~'`.
pub open spec fn printable_ascii(s: Seq<char>) -> bool {
    forall|i: int| 0 <= i < s.len() ==> 0x20 <= (#[trigger] s[i] as u32) && (s[i] as u32) < 0x7f
}

/// The columns a text takes: one per character for printable ASCII, otherwise what
/// `unicode_width` gives ([`str_columns`]).
pub open spec fn text_columns(s: Seq<char>) -> usize {
    if printable_ascii(s) {
        s.len() as usize
    } else {
        str_columns(s)
    }
}

/// `unicode_width::UnicodeWidthStr::width`: claimed to be a function of the characters
/// alone, named [`str_columns`], and one column per character for printable ASCII (the
/// crate's source gives every character up to U+00A0 one column, but for a line feed and a
/// carriage return before one, and starts no multi-character sequence on ASCII). What it
/// gives for other texts is only named.
#[verifier::external_body]
fn str_width(s: &str) -> (r: usize)
    ensures
        r == text_columns(s@),
        !printable_ascii(s@) ==> r == str_columns(s@),
{
    unicode_width::UnicodeWidthStr::width(s)
}

/// `n` spaces.
pub open spec fn spaces(n: nat) -> Seq<char> {
    Seq::new(n, |i: int| ' ')
}

/// A `String` of `n` spaces.
fn spaces_text(n: usize) -> (r: String)
    ensures
        r@ == spaces(n as nat),
{
    let mut out = String::new();
    let mut i: usize = 0;
    while i < n
        invariant
            i <= n,
            out@ == spaces(i as nat),
        decreases n - i,
    {
        push_char(&mut out, ' ');
        proof {
            assert(out@ =~= spaces((i + 1) as nat));
        }
        i = i + 1;
    }
    out
}

/// `/name`, the label a command is listed under.
pub open spec fn name_label(c: SlashCommand) -> Seq<char> {
    seq!['/'] + c.name@
}

/// The widest of `texts` in columns, 0 for none.
pub open spec fn max_columns(texts: Seq<Seq<char>>) -> usize
    decreases texts.len(),
{
    if texts.len() == 0 {
        0
    } else {
        let m = max_columns(texts.drop_last());
        let w = text_columns(texts.last());
        if w > m { w } else { m }
    }
}

/// The column the names are padded to.
pub open spec fn names_width(commands: Seq<SlashCommand>) -> usize {
    max_columns(commands.map_values(|c: SlashCommand| name_label(c)))
}

/// The column the argument hints are padded to.
pub open spec fn hints_width(commands: Seq<SlashCommand>) -> usize {
    max_columns(commands.map_values(|c: SlashCommand| c.args_hint@))
}

/// The marker before a picked row.
pub const PICKED_MARKER: &'static str = "\u{25b8} ";
/// What stands before any other row.
pub const ROW_INDENT: &'static str = "  ";

/// One command's row: the marker (`▸ ` picked out in the accent color on the picked row),
/// the `/name` in the accent color (bold on the picked row), spaces to two past the
/// widest name, the argument hint in the warning color, spaces to two past the widest
/// hint, then the description in the muted color.
pub open spec fn command_row(c: SlashCommand, picked: bool, name_w: usize, hint_w: usize, theme: Theme) -> Seq<char> {
    (if picked { painted(PICKED_MARKER@, theme.accent) } else { ROW_INDENT@ }) + (if picked {
        emboldened(painted(name_label(c), theme.accent))
    } else {
        painted(name_label(c), theme.accent)
    }) + spaces((name_w - text_columns(name_label(c)) + 2) as nat) + painted(c.args_hint@, theme.accent_warn)
        + spaces((hint_w - text_columns(c.args_hint@) + 2) as nat) + painted(c.description@, theme.muted)
}

proof fn lemma_max_columns_bounds(texts: Seq<Seq<char>>, i: int)
    requires
        0 <= i < texts.len(),
    ensures
        text_columns(texts[i]) <= max_columns(texts),
    decreases texts.len(),
{
    if i < texts.len() - 1 {
        lemma_max_columns_bounds(texts.drop_last(), i);
    }
}

/// The widest of the texts in columns.
fn widest(texts: &Vec<String>) -> (r: usize)
    ensures
        r == max_columns(texts@.map_values(|t: String| t@)),
{
    let ghost views = texts@.map_values(|t: String| t@);
    let mut m: usize = 0;
    let mut i: usize = 0;
    while i < texts.len()
        invariant
            i <= texts@.len(),
            views == texts@.map_values(|t: String| t@),
            m == max_columns(views.take(i as int)),
        decreases texts@.len() - i,
    {
        proof {
            assert(views.take(i + 1).drop_last() =~= views.take(i as int));
            assert(views.take(i + 1).last() == texts@[i as int]@);
        }
        let w = str_width(texts[i].as_str());
        if w > m {
            m = w;
        }
        i = i + 1;
    }
    proof {
        assert(views.take(texts@.len() as int) =~= views);
    }
    m
}

/// Lists `commands` as aligned rows, `/name`, argument hint and description each in a
/// column of its own, the row at `selected` picked out. One row per command.
pub fn command_rows_text(commands: &[SlashCommand], selected: Option<usize>, theme: &Theme) -> (r: Vec<String>)
    ensures
        r@.len() == commands@.len(),
        forall|i: int|
            0 <= i < commands@.len() ==> (#[trigger] r@[i])@ == command_row(
                commands@[i],
                selected == Some(i as usize),
                names_width(commands@),
                hints_width(commands@),
                *theme,
            ),
{
    let n = commands.len();
    let mut labels: Vec<String> = Vec::new();
    let mut hints: Vec<String> = Vec::new();
    let mut i: usize = 0;
    while i < n
        invariant
            n == commands@.len(),
            i <= n,
            labels@.len() == i,
            hints@.len() == i,
            forall|k: int| 0 <= k < i ==> (#[trigger] labels@[k])@ == name_label(commands@[k]),
            forall|k: int| 0 <= k < i ==> (#[trigger] hints@[k])@ == commands@[k].args_hint@,
        decreases n - i,
    {
        let mut label = String::new();
        push_char(&mut label, '/');
        append_text(&mut label, commands[i].name.as_str());
        proof {
            assert(label@ =~= name_label(commands@[i as int]));
        }
        labels.push(label);
        hints.push(commands[i].args_hint.clone());
        i = i + 1;
    }
    proof {
        assert(labels@.map_values(|t: String| t@) =~= commands@.map_values(|c: SlashCommand| name_label(c)));
        assert(hints@.map_values(|t: String| t@) =~= commands@.map_values(|c: SlashCommand| c.args_hint@));
    }
    let name_w = widest(&labels);
    let hint_w = widest(&hints);
    let mut rows: Vec<String> = Vec::new();
    let mut j: usize = 0;
    while j < n
        invariant
            n == commands@.len(),
            labels@.len() == n,
            hints@.len() == n,
            forall|k: int| 0 <= k < n ==> (#[trigger] labels@[k])@ == name_label(commands@[k]),
            forall|k: int| 0 <= k < n ==> (#[trigger] hints@[k])@ == commands@[k].args_hint@,
            name_w == names_width(commands@),
            hint_w == hints_width(commands@),
            labels@.map_values(|t: String| t@) == commands@.map_values(|c: SlashCommand| name_label(c)),
            hints@.map_values(|t: String| t@) == commands@.map_values(|c: SlashCommand| c.args_hint@),
            j <= n,
            rows@.len() == j,
            forall|k: int|
                0 <= k < j ==> (#[trigger] rows@[k])@ == command_row(
                    commands@[k],
                    selected == Some(k as usize),
                    name_w,
                    hint_w,
                    *theme,
                ),
        decreases n - j,
    {
        let picked = match selected {
            Some(s) => s == j,
            None => false,
        };
        proof {
            lemma_max_columns_bounds(labels@.map_values(|t: String| t@), j as int);
            lemma_max_columns_bounds(hints@.map_values(|t: String| t@), j as int);
        }
        let label_w = str_width(labels[j].as_str());
        let hint_cols = str_width(hints[j].as_str());
        let mut row = if picked { paint(PICKED_MARKER, theme.accent) } else { String::from_str(ROW_INDENT) };
        let name_display = if picked {
            let colored = paint(labels[j].as_str(), theme.accent);
            embolden(colored.as_str())
        } else {
            paint(labels[j].as_str(), theme.accent)
        };
        append_text(&mut row, name_display.as_str());
        append_text(&mut row, spaces_text(name_w - label_w).as_str());
        append_text(&mut row, "  ");
        append_text(&mut row, paint(commands[j].args_hint.as_str(), theme.accent_warn).as_str());
        append_text(&mut row, spaces_text(hint_w - hint_cols).as_str());
        append_text(&mut row, "  ");
        append_text(&mut row, paint(commands[j].description.as_str(), theme.muted).as_str());
        proof {
            reveal_strlit("  ");
            assert(spaces((name_w - label_w) as nat) + "  "@ =~= spaces((name_w - label_w + 2) as nat));
            assert(spaces((hint_w - hint_cols) as nat) + "  "@ =~= spaces((hint_w - hint_cols + 2) as nat));
            assert(row@ =~= command_row(commands@[j as int], selected == Some(j), name_w, hint_w, *theme));
        }
        rows.push(row);
        j = j + 1;
    }
    rows
}

/// The rows of [`command_rows_text`], as texts.
pub open spec fn command_rows(commands: Seq<SlashCommand>, selected: Option<usize>, theme: Theme) -> Seq<Seq<char>> {
    Seq::new(
        commands.len(),
        |i: int| command_row(commands[i], selected == Some(i as usize), names_width(commands), hints_width(commands), theme),
    )
}

/// The key hint under a palette with a picked row.
pub const PALETTE_KEYS_HINT: &'static str = "\u{2191}\u{2193} navigate \u{b7} Tab/Enter accept";

/// The lines of the palette bar: the command rows, a blank line, the key hint when a row
/// is picked, then each line of `footer`, all hints in the muted color.
pub open spec fn palette_bar_lines(commands: Seq<SlashCommand>, selected: Option<usize>, footer: Seq<char>, theme: Theme) -> Seq<Seq<char>> {
    command_rows(commands, selected, theme) + seq![Seq::<char>::empty()] + (if selected is Some {
        seq![painted(PALETTE_KEYS_HINT@, theme.muted)]
    } else {
        Seq::empty()
    }) + spec_lines(footer).map_values(|l: Seq<char>| painted(l, theme.muted))
}

/// Paints each of `lines` in `c`, appending them to `out`.
fn push_painted_lines(out: &mut Vec<String>, lines: &Vec<String>, c: Rgb)
    ensures
        final(out)@.map_values(|t: String| t@) == old(out)@.map_values(|t: String| t@) + lines@.map_values(
            |t: String| t@,
        ).map_values(|l: Seq<char>| painted(l, c)),
{
    let ghost start = out@.map_values(|t: String| t@);
    let ghost views = lines@.map_values(|t: String| t@);
    let mut i: usize = 0;
    while i < lines.len()
        invariant
            i <= lines@.len(),
            views == lines@.map_values(|t: String| t@),
            out@.map_values(|t: String| t@) == start + views.take(i as int).map_values(|l: Seq<char>| painted(l, c)),
        decreases lines@.len() - i,
    {
        let ghost before = out@.map_values(|t: String| t@);
        out.push(paint(lines[i].as_str(), c));
        proof {
            assert(out@.map_values(|t: String| t@) =~= before.push(painted(views[i as int], c)));
            assert(views.take(i + 1).map_values(|l: Seq<char>| painted(l, c)) =~= views.take(i as int).map_values(
                |l: Seq<char>| painted(l, c),
            ).push(painted(views[i as int], c)));
        }
        i = i + 1;
    }
    proof {
        assert(views.take(lines@.len() as int) =~= views);
    }
}

/// The palette bar shown above the input: the command rows with the row at
/// `selected_index` picked out, then its hints and the configured footer, one per line.
pub fn autocomplete_bar_text(matches: &[SlashCommand], selected_index: Option<usize>, footer: &str, theme: &Theme) -> (r: String)
    ensures
        r@ == join_with(palette_bar_lines(matches@, selected_index, footer@, *theme), '\n'),
{
    let mut lines = command_rows_text(matches, selected_index, theme);
    proof {
        assert(lines@.map_values(|t: String| t@) =~= command_rows(matches@, selected_index, *theme));
    }
    lines.push(String::new());
    let ghost after_blank = lines@.map_values(|t: String| t@);
    proof {
        assert(after_blank =~= command_rows(matches@, selected_index, *theme) + seq![Seq::<char>::empty()]);
    }
    if selected_index.is_some() {
        lines.push(paint(PALETTE_KEYS_HINT, theme.muted));
    }
    let ghost with_hint = lines@.map_values(|t: String| t@);
    proof {
        assert(with_hint =~= after_blank + (if selected_index is Some {
            seq![painted(PALETTE_KEYS_HINT@, theme.muted)]
        } else {
            Seq::<Seq<char>>::empty()
        }));
    }
    let footer_lines = lines_of(footer);
    push_painted_lines(&mut lines, &footer_lines, theme.muted);
    proof {
        assert(lines@.map_values(|t: String| t@) =~= palette_bar_lines(matches@, selected_index, footer@, *theme));
    }
    join_strings(&lines, '\n')
}

/// The spinner's frames, one every 80 milliseconds.
pub open spec fn spinner_frames() -> Seq<&'static str> {
    seq!["\u{280b}", "\u{2819}", "\u{2839}", "\u{2838}", "\u{283c}", "\u{2834}", "\u{2826}", "\u{2827}", "\u{2807}", "\u{280f}"]
}

/// The spinner frame shown `elapsed_ms` milliseconds in.
pub fn spinner_frame(elapsed_ms: u64) -> (r: &'static str)
    ensures
        r == spinner_frames()[((elapsed_ms / 80) % 10) as int],
{
    let frames: [&'static str; 10] = ["\u{280b}", "\u{2819}", "\u{2839}", "\u{2838}", "\u{283c}", "\u{2834}", "\u{2826}", "\u{2827}", "\u{2807}", "\u{280f}"];
    proof {
        assert(frames@ =~= spinner_frames());
    }
    let k = ((elapsed_ms / 80) % 10) as usize;
    frames[k]
}

/// How many dots follow a running task `elapsed_ms` milliseconds in: none to three, one
/// more every 400 milliseconds.
pub open spec fn dot_count(elapsed_ms: u64) -> nat {
    ((elapsed_ms / 400) % 4) as nat
}

/// A task's entry in the overlay: `✓ label` with the check in the success color when done,
/// the spinner frame in the accent color, the label and the dots in the accent color when
/// running, else `○ label` all in the muted color.
pub open spec fn task_entry(t: TaskRow, spinner: Seq<char>, dots: nat, theme: Theme) -> Seq<char> {
    if t.status@ == "done"@ {
        painted("\u{2713}"@, theme.success) + seq![' '] + t.label@
    } else if t.status@ == "running"@ {
        painted(spinner, theme.accent) + seq![' '] + t.label@ + painted(Seq::new(dots, |i: int| '.'), theme.accent)
    } else {
        painted(seq!['\u{25cb}', ' '] + t.label@, theme.muted)
    }
}

/// A task's line: `▸` in the accent color when it is the picked task, else a space, then a
/// space and the entry.
pub open spec fn task_line(t: TaskRow, picked: bool, spinner: Seq<char>, dots: nat, theme: Theme) -> Seq<char> {
    (if picked { painted("\u{25b8}"@, theme.accent) } else { seq![' '] }) + seq![' '] + task_entry(t, spinner, dots, theme)
}

/// The hint naming the command that adds a task.
pub const ADD_TASK_HINT: &'static str = "/task <label>";
/// The hint naming the keys of the tasks overlay.
pub const TASK_KEYS_HINT: &'static str = "\u{2191}\u{2193} select \u{b7} \u{2190}/\u{2192} status";

/// The lines of the tasks overlay: the bold `Tasks` heading in the accent color, one line
/// per task, then the two hints in the muted color.
pub open spec fn tasks_overlay_lines(tasks: Seq<TaskRow>, selected: Option<usize>, spinner: Seq<char>, dots: nat, theme: Theme) -> Seq<Seq<char>> {
    seq![emboldened(painted("Tasks"@, theme.accent))] + Seq::new(
        tasks.len(),
        |i: int| task_line(tasks[i], selected == Some(i as usize), spinner, dots, theme),
    ) + seq![painted(ADD_TASK_HINT@, theme.muted), painted(TASK_KEYS_HINT@, theme.muted)]
}

/// The tasks overlay `elapsed_ms` milliseconds in (which sets the spinner frame and the
/// dots), the task at `selected` picked out.
pub fn tasks_overlay_text(tasks: &[TaskRow], selected: Option<usize>, elapsed_ms: u64, theme: &Theme) -> (r: String)
    ensures
        r@ == join_with(
            tasks_overlay_lines(tasks@, selected, spinner_frame_text(elapsed_ms), dot_count(elapsed_ms), *theme),
            '\n',
        ),
{
    let spinner = spinner_frame(elapsed_ms);
    let dots = spaces_of('.', ((elapsed_ms / 400) % 4) as usize);
    let mut lines: Vec<String> = Vec::new();
    let heading = paint("Tasks", theme.accent);
    lines.push(embolden(heading.as_str()));
    let n = tasks.len();
    let mut i: usize = 0;
    while i < n
        invariant
            n == tasks@.len(),
            i <= n,
            spinner@ == spinner_frame_text(elapsed_ms),
            dots@ == Seq::new(dot_count(elapsed_ms), |k: int| '.'),
            lines@.map_values(|t: String| t@) == seq![emboldened(painted("Tasks"@, theme.accent))] + Seq::new(
                i as nat,
                |k: int| task_line(tasks@[k], selected == Some(k as usize), spinner@, dot_count(elapsed_ms), *theme),
            ),
        decreases n - i,
    {
        let task = &tasks[i];
        let entry = if text_is(task.status.as_str(), "done") {
            let mut e = paint("\u{2713}", theme.success);
            push_char(&mut e, ' ');
            append_text(&mut e, task.label.as_str());
            e
        } else if text_is(task.status.as_str(), "running") {
            let mut e = paint(spinner, theme.accent);
            push_char(&mut e, ' ');
            append_text(&mut e, task.label.as_str());
            append_text(&mut e, paint(dots.as_str(), theme.accent).as_str());
            e
        } else {
            let mut plain = String::new();
            push_char(&mut plain, '\u{25cb}');
            push_char(&mut plain, ' ');
            append_text(&mut plain, task.label.as_str());
            paint(plain.as_str(), theme.muted)
        };
        let picked = match selected {
            Some(s) => s == i,
            None => false,
        };
        let mut line = if picked { paint("\u{25b8}", theme.accent) } else { String::from_str(" ") };
        push_char(&mut line, ' ');
        append_text(&mut line, entry.as_str());
        let ghost before = lines@.map_values(|t: String| t@);
        proof {
            reveal_strlit(" ");
            assert(entry@ =~= task_entry(tasks@[i as int], spinner@, dot_count(elapsed_ms), *theme));
            assert(line@ =~= task_line(tasks@[i as int], selected == Some(i), spinner@, dot_count(elapsed_ms), *theme));
        }
        let ghost line_view = line@;
        lines.push(line);
        proof {
            assert(lines@.map_values(|t: String| t@) =~= before.push(line_view));
            assert(lines@.map_values(|t: String| t@) =~= seq![emboldened(painted("Tasks"@, theme.accent))] + Seq::new(
                (i + 1) as nat,
                |k: int| task_line(tasks@[k], selected == Some(k as usize), spinner@, dot_count(elapsed_ms), *theme),
            ));
        }
        i = i + 1;
    }
    lines.push(paint(ADD_TASK_HINT, theme.muted));
    lines.push(paint(TASK_KEYS_HINT, theme.muted));
    proof {
        assert(lines@.map_values(|t: String| t@) =~= tasks_overlay_lines(
            tasks@,
            selected,
            spinner@,
            dot_count(elapsed_ms),
            *theme,
        ));
    }
    join_strings(&lines, '\n')
}

/// The text of the spinner frame shown `elapsed_ms` milliseconds in.
pub open spec fn spinner_frame_text(elapsed_ms: u64) -> Seq<char> {
    spinner_frames()[((elapsed_ms / 80) % 10) as int]@
}

/// `n` copies of `c`.
fn spaces_of(c: char, n: usize) -> (r: String)
    ensures
        r@ == Seq::new(n as nat, |i: int| c),
{
    let mut out = String::new();
    let mut i: usize = 0;
    while i < n
        invariant
            i <= n,
            out@ == Seq::new(i as nat, |k: int| c),
        decreases n - i,
    {
        push_char(&mut out, c);
        proof {
            assert(out@ =~= Seq::new((i + 1) as nat, |k: int| c));
        }
        i = i + 1;
    }
    out
}

/// Whether `a` reads `b`.
fn text_is(a: &str, b: &str) -> (r: bool)
    ensures
        r == (a@ == b@),
{
    crate::text::text_eq(a, b)
}

/// What a task's page says of its activity.
pub const NO_LINKED_ACTIVITY: &'static str = "No linked activity yet \u{2014} nothing in this app connects a task back to specific messages or tool calls yet.";
/// The keys hint on a task's page.
pub const TASK_PAGE_KEYS_HINT: &'static str = "\u{2190}/\u{2192} change status \u{b7} Esc back";

/// A task's status as its page names it: bold `Done` in the success color, bold `Running`
/// in the accent color, else bold `Pending` in the muted color.
pub open spec fn status_label(status: Seq<char>, theme: Theme) -> Seq<char> {
    if status == "done"@ {
        emboldened(painted("Done"@, theme.success))
    } else if status == "running"@ {
        emboldened(painted("Running"@, theme.accent))
    } else {
        emboldened(painted("Pending"@, theme.muted))
    }
}

/// A task's own page: its label bold in the accent color, a blank line, `Status:` (muted)
/// and its status, a blank line, the note that nothing links to the task yet, a blank
/// line, the keys hint.
pub open spec fn task_page(t: TaskRow, theme: Theme) -> Seq<char> {
    emboldened(painted(t.label@, theme.accent)) + "\n\n"@ + painted("Status:"@, theme.muted) + seq![' '] + status_label(
        t.status@,
        theme,
    ) + "\n\n"@ + painted(NO_LINKED_ACTIVITY@, theme.muted) + "\n\n"@ + painted(TASK_PAGE_KEYS_HINT@, theme.muted)
}

/// The page the body shows for a picked task.
pub fn task_detail_text(task: &TaskRow, theme: &Theme) -> (r: String)
    ensures
        r@ == task_page(*task, *theme),
{
    let status = if text_is(task.status.as_str(), "done") {
        embolden(paint("Done", theme.success).as_str())
    } else if text_is(task.status.as_str(), "running") {
        embolden(paint("Running", theme.accent).as_str())
    } else {
        embolden(paint("Pending", theme.muted).as_str())
    };
    let mut out = embolden(paint(task.label.as_str(), theme.accent).as_str());
    append_text(&mut out, "\n\n");
    append_text(&mut out, paint("Status:", theme.muted).as_str());
    push_char(&mut out, ' ');
    append_text(&mut out, status.as_str());
    append_text(&mut out, "\n\n");
    append_text(&mut out, paint(NO_LINKED_ACTIVITY, theme.muted).as_str());
    append_text(&mut out, "\n\n");
    append_text(&mut out, paint(TASK_PAGE_KEYS_HINT, theme.muted).as_str());
    proof {
        assert(out@ =~= task_page(*task, *theme));
    }
    out
}

/// The welcome overview's title.
pub const WELCOME_TITLE: &'static str = "Welcome to Anvil";
/// The heading of the capability list.
pub const CAPABILITIES_HEADING: &'static str = "What it can do:";

/// The capability list of the welcome overview.
pub open spec fn capabilities() -> Seq<Seq<char>> {
    seq![
        "  - Run ordinary shell commands directly, no prefix needed."@,
        "  - Run first-party and project-local slash commands (JS/TS scripts under commands/)."@,
        "  - Track ad hoc tasks in a floating overlay while you work."@,
        "  - Peek at a running background command (F3) or the raw tracing firehose (F2)."@,
        "  - Open real browser/Bevy-scene windows alongside the terminal (/browser, /scene)."@,
        "  - Spawn cargo run in its own terminal window, so long-running/interactive programs get a real TTY."@,
    ]
}

/// The lines of the welcome overview: the bold title in the accent color, a blank line, the
/// tagline, a blank line, the muted heading, then the capabilities.
pub open spec fn welcome_lines(tagline: Seq<char>, theme: Theme) -> Seq<Seq<char>> {
    seq![
        emboldened(painted(WELCOME_TITLE@, theme.accent)),
        Seq::<char>::empty(),
        tagline,
        Seq::<char>::empty(),
        painted(CAPABILITIES_HEADING@, theme.muted),
    ] + capabilities()
}

/// The welcome overview shown while the transcript is empty.
pub fn welcome_overview_text(tagline: &str, theme: &Theme) -> (r: String)
    ensures
        r@ == join_with(welcome_lines(tagline@, *theme), '\n'),
{
    let mut lines: Vec<String> = Vec::new();
    lines.push(embolden(paint(WELCOME_TITLE, theme.accent).as_str()));
    lines.push(String::new());
    lines.push(String::from_str(tagline));
    lines.push(String::new());
    lines.push(paint(CAPABILITIES_HEADING, theme.muted));
    lines.push(String::from_str("  - Run ordinary shell commands directly, no prefix needed."));
    lines.push(String::from_str("  - Run first-party and project-local slash commands (JS/TS scripts under commands/)."));
    lines.push(String::from_str("  - Track ad hoc tasks in a floating overlay while you work."));
    lines.push(String::from_str("  - Peek at a running background command (F3) or the raw tracing firehose (F2)."));
    lines.push(String::from_str("  - Open real browser/Bevy-scene windows alongside the terminal (/browser, /scene)."));
    lines.push(String::from_str("  - Spawn cargo run in its own terminal window, so long-running/interactive programs get a real TTY."));
    proof {
        assert(lines@.map_values(|t: String| t@) =~= welcome_lines(tagline@, *theme));
    }
    join_strings(&lines, '\n')
}

/// The inspect page's subpage tabs: each subpage's title in order, three spaces apart, the
/// shown one as `[title]` bold in the accent color, the others muted.
pub open spec fn subpage_tabs(shown: InspectSubpage, theme: Theme) -> Seq<char> {
    let tab = |s: InspectSubpage, title: Seq<char>| if s == shown {
        emboldened(painted(seq!['['] + title + seq![']'], theme.accent))
    } else {
        painted(title, theme.muted)
    };
    tab(InspectSubpage::Session, "Session"@) + "   "@ + tab(InspectSubpage::Persistence, "Persistence"@)
}

/// The keys hint of the inspect page.
pub const SUBPAGE_KEYS_HINT: &'static str = "\u{2190}/\u{2192} switch subpage";

/// The inspect page: the subpage tabs, a blank line, `body` (the shown subpage's state), a
/// blank line, the keys hint in the muted color.
pub fn inspect_body_text(shown: InspectSubpage, body: &str, theme: &Theme) -> (r: String)
    ensures
        r@ == subpage_tabs(shown, *theme) + "\n\n"@ + body@ + "\n\n"@ + painted(SUBPAGE_KEYS_HINT@, theme.muted),
{
    let all = InspectSubpage::all();
    let mut tabs = String::new();
    let mut i: usize = 0;
    while i < 2
        invariant
            i <= 2,
            all@ == seq![InspectSubpage::Session, InspectSubpage::Persistence],
            i == 1 ==> tabs@ == (if shown == InspectSubpage::Session {
                emboldened(painted(seq!['['] + "Session"@ + seq![']'], theme.accent))
            } else {
                painted("Session"@, theme.muted)
            }),
            i == 2 ==> tabs@ == subpage_tabs(shown, *theme),
            i == 0 ==> tabs@ == Seq::<char>::empty(),
        decreases 2 - i,
    {
        let candidate = all[i];
        if i > 0 {
            append_text(&mut tabs, "   ");
        }
        let title = candidate.title();
        if candidate == shown {
            let mut bracketed = String::new();
            push_char(&mut bracketed, '[');
            append_text(&mut bracketed, title);
            push_char(&mut bracketed, ']');
            append_text(&mut tabs, embolden(paint(bracketed.as_str(), theme.accent).as_str()).as_str());
        } else {
            append_text(&mut tabs, paint(title, theme.muted).as_str());
        }
        proof {
            if i == 0 {
                assert(tabs@ =~= (if shown == InspectSubpage::Session {
                    emboldened(painted(seq!['['] + "Session"@ + seq![']'], theme.accent))
                } else {
                    painted("Session"@, theme.muted)
                }));
            } else {
                assert(tabs@ =~= subpage_tabs(shown, *theme));
            }
        }
        i = i + 1;
    }
    let mut out = tabs;
    append_text(&mut out, "\n\n");
    append_text(&mut out, body);
    append_text(&mut out, "\n\n");
    append_text(&mut out, paint(SUBPAGE_KEYS_HINT, theme.muted).as_str());
    out
}

/// The input line as shown: a recognized `/name` bold in the accent color and what follows
/// it (exactly as typed) in the warning color; any other line as typed.
pub open spec fn highlighted_input(commands: Seq<SlashCommand>, input: Seq<char>, theme: Theme) -> Seq<char> {
    match spec_highlight_parts(commands, input) {
        Some((head, rest)) => emboldened(painted(head, theme.accent)) + if rest.len() == 0 {
            Seq::<char>::empty()
        } else {
            painted(rest, theme.accent_warn)
        },
        None => input,
    }
}

/// Highlights a typed `/command` in the input line.
pub fn highlight_slash_command(commands: &[SlashCommand], input: &str, theme: &Theme) -> (r: String)
    ensures
        r@ == highlighted_input(commands@, input@, *theme),
{
    match highlight_parts(commands, input) {
        None => String::from_str(input),
        Some((head, rest)) => {
            let mut out = embolden(paint(head.as_str(), theme.accent).as_str());
            if rest.unicode_len() > 0 {
                append_text(&mut out, paint(rest.as_str(), theme.accent_warn).as_str());
            }
            proof {
                assert(out@ =~= highlighted_input(commands@, input@, *theme));
            }
            out
        },
    }
}

/// The rows the tasks overlay takes: a title, one row per task, two hint rows, and a
/// border row above and below.
pub fn tasks_overlay_height(task_count: u16) -> (r: u16)
    requires
        task_count + 5 <= u16::MAX,
    ensures
        r == task_count + 5,
{
    task_count + 5
}

/// The tasks overlay's box fits its text: the text has a line per task plus three, and
/// the box is two rows (its border) taller.
pub proof fn law_overlay_height_fits_its_text(tasks: Seq<TaskRow>, selected: Option<usize>, spinner: Seq<char>, dots: nat, theme: Theme)
    ensures
        tasks_overlay_lines(tasks, selected, spinner, dots, theme).len() == tasks.len() + 3,
        tasks_overlay_lines(tasks, selected, spinner, dots, theme).len() + 2 == tasks.len() + 5,
{
}

/// The palette bar's height (one row per command, three more, one per footer line) is its
/// text's line count plus the one row of padding above it, whenever a row is picked, as
/// it always is while the bar shows.
pub proof fn law_bar_height_fits_bar_text(matches: Seq<SlashCommand>, picked: usize, footer: Seq<char>, theme: Theme)
    ensures
        palette_bar_lines(matches, Some(picked), footer, theme).len() + 1 == matches.len() + 3 + spec_lines(footer).len(),
{
}

} // verus!
