//! The command palette under the transcript: which commands it lists, whether the arrow
//! keys and Enter act on it, which row is picked out, and how many rows it and the body
//! area get.

use vstd::prelude::*;
use vstd::string::*;

use crate::commands::{command_view, line_count, matching_commands, parse_slash_command, spec_lines, spec_matching, spec_parse_slash, CommandView, SlashCommand};
use crate::text::chars_of;

verus! {

broadcast use vstd::string::group_string_axioms;

/// The command name being typed: the input after its leading `/`, while no space follows
/// (once a space is typed the command is chosen and the palette stops filtering).
pub open spec fn typed_name(input: Seq<char>) -> Option<Seq<char>> {
    if input.len() > 0 && input[0] == '/' && !input.drop_first().contains(' ') {
        Some(input.drop_first())
    } else {
        None
    }
}

/// The plain values of a command list.
pub open spec fn views(commands: Seq<SlashCommand>) -> Seq<CommandView> {
    commands.map_values(|c: SlashCommand| command_view(c))
}

/// The commands matching what is typed, or none when no name is being typed.
pub open spec fn spec_autocomplete(commands: Seq<CommandView>, input: Seq<char>) -> Seq<CommandView> {
    match typed_name(input) {
        Some(name) => spec_matching(commands, name),
        None => Seq::empty(),
    }
}

/// The commands matching a `/name` being typed.
pub fn autocomplete_matches(commands: &[SlashCommand], input: &str) -> (r: Vec<SlashCommand>)
    ensures
        views(r@) == spec_autocomplete(views(commands@), input@),
{
    let chars = chars_of(input);
    let n = chars.len();
    if n == 0 || chars[0] != '/' {
        let r: Vec<SlashCommand> = Vec::new();
        proof {
            assert(views(r@) =~= Seq::<CommandView>::empty());
        }
        return r;
    }
    let mut i: usize = 1;
    while i < n
        invariant
            1 <= i <= n,
            n == chars@.len(),
            chars@ == input@,
            forall|j: int| 1 <= j < i ==> chars@[j] != ' ',
        decreases n - i,
    {
        if chars[i] == ' ' {
            proof {
                assert(input@.drop_first()[i - 1] == ' ');
            }
            let r: Vec<SlashCommand> = Vec::new();
            proof {
                assert(views(r@) =~= Seq::<CommandView>::empty());
            }
            return r;
        }
        i = i + 1;
    }
    proof {
        assert(!input@.drop_first().contains(' ')) by {
            if input@.drop_first().contains(' ') {
                let k = choose|k: int| 0 <= k < input@.drop_first().len() && input@.drop_first()[k] == ' ';
                assert(chars@[k + 1] == ' ');
            }
        }
    }
    let name = input.substring_char(1, n);
    proof {
        assert(name@ =~= input@.drop_first());
    }
    matching_commands(commands, name)
}

/// A copy of every command, in order.
fn copy_commands(commands: &[SlashCommand]) -> (r: Vec<SlashCommand>)
    ensures
        views(r@) == views(commands@),
{
    let mut out: Vec<SlashCommand> = Vec::new();
    let n = commands.len();
    let mut i: usize = 0;
    while i < n
        invariant
            n == commands@.len(),
            i <= n,
            views(out@) == views(commands@).take(i as int),
        decreases n - i,
    {
        let ghost before = out@;
        out.push(commands[i].duplicate());
        proof {
            assert(views(out@) =~= views(before).push(command_view(commands@[i as int])));
            assert(views(commands@).take(i + 1) =~= views(commands@).take(i as int).push(
                command_view(commands@[i as int]),
            ));
        }
        i = i + 1;
    }
    proof {
        assert(views(commands@).take(n as int) =~= views(commands@));
    }
    out
}

/// What the palette shows this frame.
pub struct Palette {
    /// The rows listed; none means the palette is closed.
    pub matches: Vec<SlashCommand>,
    /// Whether Up/Down/Tab/Enter act on the palette rather than on the input.
    pub interactive: bool,
    /// The row picked out.
    pub selected_index: usize,
    /// The rows the palette's bar takes (0 when closed).
    pub bar_height: u16,
}

/// The rows the palette lists: the matches while a name is typed, every command while the
/// welcome overview shows, otherwise none.
pub open spec fn palette_rows(commands: Seq<CommandView>, input: Seq<char>, welcome_active: bool) -> Seq<CommandView> {
    if spec_autocomplete(commands, input).len() > 0 {
        spec_autocomplete(commands, input)
    } else if welcome_active {
        commands
    } else {
        Seq::empty()
    }
}

/// Whether the keys act on the palette: while a name is being typed and matches, or while
/// the welcome overview shows and nothing at all is typed yet.
pub open spec fn palette_interactive(commands: Seq<CommandView>, input: Seq<char>, welcome_active: bool) -> bool {
    spec_autocomplete(commands, input).len() > 0 || (welcome_active && input.len() == 0)
}

/// Works out the palette for this frame. `autocomplete_index` is the row the arrow keys
/// last moved to; it is clamped to the rows shown. The bar is one row per command, a blank
/// line, the key hint, one row per footer line and one row of padding.
pub fn palette(
    commands: &[SlashCommand],
    input: &str,
    welcome_active: bool,
    autocomplete_index: usize,
    footer: &str,
) -> (r: Palette)
    requires
        commands@.len() > 0,
        commands@.len() + 3 + spec_lines(footer@).len() <= u16::MAX,
    ensures
        views(r.matches@) == palette_rows(views(commands@), input@, welcome_active),
        r.interactive == palette_interactive(views(commands@), input@, welcome_active),
        r.selected_index == (if r.interactive {
            if autocomplete_index < r.matches@.len() {
                autocomplete_index as int
            } else {
                r.matches@.len() - 1
            }
        } else {
            0
        }),
        r.bar_height == (if r.matches@.len() > 0 {
            r.matches@.len() + 3 + spec_lines(footer@).len()
        } else {
            0
        }),
{
    let typed = autocomplete_matches(commands, input);
    let autocompleting = typed.len() > 0;
    let matches = if autocompleting {
        typed
    } else if welcome_active {
        copy_commands(commands)
    } else {
        let none: Vec<SlashCommand> = Vec::new();
        proof {
            assert(views(none@) =~= Seq::<CommandView>::empty());
        }
        none
    };
    proof {
        assert(views(matches@).len() == matches@.len());
        assert(views(commands@).len() == commands@.len());
        if autocompleting {
            assert(matches@.len() <= commands@.len()) by {
                let v = views(commands@);
                let name = typed_name(input@)->0;
                lemma_split_filters(v, name);
            }
        }
    }
    let interactive = autocompleting || (welcome_active && input.unicode_len() == 0);
    let selected_index = if interactive {
        if autocomplete_index < matches.len() {
            autocomplete_index
        } else {
            matches.len() - 1
        }
    } else {
        0
    };
    let bar_height: u16 = if matches.len() > 0 {
        let lines = line_count(footer);
        (matches.len() + 3 + lines) as u16
    } else {
        0
    };
    Palette { matches, interactive, selected_index, bar_height }
}

/// The two halves of the matches together never list more commands than there are.
proof fn lemma_split_filters(v: Seq<CommandView>, name: Seq<char>)
    ensures
        v.filter(crate::commands::name_starts(name)).len() + v.filter(crate::commands::name_contains_later(name)).len()
            <= v.len(),
    decreases v.len(),
{
    reveal_with_fuel(Seq::filter, 1);
    if v.len() > 0 {
        lemma_split_filters(v.drop_last(), name);
    }
}

/// The rows the fixed parts around the body take: the input gap, the footer and the status
/// line.
pub const CHROME_ROWS: u16 = 5;

/// The rows left for the body once the palette bar and the fixed chrome are taken.
pub fn body_height(screen_height: u16, bar_height: u16) -> (r: u16)
    requires
        bar_height + CHROME_ROWS <= u16::MAX,
    ensures
        r == (if screen_height >= bar_height + CHROME_ROWS {
            screen_height - bar_height - CHROME_ROWS
        } else {
            0
        }),
{
    screen_height.saturating_sub(bar_height + CHROME_ROWS)
}

/// Whether some command in `commands` is named `name`.
pub open spec fn names_command(commands: Seq<SlashCommand>, name: Seq<char>) -> bool {
    exists|i: int| 0 <= i < commands.len() && (#[trigger] commands[i]).name@ == name
}

/// How a typed line is highlighted: a known `/name` is split into the `/name` part and the
/// rest exactly as typed; any other line is shown plain (`None`).
pub open spec fn spec_highlight_parts(commands: Seq<SlashCommand>, input: Seq<char>) -> Option<(Seq<char>, Seq<char>)> {
    match spec_parse_slash(input) {
        Some((name, _)) => if names_command(commands, name) {
            Some((seq!['/'] + name, input.skip(1 + name.len() as int)))
        } else {
            None
        },
        None => None,
    }
}

proof fn lemma_first_space_bound(t: Seq<char>)
    ensures
        crate::commands::first_space(t) matches Some(j) ==> 0 <= j < t.len(),
    decreases t.len(),
{
    if t.len() > 0 && t[0] != ' ' {
        lemma_first_space_bound(t.drop_first());
    }
}

/// The command name of a parsed line is shorter than the line.
proof fn lemma_parse_slash_name_len(s: Seq<char>)
    ensures
        spec_parse_slash(s) matches Some((n, _)) ==> 1 + n.len() <= s.len(),
{
    if s.len() > 0 && s[0] == '/' {
        lemma_first_space_bound(s.drop_first());
    }
}

/// Whether some command is named `name`.
fn has_command_named(commands: &[SlashCommand], name: &str) -> (r: bool)
    ensures
        r == names_command(commands@, name@),
{
    let n = commands.len();
    let mut i: usize = 0;
    while i < n
        invariant
            n == commands@.len(),
            i <= n,
            forall|j: int| 0 <= j < i ==> (#[trigger] commands@[j]).name@ != name@,
        decreases n - i,
    {
        if crate::text::text_eq(commands[i].name.as_str(), name) {
            proof {
                assert(commands@[i as int].name@ == name@);
            }
            return true;
        }
        i = i + 1;
    }
    false
}

/// The parts of a typed line to highlight as a recognized command and its arguments.
pub fn highlight_parts(commands: &[SlashCommand], input: &str) -> (r: Option<(String, String)>)
    ensures
        match r {
            Some((name, rest)) => spec_highlight_parts(commands@, input@) == Some((name@, rest@)),
            None => spec_highlight_parts(commands@, input@) is None,
        },
{
    match parse_slash_command(input) {
        None => None,
        Some((name, _)) => {
            if !has_command_named(commands, name) {
                return None;
            }
            let mut head = String::new();
            crate::text::push_char(&mut head, '/');
            head.append(name);
            proof {
                lemma_parse_slash_name_len(input@);
            }
            let total = input.unicode_len();
            let start = 1 + name.unicode_len();
            proof {
                assert(head@ =~= seq!['/'] + name@);
            }
            let rest = input.substring_char(start, total);
            proof {
                assert(rest@ =~= input@.skip(1 + name@.len() as int));
            }
            Some((head, rest.to_owned()))
        },
    }
}

} // verus!
