//! What the assistant view does with a submitted prompt and with a key press: which action a
//! prompt asks for, and how a key moves the view's own state (the input line, the palette's
//! row, the page shown, the task picked out, the scroll positions). The actions themselves
//! (starting a shell, opening a window, saving) are the caller's to perform.

use vstd::prelude::*;

use crate::anvil::{scroll_down, scroll_up, spec_scroll_down, spec_scroll_up, InspectSubpage, ScrollState};
use crate::commands::{parse_slash_command, spec_parse_slash, SlashCommand};
use crate::text::{append_text, chars_of, has_at, push_char, string_of, text_eq, trim_bounds, trim_start_ws, trim_ws};

verus! {

/// Which page fills the body area.
#[derive(Clone, Copy, Debug, PartialEq, Eq, Structural)]
pub enum Page {
    /// The chat transcript (or the picked task's own page).
    Chat,
    /// The raw tracing feed.
    Trace,
    /// The raw output of subprocesses.
    Process,
    /// Live application state, in subpages.
    Inspect,
}

/// What a submitted prompt asks for.
#[derive(Debug)]
pub enum PromptAction {
    /// `/inspect`: show the inspect page.
    Inspect,
    /// `/welcome`: turn the welcome overview on or off.
    ToggleWelcome,
    /// `/task <label>`: add a pending task with this label.
    AddTask(String),
    /// `/browser <url>`: open a browser tab on this address.
    OpenBrowser(String),
    /// `/scene`: open a scene window.
    OpenScene,
    /// `/relay-console`: start the relay and open its console.
    RelayConsole,
    /// `/workspace`: describe the workspace.
    DescribeWorkspace,
    /// `/shape`: run the shape pipeline.
    Shape,
    /// A command backed by a script: the position of the command in the list, the label
    /// the run is shown under, and the arguments handed to the script.
    RunScript { command: usize, command_name: String, args: String },
    /// `cargo run ...`: open a terminal running the trimmed prompt.
    OpenTerminal(String),
    /// Anything else that is not empty: hand it to the shell.
    Shell(String),
    /// An empty prompt: nothing.
    Nothing,
}

/// What is left of `p` after `prefix`, when `p` starts with it.
pub open spec fn after_prefix(p: Seq<char>, prefix: Seq<char>) -> Option<Seq<char>> {
    if p.len() >= prefix.len() && p.take(prefix.len() as int) == prefix {
        Some(p.skip(prefix.len() as int))
    } else {
        None
    }
}

/// The trimmed text after `prefix`, when `p` starts with `prefix` and that text is not empty.
pub open spec fn prefixed_value(p: Seq<char>, prefix: Seq<char>) -> Option<Seq<char>> {
    match after_prefix(p, prefix) {
        Some(rest) => if trim_ws(rest).len() > 0 {
            Some(trim_ws(rest))
        } else {
            None
        },
        None => None,
    }
}

/// `i` is the first command in `commands` named `name`.
pub open spec fn is_first_named(commands: Seq<SlashCommand>, name: Seq<char>, i: int) -> bool {
    &&& 0 <= i < commands.len()
    &&& commands[i].name@ == name
    &&& forall|j: int| 0 <= j < i ==> #[trigger] commands[j].name@ != name
}

/// For a `/name args` prompt whose name's first command has a script: that command's
/// position, the name and the arguments.
pub open spec fn script_target(commands: Seq<SlashCommand>, p: Seq<char>) -> Option<(int, Seq<char>, Seq<char>)> {
    match spec_parse_slash(p) {
        Some((name, args)) => if exists|i: int| is_first_named(commands, name, i) {
            let i = choose|i: int| is_first_named(commands, name, i);
            if commands[i].script is Some {
                Some((i, name, args))
            } else {
                None
            }
        } else {
            None
        },
        None => None,
    }
}

/// `r` is the action that prompt `p` asks for, the first rule that applies deciding.
pub open spec fn routed(commands: Seq<SlashCommand>, p: Seq<char>, r: PromptAction) -> bool {
    let t = trim_ws(p);
    if t == "/inspect"@ {
        r is Inspect
    } else if t == "/welcome"@ {
        r is ToggleWelcome
    } else if prefixed_value(p, "/task "@) is Some {
        r matches PromptAction::AddTask(l) && l@ == prefixed_value(p, "/task "@)->0
    } else if prefixed_value(p, "/browser "@) is Some {
        r matches PromptAction::OpenBrowser(u) && u@ == prefixed_value(p, "/browser "@)->0
    } else if t == "/scene"@ {
        r is OpenScene
    } else if t == "/relay-console"@ {
        r is RelayConsole
    } else if t == "/workspace"@ {
        r is DescribeWorkspace
    } else if t == "/shape"@ {
        r is Shape
    } else if script_target(commands, p) is Some {
        let (i, name, args) = script_target(commands, p)->0;
        r matches PromptAction::RunScript { command, command_name, args: a } && command == i
            && command_name@ == trim_ws(name + seq![' '] + args) && a@ == args
    } else if after_prefix(trim_start_ws(p), "cargo run"@) is Some {
        r matches PromptAction::OpenTerminal(c) && c@ == t
    } else if p.len() > 0 {
        r matches PromptAction::Shell(s) && s@ == p
    } else {
        r is Nothing
    }
}

/// The text after `prefix` in `chars`, trimmed, when `chars` starts with `prefix` and that
/// text is not empty.
fn prefixed_text(chars: &Vec<char>, prefix: &str) -> (r: Option<String>)
    ensures
        match r {
            Some(v) => prefixed_value(chars@, prefix@) == Some(v@),
            None => prefixed_value(chars@, prefix@) is None,
        },
{
    let pat = chars_of(prefix);
    if !has_at(chars, 0, &pat) {
        proof {
            if chars@.len() >= pat@.len() {
                assert(chars@.subrange(0, pat@.len() as int) =~= chars@.take(pat@.len() as int));
            }
        }
        return None;
    }
    proof {
        assert(chars@.subrange(0, pat@.len() as int) =~= chars@.take(pat@.len() as int));
        assert(chars@.subrange(pat@.len() as int, chars@.len() as int) =~= chars@.skip(pat@.len() as int));
    }
    let (a, b) = trim_bounds(chars, pat.len(), chars.len(), true, true);
    if a == b {
        return None;
    }
    Some(string_of(chars, a, b))
}

/// The first command in `commands` named `name`, if any.
fn first_named(commands: &[SlashCommand], name: &str) -> (r: Option<usize>)
    ensures
        match r {
            Some(i) => is_first_named(commands@, name@, i as int),
            None => !exists|i: int| is_first_named(commands@, name@, i),
        },
{
    let n = commands.len();
    let mut i: usize = 0;
    while i < n
        invariant
            n == commands@.len(),
            i <= n,
            forall|j: int| 0 <= j < i ==> #[trigger] commands@[j].name@ != name@,
        decreases n - i,
    {
        if text_eq(commands[i].name.as_str(), name) {
            return Some(i);
        }
        i = i + 1;
    }
    proof {
        assert forall|k: int| !is_first_named(commands@, name@, k) by {
            if 0 <= k < n {
                assert(commands@[k].name@ != name@);
            }
        }
    }
    None
}

/// The action that `prompt` asks for. The rules, first match wins: `/inspect`,
/// `/welcome`, `/task <label>`, `/browser <url>`, `/scene`, `/relay-console`,
/// `/workspace`, `/shape`, a command that has a script, `cargo run ...`, then any other
/// non-empty text for the shell.
pub fn route_prompt(commands: &[SlashCommand], prompt: &str) -> (r: PromptAction)
    ensures
        routed(commands@, prompt@, r),
{
    let chars = chars_of(prompt);
    let n = chars.len();
    let (a, b) = trim_bounds(&chars, 0, n, true, true);
    let trimmed = string_of(&chars, a, b);
    proof {
        assert(chars@.subrange(0, n as int) =~= chars@);
    }
    if text_eq(trimmed.as_str(), "/inspect") {
        return PromptAction::Inspect;
    }
    if text_eq(trimmed.as_str(), "/welcome") {
        return PromptAction::ToggleWelcome;
    }
    if let Some(label) = prefixed_text(&chars, "/task ") {
        return PromptAction::AddTask(label);
    }
    if let Some(url) = prefixed_text(&chars, "/browser ") {
        return PromptAction::OpenBrowser(url);
    }
    if text_eq(trimmed.as_str(), "/scene") {
        return PromptAction::OpenScene;
    }
    if text_eq(trimmed.as_str(), "/relay-console") {
        return PromptAction::RelayConsole;
    }
    if text_eq(trimmed.as_str(), "/workspace") {
        return PromptAction::DescribeWorkspace;
    }
    if text_eq(trimmed.as_str(), "/shape") {
        return PromptAction::Shape;
    }
    if let Some((name, args)) = parse_slash_command(prompt) {
        if let Some(i) = first_named(commands, name) {
            proof {
                assert(is_first_named(commands@, name@, i as int));
                let k = choose|k: int| is_first_named(commands@, name@, k);
                if k < i {
                    assert(commands@[k].name@ != name@);
                }
                if i < k {
                    assert(commands@[i as int].name@ != name@);
                }
                assert(k == i);
            }
            if commands[i].script.is_some() {
                let mut joined = chars_of(name);
                let ghost name_chars = joined@;
                joined.push(' ');
                let arg_chars = chars_of(args);
                let mut k: usize = 0;
                while k < arg_chars.len()
                    invariant
                        k <= arg_chars@.len(),
                        joined@ == name_chars.push(' ') + arg_chars@.take(k as int),
                    decreases arg_chars@.len() - k,
                {
                    joined.push(arg_chars[k]);
                    proof {
                        assert(arg_chars@.take(k + 1) =~= arg_chars@.take(k as int).push(arg_chars@[k as int]));
                    }
                    k = k + 1;
                }
                proof {
                    assert(arg_chars@.take(arg_chars@.len() as int) =~= arg_chars@);
                    assert(joined@ =~= name@ + seq![' '] + args@);
                }
                let m = joined.len();
                let (c, d) = trim_bounds(&joined, 0, m, true, true);
                proof {
                    assert(joined@.subrange(0, m as int) =~= joined@);
                }
                let command_name = string_of(&joined, c, d);
                let args_owned = string_of(&arg_chars, 0, arg_chars.len());
                proof {
                    assert(arg_chars@.subrange(0, arg_chars@.len() as int) =~= args@);
                }
                return PromptAction::RunScript { command: i, command_name, args: args_owned };
            }
        }
    }
    let cargo = chars_of("cargo run");
    let (lead, _) = trim_bounds(&chars, 0, n, true, false);
    proof {
        let rest = chars@.subrange(lead as int, n as int);
        assert(trim_start_ws(chars@.subrange(0, n as int)) == rest);
        assert(chars@.subrange(0, n as int) =~= chars@);
        assert(trim_start_ws(chars@) == rest);
        if rest.len() >= cargo@.len() {
            assert(rest.take(cargo@.len() as int) =~= chars@.subrange(lead as int, lead + cargo@.len()));
        }
    }
    if has_at(&chars, lead, &cargo) {
        return PromptAction::OpenTerminal(trimmed);
    }
    if n > 0 {
        return PromptAction::Shell(string_of(&chars, 0, n));
    }
    PromptAction::Nothing
}

/// How the view settles once a prompt's action is known: `/inspect` shows the inspect page
/// and `/welcome` leaves the view alone; anything else returns to the bottom of the chat
/// transcript with no task picked, since a prompt always goes to the chat.
pub fn settle_after_prompt(view: &mut ViewState, action: &PromptAction)
    ensures
        match *action {
            PromptAction::Inspect => final(view).page == Page::Inspect && final(view).scroll == old(view).scroll
                && final(view).selected_task == old(view).selected_task,
            PromptAction::ToggleWelcome => final(view).page == old(view).page && final(view).scroll == old(
                view,
            ).scroll && final(view).selected_task == old(view).selected_task,
            _ => final(view).page == Page::Chat && final(view).scroll == ScrollState::Following
                && final(view).selected_task is None,
        },
        final(view).input@ == old(view).input@,
        final(view).autocomplete_index == old(view).autocomplete_index,
        final(view).inspect_subpage == old(view).inspect_subpage,
        final(view).expanded == old(view).expanded,
        final(view).trace_scroll == old(view).trace_scroll,
        final(view).process_scroll == old(view).process_scroll,
{
    match action {
        PromptAction::Inspect => {
            view.page = Page::Inspect;
        },
        PromptAction::ToggleWelcome => {},
        _ => {
            view.scroll = ScrollState::Following;
            view.selected_task = None;
            view.page = Page::Chat;
        },
    }
}

/// The parts of the assistant view that keys move.
pub struct ViewState {
    /// The text typed into the input line.
    pub input: String,
    /// The palette row the arrow keys last moved to.
    pub autocomplete_index: usize,
    /// The page in the body area.
    pub page: Page,
    /// The inspect page's subpage.
    pub inspect_subpage: InspectSubpage,
    /// The task picked out in the tasks overlay, if any.
    pub selected_task: Option<usize>,
    /// Whether tool calls show their full output.
    pub expanded: bool,
    /// The chat transcript's scroll position (also used by the inspect page).
    pub scroll: ScrollState,
    /// The trace page's scroll position.
    pub trace_scroll: ScrollState,
    /// The process page's scroll position.
    pub process_scroll: ScrollState,
}

/// A key press (or mouse wheel turn, or paste) that reaches the view. Keys held with Ctrl
/// and key releases never do.
pub enum Key {
    Char(char),
    Backspace,
    Up,
    Down,
    Left,
    Right,
    Tab,
    Enter,
    Esc,
    PageUp,
    PageDown,
    F2,
    F3,
    F5,
    WheelUp,
    WheelDown,
    Paste(String),
    Other,
}

/// What the frame knows that a key's effect depends on.
#[derive(Clone, Copy)]
pub struct KeyContext {
    /// Whether the palette takes the arrow keys, Tab and Enter.
    pub palette_interactive: bool,
    /// The palette row picked out this frame.
    pub palette_selected_index: usize,
    /// How many tasks there are.
    pub task_count: usize,
    /// The scroll offset that shows the bottom of the current page.
    pub natural_offset: u16,
    /// How far PageUp and PageDown move.
    pub page_step: u16,
    /// Whether Esc was pressed at the root recently enough to confirm quitting.
    pub exit_confirmed: bool,
}

/// What a key asks the caller to do beyond moving the view.
#[derive(Debug)]
pub enum KeyAction {
    Nothing,
    /// Run this prompt (route it with [`route_prompt`], then [`settle_after_prompt`]).
    Submit(String),
    /// Move the picked task's status one step forward or back.
    CycleTaskStatus(bool),
    /// Leave the view for the raw trace stream.
    StartRawStream,
    /// Warn that a second Esc quits.
    ArmQuit,
    /// Quit.
    Quit,
}

/// Rows the mouse wheel scrolls per notch.
pub const MOUSE_SCROLL_STEP: u16 = 3;

/// The subpages in the order Left/Right cycles through them.
pub open spec fn subpage_order() -> Seq<InspectSubpage> {
    seq![InspectSubpage::Session, InspectSubpage::Persistence]
}

/// The subpage one step forward or back from `s`, wrapping at both ends.
pub open spec fn subpage_step(s: InspectSubpage, forward: bool) -> InspectSubpage {
    let pos: int = if s == InspectSubpage::Session { 0 } else { 1 };
    subpage_order()[if forward { (pos + 1) % 2 } else { (pos + 2 - 1) % 2 }]
}

/// `/name`: what accepting a palette row submits or types.
pub open spec fn slash_name(c: SlashCommand) -> Seq<char> {
    seq!['/'] + c.name@
}

/// Tab or Enter accepts the picked palette row.
pub open spec fn accepts_row(ctx: KeyContext, palette: Seq<SlashCommand>) -> bool {
    ctx.palette_interactive && ctx.palette_selected_index < palette.len()
}

/// Whether the view is at its root: the chat page, with no task picked.
pub open spec fn at_root(v: ViewState) -> bool {
    v.page == Page::Chat && v.selected_task is None
}

/// The task picked after Up: the last one from none, none from the first, else the one
/// before.
pub open spec fn task_up(selected: Option<usize>, count: usize) -> Option<usize> {
    match selected {
        None => Some((count - 1) as usize),
        Some(i) => if i == 0 { None } else { Some((i - 1) as usize) },
    }
}

/// The task picked after Down: the first one from none, none from the last, else the one
/// after.
pub open spec fn task_down(selected: Option<usize>, count: usize) -> Option<usize> {
    match selected {
        None => Some(0usize),
        Some(i) => if i + 1 == count { None } else { Some((i + 1) as usize) },
    }
}

/// The input line after `key`.
pub open spec fn input_after(v: ViewState, key: Key, ctx: KeyContext, palette: Seq<SlashCommand>) -> Seq<char> {
    match key {
        Key::Char(c) => v.input@.push(c),
        Key::Backspace => if v.input@.len() > 0 { v.input@.drop_last() } else { v.input@ },
        Key::Paste(t) => v.input@ + t@,
        Key::Tab => if accepts_row(ctx, palette) {
            let c = palette[ctx.palette_selected_index as int];
            if c.args_hint@.len() == 0 { Seq::empty() } else { slash_name(c).push(' ') }
        } else {
            v.input@
        },
        Key::Enter => if ctx.palette_interactive {
            if accepts_row(ctx, palette) {
                let c = palette[ctx.palette_selected_index as int];
                if c.args_hint@.len() == 0 { Seq::empty() } else { slash_name(c).push(' ') }
            } else {
                v.input@
            }
        } else {
            Seq::empty()
        },
        _ => v.input@,
    }
}

/// The palette row above `i` among `len` rows, wrapping from the first to the last.
pub open spec fn palette_up(i: usize, len: nat) -> usize {
    if i == 0 { (len - 1) as usize } else { (i - 1) as usize }
}

/// The palette row below `i` among `len` rows, wrapping from the last to the first.
pub open spec fn palette_down(i: usize, len: nat) -> usize {
    ((i + 1) % (len as int)) as usize
}

/// The palette row index after `key`.
pub open spec fn index_after(v: ViewState, key: Key, ctx: KeyContext, palette: Seq<SlashCommand>) -> usize {
    match key {
        Key::Char(_) | Key::Backspace | Key::Paste(_) => 0,
        Key::Up => if ctx.palette_interactive {
            palette_up(v.autocomplete_index, palette.len())
        } else {
            v.autocomplete_index
        },
        Key::Down => if ctx.palette_interactive {
            palette_down(v.autocomplete_index, palette.len())
        } else {
            v.autocomplete_index
        },
        Key::Tab | Key::Enter => if accepts_row(ctx, palette) { 0 } else { v.autocomplete_index },
        _ => v.autocomplete_index,
    }
}

/// The picked task after `key`.
pub open spec fn selected_after(v: ViewState, key: Key, ctx: KeyContext) -> Option<usize> {
    match key {
        Key::Up => if !ctx.palette_interactive && ctx.task_count > 0 {
            task_up(v.selected_task, ctx.task_count)
        } else {
            v.selected_task
        },
        Key::Down => if !ctx.palette_interactive && ctx.task_count > 0 {
            task_down(v.selected_task, ctx.task_count)
        } else {
            v.selected_task
        },
        Key::Esc => if at_root(v) { v.selected_task } else { None },
        _ => v.selected_task,
    }
}

/// The page after `key`: F2 and F3 each toggle their own page against the chat, Esc goes
/// back to the chat.
pub open spec fn page_after(v: ViewState, key: Key) -> Page {
    match key {
        Key::F2 => if v.page == Page::Trace { Page::Chat } else { Page::Trace },
        Key::F3 => if v.page == Page::Process { Page::Chat } else { Page::Process },
        Key::Esc => Page::Chat,
        _ => v.page,
    }
}

/// A scroll position after `key`, for the page whose position it is (`mine`).
pub open spec fn scroll_after(s: ScrollState, mine: bool, key: Key, ctx: KeyContext) -> ScrollState {
    if !mine {
        s
    } else {
        match key {
            Key::PageUp => spec_scroll_up(s, ctx.natural_offset, ctx.page_step),
            Key::PageDown => spec_scroll_down(s, ctx.natural_offset, ctx.page_step),
            Key::WheelUp => spec_scroll_up(s, ctx.natural_offset, MOUSE_SCROLL_STEP),
            Key::WheelDown => spec_scroll_down(s, ctx.natural_offset, MOUSE_SCROLL_STEP),
            _ => s,
        }
    }
}

/// Whether the chat's scroll position jumps back to the bottom: picking a task with Up or
/// Down does.
pub open spec fn resets_chat_scroll(key: Key, ctx: KeyContext) -> bool {
    (key is Up || key is Down) && !ctx.palette_interactive && ctx.task_count > 0
}

/// What `key` asks the caller to do.
pub open spec fn action_for(v: ViewState, key: Key, ctx: KeyContext, palette: Seq<SlashCommand>, r: KeyAction) -> bool {
    match key {
        Key::Tab | Key::Enter => if accepts_row(ctx, palette)
            && palette[ctx.palette_selected_index as int].args_hint@.len() == 0 {
            r matches KeyAction::Submit(p) && p@ == slash_name(palette[ctx.palette_selected_index as int])
        } else if key is Enter && !ctx.palette_interactive {
            r matches KeyAction::Submit(p) && p@ == trim_ws(v.input@)
        } else {
            r is Nothing
        },
        Key::Left | Key::Right => if v.page != Page::Inspect && v.selected_task is Some && !ctx.palette_interactive {
            r matches KeyAction::CycleTaskStatus(forward) && forward == (key is Right)
        } else {
            r is Nothing
        },
        Key::F5 => r is StartRawStream,
        Key::Esc => if at_root(v) {
            if ctx.exit_confirmed { r is Quit } else { r is ArmQuit }
        } else {
            r is Nothing
        },
        _ => r is Nothing,
    }
}

/// `s` without its last character (unchanged when empty).
fn without_last(s: &String) -> (r: String)
    ensures
        r@ == (if s@.len() > 0 { s@.drop_last() } else { s@ }),
{
    let chars = chars_of(s.as_str());
    let n = chars.len();
    if n == 0 {
        return string_of(&chars, 0, 0);
    }
    let r = string_of(&chars, 0, n - 1);
    proof {
        assert(chars@.subrange(0, n - 1) =~= s@.drop_last());
    }
    r
}

/// `s` with the text of `t` added at the end.
fn with_text(s: &String, t: &str) -> (r: String)
    ensures
        r@ == s@ + t@,
{
    let mut out = s.clone();
    append_text(&mut out, t);
    out
}

/// `/name`, followed by a space when `space`.
fn slash_text(c: &SlashCommand, space: bool) -> (r: String)
    ensures
        r@ == (if space { slash_name(*c).push(' ') } else { slash_name(*c) }),
{
    let mut out = with_text(&String::from_str("/"), c.name.as_str());
    proof {
        reveal_strlit("/");
        assert(out@ =~= slash_name(*c));
    }
    if space {
        push_char(&mut out, ' ');
    }
    out
}

/// The subpage one step forward or back from `s`.
fn next_subpage(s: InspectSubpage, forward: bool) -> (r: InspectSubpage)
    ensures
        r == subpage_step(s, forward),
{
    let all = InspectSubpage::all();
    let n = all.len();
    let mut pos: usize = 0;
    while pos < n && all[pos] != s
        invariant
            n == 2,
            all@ == subpage_order(),
            pos <= n,
            forall|j: int| 0 <= j < pos ==> all@[j] != s,
        decreases n - pos,
    {
        pos = pos + 1;
    }
    if pos == n {
        pos = 0;
    }
    if forward {
        all[(pos + 1) % n]
    } else {
        all[(pos + n - 1) % n]
    }
}

/// Applies a key to the view and says what else the key asks for. Typing edits the input
/// line; Up/Down move through the palette while it takes the keys, else through the tasks
/// (wrapping through "no task" at both ends); Left/Right flip the inspect page's subpage,
/// or cycle the picked task's status; Tab and Enter accept the palette's row (a command
/// without arguments runs at once, one with arguments is typed out for them), else Tab
/// toggles full tool output and Enter submits the trimmed input; F2/F3 toggle the trace and
/// process pages; Esc backs out to the chat, or at the chat asks to quit (twice to confirm);
/// PageUp/PageDown and the wheel scroll the page shown.
pub fn handle_key(view: &mut ViewState, key: Key, ctx: KeyContext, palette: &[SlashCommand]) -> (r: KeyAction)
    requires
        ctx.palette_interactive ==> palette@.len() > 0,
        (key is Down && ctx.palette_interactive) ==> old(view).autocomplete_index < usize::MAX,
        (key is Down && old(view).selected_task is Some) ==> old(view).selected_task->0 < usize::MAX,
    ensures
        final(view).input@ == input_after(*old(view), key, ctx, palette@),
        final(view).autocomplete_index == index_after(*old(view), key, ctx, palette@),
        final(view).page == page_after(*old(view), key),
        final(view).inspect_subpage == (if (key is Left || key is Right) && old(view).page == Page::Inspect {
            subpage_step(old(view).inspect_subpage, key is Right)
        } else {
            old(view).inspect_subpage
        }),
        final(view).selected_task == selected_after(*old(view), key, ctx),
        final(view).expanded == (if key is Tab && !ctx.palette_interactive {
            !old(view).expanded
        } else {
            old(view).expanded
        }),
        final(view).scroll == (if resets_chat_scroll(key, ctx) {
            ScrollState::Following
        } else {
            scroll_after(old(view).scroll, old(view).page == Page::Chat || old(view).page == Page::Inspect, key, ctx)
        }),
        final(view).trace_scroll == scroll_after(old(view).trace_scroll, old(view).page == Page::Trace, key, ctx),
        final(view).process_scroll == scroll_after(old(view).process_scroll, old(view).page == Page::Process, key, ctx),
        action_for(*old(view), key, ctx, palette@, r),
{
    match key {
        Key::Char(c) => {
            push_char(&mut view.input, c);
            view.autocomplete_index = 0;
            KeyAction::Nothing
        },
        Key::Backspace => {
            view.input = without_last(&view.input);
            view.autocomplete_index = 0;
            KeyAction::Nothing
        },
        Key::Paste(text) => {
            view.input = with_text(&view.input, text.as_str());
            view.autocomplete_index = 0;
            KeyAction::Nothing
        },
        Key::Up => {
            if ctx.palette_interactive {
                view.autocomplete_index = if view.autocomplete_index == 0 {
                    palette.len() - 1
                } else {
                    view.autocomplete_index - 1
                };
            } else if ctx.task_count > 0 {
                view.selected_task = match view.selected_task {
                    None => Some(ctx.task_count - 1),
                    Some(i) => if i == 0 { None } else { Some(i - 1) },
                };
                view.scroll = ScrollState::Following;
            }
            KeyAction::Nothing
        },
        Key::Down => {
            if ctx.palette_interactive {
                view.autocomplete_index = (view.autocomplete_index + 1) % palette.len();
            } else if ctx.task_count > 0 {
                view.selected_task = match view.selected_task {
                    None => Some(0),
                    Some(i) => if i + 1 == ctx.task_count { None } else { Some(i + 1) },
                };
                view.scroll = ScrollState::Following;
            }
            KeyAction::Nothing
        },
        Key::Left | Key::Right => {
            let forward = matches!(key, Key::Right);
            if view.page == Page::Inspect {
                view.inspect_subpage = next_subpage(view.inspect_subpage, forward);
                KeyAction::Nothing
            } else if view.selected_task.is_some() && !ctx.palette_interactive {
                KeyAction::CycleTaskStatus(forward)
            } else {
                KeyAction::Nothing
            }
        },
        Key::Tab | Key::Enter => {
            let is_enter = matches!(key, Key::Enter);
            if ctx.palette_interactive {
                if ctx.palette_selected_index < palette.len() {
                    let command = &palette[ctx.palette_selected_index];
                    view.autocomplete_index = 0;
                    if command.args_hint.unicode_len() == 0 {
                        view.input = String::new();
                        KeyAction::Submit(slash_text(command, false))
                    } else {
                        view.input = slash_text(command, true);
                        KeyAction::Nothing
                    }
                } else {
                    KeyAction::Nothing
                }
            } else if is_enter {
                let chars = chars_of(view.input.as_str());
                let n = chars.len();
                let (a, b) = trim_bounds(&chars, 0, n, true, true);
                proof {
                    assert(chars@.subrange(0, n as int) =~= chars@);
                }
                let prompt = string_of(&chars, a, b);
                view.input = String::new();
                KeyAction::Submit(prompt)
            } else {
                view.expanded = !view.expanded;
                KeyAction::Nothing
            }
        },
        Key::F5 => KeyAction::StartRawStream,
        Key::F2 => {
            view.page = if view.page == Page::Trace { Page::Chat } else { Page::Trace };
            KeyAction::Nothing
        },
        Key::F3 => {
            view.page = if view.page == Page::Process { Page::Chat } else { Page::Process };
            KeyAction::Nothing
        },
        Key::Esc => {
            if view.page == Page::Chat && view.selected_task.is_none() {
                if ctx.exit_confirmed {
                    KeyAction::Quit
                } else {
                    KeyAction::ArmQuit
                }
            } else {
                view.selected_task = None;
                view.page = Page::Chat;
                KeyAction::Nothing
            }
        },
        Key::PageUp | Key::PageDown | Key::WheelUp | Key::WheelDown => {
            let up = matches!(key, Key::PageUp) || matches!(key, Key::WheelUp);
            let step = if matches!(key, Key::PageUp) || matches!(key, Key::PageDown) { ctx.page_step } else { MOUSE_SCROLL_STEP };
            let natural = ctx.natural_offset;
            match view.page {
                Page::Trace => if up {
                    scroll_up(&mut view.trace_scroll, natural, step)
                } else {
                    scroll_down(&mut view.trace_scroll, natural, step)
                },
                Page::Process => if up {
                    scroll_up(&mut view.process_scroll, natural, step)
                } else {
                    scroll_down(&mut view.process_scroll, natural, step)
                },
                Page::Inspect | Page::Chat => if up {
                    scroll_up(&mut view.scroll, natural, step)
                } else {
                    scroll_down(&mut view.scroll, natural, step)
                },
            }
            KeyAction::Nothing
        },
        Key::Other => KeyAction::Nothing,
    }
}

/// How long a second Esc at the root confirms quitting, in milliseconds.
pub const EXIT_CONFIRM_WINDOW_MS: u64 = 2000;
/// How long after a failed copy the first, gentle hint shows, in milliseconds.
pub const MOUSE_HINT_DELAY_MS: u64 = 6000;
/// How long after a failed copy any hint shows at all, in milliseconds.
pub const MOUSE_HINT_MAX_AGE_MS: u64 = 30000;
/// How long the "shell said nah" hint shows, in milliseconds.
pub const SHELL_REJECTED_HINT_MS: u64 = 3000;

/// The first copy hint.
pub const NOTHING_TO_COPY: &'static str = "Nothing selected to copy.";
/// The copy hint once the trouble has lasted.
pub const STILL_NOTHING_TO_COPY: &'static str = "Still nothing to copy. Hold Option (\u{2325}) while dragging to select text natively.";

/// The scroll position the page shows: the trace and process pages have their own, the
/// chat and inspect pages share the chat's.
pub fn page_scroll(view: &ViewState) -> (r: ScrollState)
    ensures
        r == (match view.page {
            Page::Trace => view.trace_scroll,
            Page::Process => view.process_scroll,
            _ => view.scroll,
        }),
{
    match view.page {
        Page::Trace => view.trace_scroll,
        Page::Process => view.process_scroll,
        Page::Inspect | Page::Chat => view.scroll,
    }
}

/// The row offset a scroll position shows: the bottom while following, else the pinned
/// offset, never past the bottom.
pub fn scroll_offset(scroll: ScrollState, natural_offset: u16) -> (r: u16)
    ensures
        r == (match scroll {
            ScrollState::Following => natural_offset,
            ScrollState::Pinned(o) => if o < natural_offset { o } else { natural_offset },
        }),
        r <= natural_offset,
{
    match scroll {
        ScrollState::Following => natural_offset,
        ScrollState::Pinned(o) => if o < natural_offset { o } else { natural_offset },
    }
}

/// How far PageUp/PageDown move: a screen less one row of overlap, at least one row.
pub fn page_step(body_height: u16) -> (r: u16)
    ensures
        r == (if body_height >= 2 { body_height - 1 } else { 1 }),
        r >= 1,
{
    if body_height >= 2 { body_height - 1 } else { 1 }
}

/// The blank rows put above content that fits the body, so it sits at the bottom the way a
/// log does: only on the chat transcript (no task picked) and the trace and process pages,
/// and only when there is nothing to scroll.
pub fn leading_blank_rows(page: Page, task_picked: bool, natural_offset: u16, body_height: u16, content_height: u16) -> (r: u16)
    ensures
        r == (if (page == Page::Trace || page == Page::Process || (page == Page::Chat && !task_picked))
            && natural_offset == 0 && body_height > content_height {
            body_height - content_height
        } else {
            0
        }),
{
    let pads = match page {
        Page::Trace | Page::Process => true,
        Page::Inspect => false,
        Page::Chat => !task_picked,
    };
    if pads && natural_offset == 0 && body_height > content_height {
        body_height - content_height
    } else {
        0
    }
}

/// The copy hint for a copy that failed `elapsed_ms` ago: the gentle one at first, the
/// fuller one later, none once the trouble is stale.
pub fn mouse_hint(elapsed_ms: u64) -> (r: Option<&'static str>)
    ensures
        r == (if elapsed_ms > MOUSE_HINT_MAX_AGE_MS {
            None
        } else if elapsed_ms < MOUSE_HINT_DELAY_MS {
            Some(NOTHING_TO_COPY)
        } else {
            Some(STILL_NOTHING_TO_COPY)
        }),
{
    if elapsed_ms > MOUSE_HINT_MAX_AGE_MS {
        None
    } else if elapsed_ms < MOUSE_HINT_DELAY_MS {
        Some(NOTHING_TO_COPY)
    } else {
        Some(STILL_NOTHING_TO_COPY)
    }
}

/// What the status line shows, highest priority first.
#[derive(Debug)]
pub enum StatusSource {
    /// A command in flight.
    Running,
    /// "Press Esc again to quit".
    ExitWarning,
    /// A copy hint.
    MouseHint(&'static str),
    /// "shell said nah".
    ShellRejected,
    /// Nothing pressing: the idle hints.
    Idle,
}

/// Picks the status line's source: a running command, then the quit warning (an Esc at the
/// root within the confirm window), then a copy hint, then a recent shell rejection, else
/// the idle hints.
pub fn status_source(
    running: bool,
    exit_warned_ms_ago: Option<u64>,
    copy_failed_ms_ago: Option<u64>,
    shell_rejected_ms_ago: Option<u64>,
) -> (r: StatusSource)
    ensures
        r == (if running {
            StatusSource::Running
        } else if exit_warned_ms_ago matches Some(e) && e < EXIT_CONFIRM_WINDOW_MS {
            StatusSource::ExitWarning
        } else if copy_failed_ms_ago matches Some(c) && c <= MOUSE_HINT_MAX_AGE_MS {
            StatusSource::MouseHint(if copy_failed_ms_ago->0 < MOUSE_HINT_DELAY_MS { NOTHING_TO_COPY } else { STILL_NOTHING_TO_COPY })
        } else if shell_rejected_ms_ago matches Some(s) && s < SHELL_REJECTED_HINT_MS {
            StatusSource::ShellRejected
        } else {
            StatusSource::Idle
        }),
{
    if running {
        return StatusSource::Running;
    }
    if let Some(e) = exit_warned_ms_ago {
        if e < EXIT_CONFIRM_WINDOW_MS {
            return StatusSource::ExitWarning;
        }
    }
    if let Some(c) = copy_failed_ms_ago {
        if let Some(hint) = mouse_hint(c) {
            return StatusSource::MouseHint(hint);
        }
    }
    if let Some(s) = shell_rejected_ms_ago {
        if s < SHELL_REJECTED_HINT_MS {
            return StatusSource::ShellRejected;
        }
    }
    StatusSource::Idle
}

/// The idle status hint "Esc: back".
pub const HINT_BACK: &'static str = "Esc: back";
/// The idle status hint while scrolled up.
pub const HINT_SCROLLED: &'static str = "\u{2191} scrolled (PgDn to catch up)";
/// The idle status hint while the palette is closed.
pub const HINT_COMMANDS: &'static str = "/ for commands";
/// The idle status hint naming the page keys; always shown.
pub const HINT_KEYS: &'static str = "F2 trace \u{b7} F3 process \u{b7} F5 raw stream";

/// The idle hints, in order: "Esc: back" when there is something to back out of (a page
/// other than the chat, or a picked task), the scrolled-up hint, "/ for commands" while the
/// palette is closed, and always the page keys.
pub fn idle_hints(page: Page, task_picked: bool, scrolled_up: bool, palette_open: bool) -> (r: Vec<&'static str>)
    ensures
        r@ == (if page != Page::Chat || task_picked { seq![HINT_BACK] } else { Seq::empty() }) + (if scrolled_up {
            seq![HINT_SCROLLED]
        } else {
            Seq::empty()
        }) + (if !palette_open { seq![HINT_COMMANDS] } else { Seq::empty() }) + seq![HINT_KEYS],
{
    let mut out: Vec<&'static str> = Vec::new();
    if page != Page::Chat || task_picked {
        out.push(HINT_BACK);
    }
    if scrolled_up {
        out.push(HINT_SCROLLED);
    }
    if !palette_open {
        out.push(HINT_COMMANDS);
    }
    out.push(HINT_KEYS);
    proof {
        let a: Seq<&'static str> = if page != Page::Chat || task_picked { seq![HINT_BACK] } else { Seq::empty() };
        let b: Seq<&'static str> = if scrolled_up { seq![HINT_SCROLLED] } else { Seq::empty() };
        let c: Seq<&'static str> = if !palette_open { seq![HINT_COMMANDS] } else { Seq::empty() };
        assert(out@ =~= a + b + c + seq![HINT_KEYS]);
    }
    out
}

/// Up then Down in the palette comes back to the same row, and so does Down then Up.
pub proof fn law_palette_up_down_round_trip(i: usize, len: nat)
    requires
        0 < len <= usize::MAX,
        i < len,
    ensures
        palette_down(palette_up(i, len), len) == i,
        palette_up(palette_down(i, len), len) == i,
{
    if i + 1 == len {
        assert((i + 1) % (len as int) == 0) by (nonlinear_arith)
            requires
                i + 1 == len,
                len > 0,
        ;
    } else {
        assert((i + 1) % (len as int) == i + 1) by (nonlinear_arith)
            requires
                i + 1 < len,
        ;
    }
    if i == 0 {
        assert(((len - 1) + 1) % (len as int) == 0) by (nonlinear_arith)
            requires
                len > 0,
        ;
    } else {
        assert(((i - 1) + 1) % (len as int) == i) by (nonlinear_arith)
            requires
                0 < i < len,
        ;
    }
}

/// Up then Down in the tasks list comes back to the same pick ("no task" included), and so
/// does Down then Up.
pub proof fn law_task_up_down_round_trip(selected: Option<usize>, count: usize)
    requires
        count > 0,
        selected matches Some(i) ==> i < count,
    ensures
        task_down(task_up(selected, count), count) == selected,
        task_up(task_down(selected, count), count) == selected,
{
}

/// Left then Right on the inspect page comes back to the same subpage, and so does Right
/// then Left.
pub proof fn law_subpage_round_trip(s: InspectSubpage)
    ensures
        subpage_step(subpage_step(s, true), false) == s,
        subpage_step(subpage_step(s, false), true) == s,
{
}

/// F2 always lands on the trace page, unless it is already showing, in which case it goes
/// back to the chat; F3 the same for the process page.
pub proof fn law_f_keys_land_on_their_page(v: ViewState)
    ensures
        page_after(v, Key::F2) == (if v.page == Page::Trace { Page::Chat } else { Page::Trace }),
        page_after(v, Key::F3) == (if v.page == Page::Process { Page::Chat } else { Page::Process }),
        v.page != Page::Trace ==> page_after(v, Key::F2) == Page::Trace,
        v.page != Page::Process ==> page_after(v, Key::F3) == Page::Process,
{
}

/// Esc backs out to the root (the chat, no task picked) from anywhere; at the root it asks
/// to quit instead, and only a second Esc within the confirm window quits.
pub proof fn law_esc_backs_out_then_quits(v: ViewState, ctx: KeyContext, palette: Seq<SlashCommand>, r: KeyAction)
    requires
        action_for(v, Key::Esc, ctx, palette, r),
    ensures
        page_after(v, Key::Esc) == Page::Chat,
        selected_after(v, Key::Esc, ctx) is None,
        !at_root(v) ==> r is Nothing,
        at_root(v) ==> (if ctx.exit_confirmed { r is Quit } else { r is ArmQuit }),
{
}

} // verus!
