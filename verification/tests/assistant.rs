use std::path::PathBuf;

use escher_atlas::anvil::{InspectSubpage, ScrollState};
use escher_atlas::assistant::{
    handle_key, idle_hints, leading_blank_rows, mouse_hint, page_scroll, page_step, route_prompt, scroll_offset,
    settle_after_prompt, status_source, Key, KeyAction, KeyContext, Page, PromptAction, StatusSource, ViewState,
    HINT_BACK, HINT_COMMANDS, HINT_KEYS, HINT_SCROLLED, NOTHING_TO_COPY, STILL_NOTHING_TO_COPY,
};
use escher_atlas::commands::SlashCommand;

fn commands() -> Vec<SlashCommand> {
    vec![
        SlashCommand::new("greet", Some("<name>"), "Say hello", Some(PathBuf::from("commands/greet.js"))),
        SlashCommand::new("inspect", None, "Show app state", None),
        SlashCommand::new("plain", None, "No script", None),
        SlashCommand::new("plain", None, "Shadowed", Some(PathBuf::from("commands/plain.js"))),
    ]
}

fn view() -> ViewState {
    ViewState {
        input: String::new(),
        autocomplete_index: 0,
        page: Page::Chat,
        inspect_subpage: InspectSubpage::Session,
        selected_task: None,
        expanded: false,
        scroll: ScrollState::Following,
        trace_scroll: ScrollState::Following,
        process_scroll: ScrollState::Following,
    }
}

fn ctx() -> KeyContext {
    KeyContext {
        palette_interactive: false,
        palette_selected_index: 0,
        task_count: 0,
        natural_offset: 40,
        page_step: 9,
        exit_confirmed: false,
    }
}

#[test]
fn builtin_prompts_route_to_their_actions() {
    let c = commands();
    assert!(matches!(route_prompt(&c, "  /inspect "), PromptAction::Inspect));
    assert!(matches!(route_prompt(&c, "/welcome"), PromptAction::ToggleWelcome));
    assert!(matches!(route_prompt(&c, "/scene"), PromptAction::OpenScene));
    assert!(matches!(route_prompt(&c, "/relay-console"), PromptAction::RelayConsole));
    assert!(matches!(route_prompt(&c, "/workspace"), PromptAction::DescribeWorkspace));
    assert!(matches!(route_prompt(&c, "/shape"), PromptAction::Shape));
}

#[test]
fn task_and_browser_prompts_carry_their_trimmed_text() {
    let c = commands();
    match route_prompt(&c, "/task   write the docs  ") {
        PromptAction::AddTask(label) => assert_eq!(label, "write the docs"),
        other => panic!("unexpected {other:?}"),
    }
    match route_prompt(&c, "/browser https://example.com") {
        PromptAction::OpenBrowser(url) => assert_eq!(url, "https://example.com"),
        other => panic!("unexpected {other:?}"),
    }
    // An empty label is no task: the text goes on down the rules, to the shell.
    match route_prompt(&c, "/task   ") {
        PromptAction::Shell(text) => assert_eq!(text, "/task   "),
        other => panic!("unexpected {other:?}"),
    }
}

#[test]
fn a_scripted_command_runs_with_its_arguments() {
    let c = commands();
    match route_prompt(&c, "/greet  Ada Lovelace") {
        PromptAction::RunScript { command, command_name, args } => {
            assert_eq!(command, 0);
            assert_eq!(command_name, "greet Ada Lovelace");
            assert_eq!(args, "Ada Lovelace");
        },
        other => panic!("unexpected {other:?}"),
    }
    match route_prompt(&c, "/greet") {
        PromptAction::RunScript { command_name, args, .. } => {
            assert_eq!(command_name, "greet");
            assert_eq!(args, "");
        },
        other => panic!("unexpected {other:?}"),
    }
}

#[test]
fn only_the_first_command_of_a_name_counts() {
    // The first `plain` has no script, so the prompt is not a script run.
    match route_prompt(&commands(), "/plain") {
        PromptAction::Shell(text) => assert_eq!(text, "/plain"),
        other => panic!("unexpected {other:?}"),
    }
}

#[test]
fn cargo_run_opens_a_terminal_and_other_text_goes_to_the_shell() {
    let c = commands();
    match route_prompt(&c, "  cargo run -p demo ") {
        PromptAction::OpenTerminal(cmd) => assert_eq!(cmd, "cargo run -p demo"),
        other => panic!("unexpected {other:?}"),
    }
    match route_prompt(&c, "ls -la") {
        PromptAction::Shell(text) => assert_eq!(text, "ls -la"),
        other => panic!("unexpected {other:?}"),
    }
    assert!(matches!(route_prompt(&c, ""), PromptAction::Nothing));
}

#[test]
fn a_prompt_returns_the_view_to_the_chat_except_inspect_and_welcome() {
    let mut v = view();
    v.page = Page::Trace;
    v.selected_task = Some(1);
    v.scroll = ScrollState::Pinned(3);
    settle_after_prompt(&mut v, &PromptAction::Shell("ls".to_string()));
    assert_eq!(v.page, Page::Chat);
    assert_eq!(v.selected_task, None);
    assert_eq!(v.scroll, ScrollState::Following);

    let mut w = view();
    w.selected_task = Some(1);
    settle_after_prompt(&mut w, &PromptAction::Inspect);
    assert_eq!(w.page, Page::Inspect);
    assert_eq!(w.selected_task, Some(1));

    let mut x = view();
    x.page = Page::Process;
    settle_after_prompt(&mut x, &PromptAction::ToggleWelcome);
    assert_eq!(x.page, Page::Process);
}

#[test]
fn typing_editing_and_pasting_reset_the_palette_row() {
    let mut v = view();
    v.autocomplete_index = 2;
    assert!(matches!(handle_key(&mut v, Key::Char('/'), ctx(), &[]), KeyAction::Nothing));
    assert_eq!(v.input, "/");
    assert_eq!(v.autocomplete_index, 0);
    handle_key(&mut v, Key::Paste("gre".to_string()), ctx(), &[]);
    assert_eq!(v.input, "/gre");
    handle_key(&mut v, Key::Backspace, ctx(), &[]);
    assert_eq!(v.input, "/gr");
    let mut empty = view();
    handle_key(&mut empty, Key::Backspace, ctx(), &[]);
    assert_eq!(empty.input, "");
}

#[test]
fn enter_submits_the_trimmed_input_and_clears_it() {
    let mut v = view();
    v.input = "  hello  ".to_string();
    match handle_key(&mut v, Key::Enter, ctx(), &[]) {
        KeyAction::Submit(p) => assert_eq!(p, "hello"),
        other => panic!("unexpected {other:?}"),
    }
    assert_eq!(v.input, "");
}

#[test]
fn the_palette_takes_arrows_tab_and_enter_while_interactive() {
    let palette = commands();
    let mut c = ctx();
    c.palette_interactive = true;
    let mut v = view();
    handle_key(&mut v, Key::Up, c, &palette);
    assert_eq!(v.autocomplete_index, 3);
    handle_key(&mut v, Key::Down, c, &palette);
    assert_eq!(v.autocomplete_index, 0);
    // Row 0 takes arguments: Tab types it out and waits.
    c.palette_selected_index = 0;
    v.autocomplete_index = 1;
    assert!(matches!(handle_key(&mut v, Key::Tab, c, &palette), KeyAction::Nothing));
    assert_eq!(v.input, "/greet ");
    assert_eq!(v.autocomplete_index, 0);
    // Row 1 takes none: Enter runs it at once.
    c.palette_selected_index = 1;
    match handle_key(&mut v, Key::Enter, c, &palette) {
        KeyAction::Submit(p) => assert_eq!(p, "/inspect"),
        other => panic!("unexpected {other:?}"),
    }
    assert_eq!(v.input, "");
}

#[test]
fn tab_toggles_full_output_when_the_palette_is_idle() {
    let mut v = view();
    handle_key(&mut v, Key::Tab, ctx(), &[]);
    assert!(v.expanded);
    handle_key(&mut v, Key::Tab, ctx(), &[]);
    assert!(!v.expanded);
}

#[test]
fn up_and_down_walk_the_tasks_through_no_task() {
    let mut c = ctx();
    c.task_count = 2;
    let mut v = view();
    v.scroll = ScrollState::Pinned(5);
    handle_key(&mut v, Key::Up, c, &[]);
    assert_eq!(v.selected_task, Some(1));
    assert_eq!(v.scroll, ScrollState::Following);
    handle_key(&mut v, Key::Up, c, &[]);
    assert_eq!(v.selected_task, Some(0));
    handle_key(&mut v, Key::Up, c, &[]);
    assert_eq!(v.selected_task, None);
    handle_key(&mut v, Key::Down, c, &[]);
    assert_eq!(v.selected_task, Some(0));
    handle_key(&mut v, Key::Down, c, &[]);
    handle_key(&mut v, Key::Down, c, &[]);
    assert_eq!(v.selected_task, None);
}

#[test]
fn left_and_right_flip_the_subpage_or_cycle_the_task() {
    let mut v = view();
    v.page = Page::Inspect;
    handle_key(&mut v, Key::Right, ctx(), &[]);
    assert_eq!(v.inspect_subpage, InspectSubpage::Persistence);
    handle_key(&mut v, Key::Left, ctx(), &[]);
    assert_eq!(v.inspect_subpage, InspectSubpage::Session);

    let mut w = view();
    w.selected_task = Some(0);
    assert!(matches!(handle_key(&mut w, Key::Right, ctx(), &[]), KeyAction::CycleTaskStatus(true)));
    assert!(matches!(handle_key(&mut w, Key::Left, ctx(), &[]), KeyAction::CycleTaskStatus(false)));
    let mut none = view();
    assert!(matches!(handle_key(&mut none, Key::Left, ctx(), &[]), KeyAction::Nothing));
}

#[test]
fn function_keys_and_esc_move_between_pages() {
    let mut v = view();
    handle_key(&mut v, Key::F2, ctx(), &[]);
    assert_eq!(v.page, Page::Trace);
    handle_key(&mut v, Key::F3, ctx(), &[]);
    assert_eq!(v.page, Page::Process);
    handle_key(&mut v, Key::F3, ctx(), &[]);
    assert_eq!(v.page, Page::Chat);
    handle_key(&mut v, Key::F2, ctx(), &[]);
    v.selected_task = Some(0);
    assert!(matches!(handle_key(&mut v, Key::Esc, ctx(), &[]), KeyAction::Nothing));
    assert_eq!(v.page, Page::Chat);
    assert_eq!(v.selected_task, None);
    assert!(matches!(handle_key(&mut v, Key::Esc, ctx(), &[]), KeyAction::ArmQuit));
    let mut c = ctx();
    c.exit_confirmed = true;
    assert!(matches!(handle_key(&mut v, Key::Esc, c, &[]), KeyAction::Quit));
    assert!(matches!(handle_key(&mut v, Key::F5, ctx(), &[]), KeyAction::StartRawStream));
}

#[test]
fn scrolling_moves_only_the_shown_pages_position() {
    let mut v = view();
    v.page = Page::Trace;
    handle_key(&mut v, Key::PageUp, ctx(), &[]);
    assert_eq!(v.trace_scroll, ScrollState::Pinned(31));
    assert_eq!(v.scroll, ScrollState::Following);
    handle_key(&mut v, Key::WheelDown, ctx(), &[]);
    assert_eq!(v.trace_scroll, ScrollState::Pinned(34));
    assert_eq!(page_scroll(&v), ScrollState::Pinned(34));
    handle_key(&mut v, Key::PageDown, ctx(), &[]);
    assert_eq!(v.trace_scroll, ScrollState::Following);
    v.page = Page::Inspect;
    handle_key(&mut v, Key::WheelUp, ctx(), &[]);
    assert_eq!(v.scroll, ScrollState::Pinned(37));
}

#[test]
fn frame_offsets_steps_and_padding() {
    assert_eq!(scroll_offset(ScrollState::Following, 12), 12);
    assert_eq!(scroll_offset(ScrollState::Pinned(5), 12), 5);
    assert_eq!(scroll_offset(ScrollState::Pinned(50), 12), 12);
    assert_eq!(page_step(20), 19);
    assert_eq!(page_step(1), 1);
    assert_eq!(page_step(0), 1);
    assert_eq!(leading_blank_rows(Page::Chat, false, 0, 20, 6), 14);
    assert_eq!(leading_blank_rows(Page::Chat, true, 0, 20, 6), 0);
    assert_eq!(leading_blank_rows(Page::Inspect, false, 0, 20, 6), 0);
    assert_eq!(leading_blank_rows(Page::Trace, false, 3, 20, 23), 0);
}

#[test]
fn the_status_line_picks_the_most_pressing_source() {
    assert!(matches!(status_source(true, Some(0), Some(0), Some(0)), StatusSource::Running));
    assert!(matches!(status_source(false, Some(1999), Some(0), None), StatusSource::ExitWarning));
    assert!(matches!(status_source(false, Some(2000), Some(10), None), StatusSource::MouseHint(h) if h == NOTHING_TO_COPY));
    assert!(matches!(status_source(false, None, Some(6000), None), StatusSource::MouseHint(h) if h == STILL_NOTHING_TO_COPY));
    assert!(matches!(status_source(false, None, Some(30001), Some(100)), StatusSource::ShellRejected));
    assert!(matches!(status_source(false, None, None, Some(3000)), StatusSource::Idle));
    assert_eq!(mouse_hint(30000), Some(STILL_NOTHING_TO_COPY));
    assert_eq!(mouse_hint(30001), None);
}

#[test]
fn idle_hints_list_only_what_applies() {
    assert_eq!(idle_hints(Page::Chat, false, false, true), vec![HINT_KEYS]);
    assert_eq!(idle_hints(Page::Chat, false, false, false), vec![HINT_COMMANDS, HINT_KEYS]);
    assert_eq!(idle_hints(Page::Trace, false, true, false), vec![HINT_BACK, HINT_SCROLLED, HINT_COMMANDS, HINT_KEYS]);
}
