use escher_atlas::anvil::{
    cycle_task_status, diff_color, overlay_bounds_from_row, scroll_down, scroll_up, show_welcome_from_row,
    stored_kind, DiffLine, InspectSubpage, ScrollState, StoredKind,
};
use escher_atlas::commands::{builtin_commands, matching_commands, parse_slash_command, read_exported_string_const, SlashCommand};
use escher_atlas::history::{
    decode_output, encode_output, is_hidden_from_history, message_from_row, message_row, ChatMessage, RowError, TaskRow,
};

fn task(label: &str, status: &str) -> TaskRow {
    TaskRow { label: label.to_string(), status: status.to_string() }
}

#[test]
fn slash_command_splits_name_and_arguments() {
    assert_eq!(parse_slash_command("/task  buy milk"), Some(("task", "buy milk")));
    assert_eq!(parse_slash_command("/brow"), Some(("brow", "")));
    assert_eq!(parse_slash_command("/"), Some(("", "")));
    assert_eq!(parse_slash_command("ls -la"), None);
    assert_eq!(parse_slash_command(""), None);
}

#[test]
fn builtin_commands_are_listed_in_order() {
    let names: Vec<String> = builtin_commands().iter().map(|c| c.name.clone()).collect();
    assert_eq!(names, vec!["task", "relay-console", "workspace", "browser", "scene", "shape", "inspect", "welcome"]);
    assert_eq!(builtin_commands()[0].args_hint, "<label>");
    assert_eq!(builtin_commands()[3].args_hint, "<url>");
}

#[test]
fn matching_commands_puts_prefix_matches_first() {
    let commands = builtin_commands();
    let names = |partial: &str| -> Vec<String> { matching_commands(&commands, partial).iter().map(|c| c.name.clone()).collect() };
    assert_eq!(names("s"), vec!["scene", "shape", "task", "relay-console", "workspace", "browser", "inspect"]);
    assert_eq!(names("console"), vec!["relay-console"]);
    assert_eq!(names("").len(), 8);
    assert!(names("zzz").is_empty());
}

#[test]
fn slash_command_new_defaults_the_hint() {
    let c = SlashCommand::new("deploy", None, "Ship it", None);
    assert_eq!(c.args_hint, "");
    assert_eq!(c.description, "Ship it");
    let d = c.duplicate();
    assert_eq!(d.name, "deploy");
}

#[test]
fn exported_constants_are_read_without_running_the_script() {
    let source = "// header\nexport const description = \"Deploys the app\";\nexport const argsHint = null;\nexport const other = 'x';\n";
    assert_eq!(read_exported_string_const(source, "description"), Some(Some("Deploys the app".to_string())));
    assert_eq!(read_exported_string_const(source, "argsHint"), Some(None));
    assert_eq!(read_exported_string_const(source, "other"), Some(Some("x".to_string())));
    assert_eq!(read_exported_string_const(source, "missing"), None);
}

#[test]
fn output_lines_round_trip_through_one_column() {
    let lines = vec!["first".to_string(), "".to_string(), "third line\nwith newline".to_string()];
    let joined = encode_output(&lines);
    assert_eq!(joined, "first\u{1e}\u{1e}third line\nwith newline");
    assert_eq!(decode_output(&joined), lines);
    assert_eq!(decode_output(""), Vec::<String>::new());
    assert_eq!(encode_output(&vec![]), "");
}

#[test]
fn quit_messages_are_hidden_from_history() {
    assert!(is_hidden_from_history(&ChatMessage::User("  /quit ".to_string())));
    assert!(!is_hidden_from_history(&ChatMessage::User("/quitter".to_string())));
    assert!(is_hidden_from_history(&ChatMessage::Tool { name: "js".into(), detail: "quit".into(), output: vec![] }));
    assert!(!is_hidden_from_history(&ChatMessage::Tool { name: "js".into(), detail: "clear".into(), output: vec![] }));
    assert!(is_hidden_from_history(&ChatMessage::Assistant("💀".to_string())));
    assert!(!is_hidden_from_history(&ChatMessage::Trace("/quit".to_string())));
}

#[test]
fn message_rows_read_back_as_written() {
    let tool = ChatMessage::Tool { name: "js".into(), detail: "build".into(), output: vec!["ok".into(), "+1".into()] };
    let row = message_row(&tool).unwrap();
    assert_eq!(row.kind, "tool");
    assert_eq!(row.tool_output.as_deref(), Some("ok\u{1e}+1"));
    assert!(!row.hidden);
    match message_from_row(&row) {
        Ok(Some(ChatMessage::Tool { name, detail, output })) => {
            assert_eq!(name, "js");
            assert_eq!(detail, "build");
            assert_eq!(output, vec!["ok".to_string(), "+1".to_string()]);
        }
        _ => panic!("tool row did not read back"),
    }

    let user = message_row(&ChatMessage::User("/quit".into())).unwrap();
    assert_eq!(user.kind, "user");
    assert!(user.hidden);
    assert!(matches!(message_from_row(&user), Ok(Some(ChatMessage::User(t))) if t == "/quit"));

    assert!(message_row(&ChatMessage::Trace("live".into())).is_none());
}

#[test]
fn message_rows_with_missing_columns_are_errors() {
    let mut row = message_row(&ChatMessage::Assistant("hi".into())).unwrap();
    row.content = None;
    assert!(matches!(message_from_row(&row), Err(RowError::NullColumn(1))));
    row.kind = "weird".into();
    assert!(matches!(message_from_row(&row), Ok(None)));
    let mut tool = message_row(&ChatMessage::Tool { name: "a".into(), detail: "b".into(), output: vec![] }).unwrap();
    tool.tool_output = None;
    assert!(matches!(message_from_row(&tool), Ok(Some(ChatMessage::Tool { output, .. })) if output.is_empty()));
    tool.tool_detail = None;
    assert!(matches!(message_from_row(&tool), Err(RowError::NullColumn(3))));
    tool.tool_name = None;
    assert!(matches!(message_from_row(&tool), Err(RowError::NullColumn(2))));
}

#[test]
fn scrolling_up_then_down_returns_to_following() {
    let mut scroll = ScrollState::default();
    assert_eq!(scroll, ScrollState::Following);
    scroll_up(&mut scroll, 50, 10);
    assert_eq!(scroll, ScrollState::Pinned(40));
    scroll_up(&mut scroll, 50, 100);
    assert_eq!(scroll, ScrollState::Pinned(0));
    scroll_down(&mut scroll, 50, 20);
    assert_eq!(scroll, ScrollState::Pinned(20));
    scroll_down(&mut scroll, 50, 30);
    assert_eq!(scroll, ScrollState::Following);
    scroll_down(&mut scroll, 50, 30);
    assert_eq!(scroll, ScrollState::Following);
}

#[test]
fn task_status_cycles_both_ways() {
    let mut tasks = vec![task("a", "pending"), task("b", "done")];
    assert!(cycle_task_status(&mut tasks, Some(0), true));
    assert_eq!(tasks[0].status, "running");
    assert!(cycle_task_status(&mut tasks, Some(1), true));
    assert_eq!(tasks[1].status, "pending");
    assert!(cycle_task_status(&mut tasks, Some(1), false));
    assert_eq!(tasks[1].status, "done");
    assert!(!cycle_task_status(&mut tasks, None, true));
    assert!(!cycle_task_status(&mut tasks, Some(5), true));
    let mut odd = vec![task("c", "unknown")];
    assert!(cycle_task_status(&mut odd, Some(0), true));
    assert_eq!(odd[0].status, "running");
}

#[test]
fn diff_lines_are_classified_by_their_first_character() {
    assert_eq!(diff_color("-old"), (DiffLine::Removed, "-old".to_string()));
    assert_eq!(diff_color("+new"), (DiffLine::Added, "+new".to_string()));
    assert_eq!(diff_color(" same"), (DiffLine::Plain, " same".to_string()));
    assert_eq!(diff_color(""), (DiffLine::Plain, "".to_string()));
}

#[test]
fn stored_rows_convert() {
    assert_eq!(stored_kind("user"), Some(StoredKind::User));
    assert_eq!(stored_kind("assistant"), Some(StoredKind::Assistant));
    assert_eq!(stored_kind("tool"), Some(StoredKind::Tool));
    assert_eq!(stored_kind("Tool"), None);
    assert_eq!(overlay_bounds_from_row(1, 2, 3, 4), (1, 2, 3, 4));
    assert_eq!(overlay_bounds_from_row(65536 + 5, -1, 0, 70000), (5, 65535, 0, 4464));
    assert!(show_welcome_from_row(None));
    assert!(!show_welcome_from_row(Some(0)));
    assert!(show_welcome_from_row(Some(2)));
}

#[test]
fn inspect_subpages_have_titles() {
    let all = InspectSubpage::all();
    assert_eq!(all[0].title(), "Session");
    assert_eq!(all[1].title(), "Persistence");
}

use escher_atlas::commands::line_count;
use escher_atlas::palette::{autocomplete_matches, body_height, palette};

fn names_of(commands: &[SlashCommand]) -> Vec<String> {
    commands.iter().map(|c| c.name.clone()).collect()
}

#[test]
fn line_count_matches_str_lines() {
    for text in ["", "a", "a\n", "a\nb", "a\r\nb\r\n", "\n\n", "x\ny\nz"] {
        assert_eq!(line_count(text), text.lines().count(), "{text:?}");
    }
}

#[test]
fn autocomplete_filters_only_while_the_name_is_typed() {
    let commands = builtin_commands();
    assert_eq!(names_of(&autocomplete_matches(&commands, "/sh")), vec!["shape"]);
    assert!(autocomplete_matches(&commands, "/shape ").is_empty());
    assert!(autocomplete_matches(&commands, "shape").is_empty());
    assert_eq!(autocomplete_matches(&commands, "/").len(), 8);
}

#[test]
fn palette_opens_for_typing_or_the_welcome_overview() {
    let commands = builtin_commands();
    let footer = "line one\nline two";

    let typing = palette(&commands, "/b", false, 5, footer);
    assert_eq!(names_of(&typing.matches), vec!["browser"]);
    assert!(typing.interactive);
    assert_eq!(typing.selected_index, 0);
    assert_eq!(typing.bar_height, 1 + 3 + 2);

    let welcome = palette(&commands, "", true, 3, footer);
    assert_eq!(welcome.matches.len(), 8);
    assert!(welcome.interactive);
    assert_eq!(welcome.selected_index, 3);
    assert_eq!(welcome.bar_height, 8 + 3 + 2);

    let composing = palette(&commands, "hello", true, 3, footer);
    assert_eq!(composing.matches.len(), 8);
    assert!(!composing.interactive);
    assert_eq!(composing.selected_index, 0);

    let closed = palette(&commands, "hello", false, 3, footer);
    assert!(closed.matches.is_empty());
    assert_eq!(closed.bar_height, 0);

    assert_eq!(body_height(40, 13), 22);
    assert_eq!(body_height(10, 13), 0);
}

use escher_atlas::palette::highlight_parts;

#[test]
fn only_known_commands_are_highlighted() {
    let commands = builtin_commands();
    assert_eq!(highlight_parts(&commands, "/task  buy milk "), Some(("/task".to_string(), "  buy milk ".to_string())));
    assert_eq!(highlight_parts(&commands, "/shape"), Some(("/shape".to_string(), String::new())));
    assert_eq!(highlight_parts(&commands, "/nope arg"), None);
    assert_eq!(highlight_parts(&commands, "plain text"), None);
}
