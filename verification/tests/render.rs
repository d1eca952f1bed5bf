use owo_colors::OwoColorize;

use escher_atlas::anvil::InspectSubpage;
use escher_atlas::commands::SlashCommand;
use escher_atlas::history::TaskRow;
use escher_atlas::render::{
    autocomplete_bar_text, command_rows_text, inspect_body_text, spinner_frame, task_detail_text, tasks_overlay_text,
    theme_from, welcome_overview_text, Theme,
};
use escher_atlas::styleguide::ColorTable;

fn theme() -> Theme {
    Theme {
        accent: (97, 175, 239),
        accent_warn: (204, 154, 77),
        success: (106, 153, 85),
        danger: (217, 83, 79),
        muted: (138, 138, 138),
        background: (32, 32, 32),
    }
}

fn fg(text: &str, c: (u8, u8, u8)) -> String {
    format!("{}", text.truecolor(c.0, c.1, c.2))
}

#[test]
fn colors_are_the_24_bit_escapes() {
    let t = theme();
    let rows = command_rows_text(&[SlashCommand::new("ab", None, "d", None)], None, &t);
    assert_eq!(rows[0], format!("  \u{1b}[38;2;97;175;239m/ab\u{1b}[39m  \u{1b}[38;2;204;154;77m\u{1b}[39m  \u{1b}[38;2;138;138;138md\u{1b}[39m"));
}

#[test]
fn command_rows_line_up_in_three_columns() {
    let t = theme();
    let commands = vec![
        SlashCommand::new("greet", Some("<name>"), "Say hello", None),
        SlashCommand::new("quit", None, "Leave", None),
    ];
    let rows = command_rows_text(&commands, Some(1), &t);
    assert_eq!(rows.len(), 2);
    let first = format!(
        "  {}{}{}{}{}",
        fg("/greet", t.accent),
        "  ",
        fg("<name>", t.accent_warn),
        "  ",
        fg("Say hello", t.muted)
    );
    assert_eq!(rows[0], first);
    let second = format!(
        "{}{}{}{}{}{}",
        fg("\u{25b8} ", t.accent),
        format!("{}", "/quit".truecolor(97, 175, 239).bold()),
        "   ",
        fg("", t.accent_warn),
        "        ",
        fg("Leave", t.muted)
    );
    assert_eq!(rows[1], second);
}

#[test]
fn the_palette_bar_adds_its_hints_and_footer() {
    let t = theme();
    let commands = vec![SlashCommand::new("quit", None, "Leave", None)];
    let with_pick = autocomplete_bar_text(&commands, Some(0), "one\r\ntwo", &t);
    let rows = command_rows_text(&commands, Some(0), &t);
    let expected = [
        rows[0].clone(),
        String::new(),
        fg("\u{2191}\u{2193} navigate \u{b7} Tab/Enter accept", t.muted),
        fg("one", t.muted),
        fg("two", t.muted),
    ]
    .join("\n");
    assert_eq!(with_pick, expected);
    let idle = autocomplete_bar_text(&commands, None, "", &t);
    assert_eq!(idle, format!("{}\n", command_rows_text(&commands, None, &t)[0]));
}

#[test]
fn the_tasks_overlay_shows_each_status_and_the_pick() {
    let t = theme();
    let tasks = vec![
        TaskRow { label: "write".into(), status: "done".into() },
        TaskRow { label: "test".into(), status: "running".into() },
        TaskRow { label: "ship".into(), status: "pending".into() },
    ];
    // 1000 ms in: spinner frame 12 % 10 = 2, dots (1000 / 400) % 4 = 2.
    assert_eq!(spinner_frame(1000), "\u{2839}");
    let text = tasks_overlay_text(&tasks, Some(2), 1000, &t);
    let expected = [
        format!("{}", "Tasks".truecolor(97, 175, 239).bold()),
        format!("  {} write", fg("\u{2713}", t.success)),
        format!("  {} test{}", fg("\u{2839}", t.accent), fg("..", t.accent)),
        format!("{} {}", fg("\u{25b8}", t.accent), fg("\u{25cb} ship", t.muted)),
        fg("/task <label>", t.muted),
        fg("\u{2191}\u{2193} select \u{b7} \u{2190}/\u{2192} status", t.muted),
    ]
    .join("\n");
    assert_eq!(text, expected);
}

#[test]
fn a_task_page_names_its_status() {
    let t = theme();
    let page = task_detail_text(&TaskRow { label: "ship".into(), status: "running".into() }, &t);
    let expected = format!(
        "{}\n\n{} {}\n\n{}\n\n{}",
        "ship".truecolor(97, 175, 239).bold(),
        fg("Status:", t.muted),
        format!("{}", "Running".truecolor(97, 175, 239).bold()),
        fg("No linked activity yet \u{2014} nothing in this app connects a task back to specific messages or tool calls yet.", t.muted),
        fg("\u{2190}/\u{2192} change status \u{b7} Esc back", t.muted),
    );
    assert_eq!(page, expected);
    let odd = task_detail_text(&TaskRow { label: "x".into(), status: "weird".into() }, &t);
    assert!(odd.contains(&format!("{}", "Pending".truecolor(138, 138, 138).bold())));
}

#[test]
fn the_welcome_overview_lists_what_it_can_do() {
    let t = theme();
    let text = welcome_overview_text("Forge things.", &t);
    let lines: Vec<&str> = text.split('\n').collect();
    assert_eq!(lines.len(), 11);
    assert_eq!(lines[0], format!("{}", "Welcome to Anvil".truecolor(97, 175, 239).bold()));
    assert_eq!(lines[2], "Forge things.");
    assert_eq!(lines[4], fg("What it can do:", t.muted));
    assert_eq!(lines[5], "  - Run ordinary shell commands directly, no prefix needed.");
}

#[test]
fn the_inspect_page_marks_the_shown_subpage() {
    let t = theme();
    let text = inspect_body_text(InspectSubpage::Persistence, "connected: true", &t);
    let expected = format!(
        "{}   {}\n\nconnected: true\n\n{}",
        fg("Session", t.muted),
        format!("{}", "[Persistence]".truecolor(97, 175, 239).bold()),
        fg("\u{2190}/\u{2192} switch subpage", t.muted)
    );
    assert_eq!(text, expected);
}

#[test]
fn the_theme_reads_the_styleguide_tokens() {
    let table = match ColorTable::from_hex_entries(&vec![("accent".to_string(), "#7aa2f7".to_string())]) {
        Ok(table) => table,
        Err(_) => panic!("the entry is a color"),
    };
    let t = theme_from(&table);
    assert_eq!(t.accent, (0x7a, 0xa2, 0xf7));
    assert_eq!(t.muted, (138, 138, 138));
    assert_eq!(t.background, (32, 32, 32));
}

use escher_atlas::render::highlight_slash_command;

#[test]
fn a_known_command_is_highlighted_as_typed() {
    let t = theme();
    let commands = vec![SlashCommand::new("task", Some("<label>"), "Add a task", None)];
    assert_eq!(
        highlight_slash_command(&commands, "/task  write ", &t),
        format!("{}{}", "/task".truecolor(97, 175, 239).bold(), fg("  write ", t.accent_warn))
    );
    assert_eq!(highlight_slash_command(&commands, "/task", &t), format!("{}", "/task".truecolor(97, 175, 239).bold()));
    assert_eq!(highlight_slash_command(&commands, "/tas", &t), "/tas");
    assert_eq!(highlight_slash_command(&commands, "hello", &t), "hello");
}

use escher_atlas::render::tasks_overlay_height;

#[test]
fn the_overlay_box_is_two_rows_taller_than_its_text() {
    let t = theme();
    let tasks = vec![
        TaskRow { label: "a".into(), status: "pending".into() },
        TaskRow { label: "b".into(), status: "done".into() },
    ];
    let lines = tasks_overlay_text(&tasks, None, 0, &t).split('\n').count();
    assert_eq!(lines, 5);
    assert_eq!(tasks_overlay_height(2), 7);
    assert_eq!(tasks_overlay_height(2) as usize, lines + 2);
}
