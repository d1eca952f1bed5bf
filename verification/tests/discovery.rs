use std::path::PathBuf;

use escher_atlas::commands::{command_from_script, dir_visit, is_command_script, sort_by_name, DirVisit, SlashCommand};

#[test]
fn a_script_declares_its_own_metadata() {
    let source = "export const command = \"greet\";\nexport const description = 'Say hello';\nexport const argsHint = \"<name>\";\nexport function run() {}\n";
    let c = command_from_script(source, "hello", "tools/commands/hello.js", PathBuf::from("/w/tools/commands/hello.js"));
    assert_eq!(c.name, "greet");
    assert_eq!(c.description, "Say hello");
    assert_eq!(c.args_hint, "<name>");
    assert_eq!(c.script, Some(PathBuf::from("/w/tools/commands/hello.js")));
}

#[test]
fn missing_metadata_falls_back_to_the_file() {
    let c = command_from_script("export function run() {}\n", "deploy", "commands/deploy.js", PathBuf::from("commands/deploy.js"));
    assert_eq!(c.name, "deploy");
    assert_eq!(c.description, "Run deploy (commands/deploy.js)");
    assert_eq!(c.args_hint, "<args>");
}

#[test]
fn a_null_args_hint_and_the_no_args_defaults() {
    let explicit = command_from_script("export const argsHint = null;", "status", "commands/status.js", PathBuf::from("s.js"));
    assert_eq!(explicit.args_hint, "");
    let clear = command_from_script("", "clear", "commands/clear.js", PathBuf::from("clear.js"));
    assert_eq!(clear.args_hint, "");
    let quit = command_from_script("export const command = \"quit\";", "q", "commands/q.js", PathBuf::from("q.js"));
    assert_eq!(quit.name, "quit");
    assert_eq!(quit.args_hint, "");
    // A declared null name or description counts as not declared.
    let nulls = command_from_script("export const command = null;\nexport const description = null;", "x", "c/x.js", PathBuf::from("x.js"));
    assert_eq!(nulls.name, "x");
    assert_eq!(nulls.description, "Run x (c/x.js)");
}

#[test]
fn the_search_skips_hidden_and_build_directories() {
    assert_eq!(dir_visit(".git"), DirVisit::Skip);
    assert_eq!(dir_visit("node_modules"), DirVisit::Skip);
    assert_eq!(dir_visit("target"), DirVisit::Skip);
    assert_eq!(dir_visit("commands"), DirVisit::Commands);
    assert_eq!(dir_visit("src"), DirVisit::Descend);
    assert_eq!(dir_visit(""), DirVisit::Descend);
    assert!(is_command_script(Some("js")));
    assert!(!is_command_script(Some("ts")));
    assert!(!is_command_script(Some("JS")));
    assert!(!is_command_script(None));
}

#[test]
fn commands_sort_by_name_keeping_ties_in_order() {
    let list = vec![
        SlashCommand::new("zeta", None, "z", None),
        SlashCommand::new("alpha", None, "first alpha", None),
        SlashCommand::new("Beta", None, "capital", None),
        SlashCommand::new("alpha", None, "second alpha", None),
        SlashCommand::new("alph", None, "prefix", None),
    ];
    let sorted = sort_by_name(list);
    let seen: Vec<(&str, &str)> = sorted.iter().map(|c| (c.name.as_str(), c.description.as_str())).collect();
    assert_eq!(
        seen,
        vec![("Beta", "capital"), ("alph", "prefix"), ("alpha", "first alpha"), ("alpha", "second alpha"), ("zeta", "z")]
    );
    assert!(sort_by_name(Vec::new()).is_empty());
}

use escher_atlas::navigation::{anvil_page, settings_page, AnvilPage, BODY_KIND, SETTINGS_BODY, SETTINGS_TITLE, TITLE_KIND};

#[test]
fn anvil_addresses_name_their_page() {
    assert_eq!(anvil_page("anvil://settings"), Some(AnvilPage::Settings));
    assert_eq!(anvil_page("anvil://settings///"), Some(AnvilPage::Settings));
    assert_eq!(anvil_page("settings/"), Some(AnvilPage::Settings));
    assert_eq!(anvil_page("anvil://other"), None);
    assert_eq!(anvil_page("anvil://settings/x"), None);
    assert_eq!(anvil_page("https://settings"), None);
}

#[test]
fn the_settings_page_has_a_heading_and_a_text() {
    let page = settings_page();
    assert_eq!(page.get_slots().len(), 2);
    assert_eq!(page.get_slot_at(TITLE_KIND, 0).unwrap().get_content(), Some(SETTINGS_TITLE));
    assert_eq!(page.get_slot_at(BODY_KIND, 0).unwrap().get_content(), Some(SETTINGS_BODY));
}
