use escher_atlas::command_run::{open_page_outcome, router_answer, router_outcome, script_effect, shape_command_outcome, shell_run_messages, PageOutcome};
use escher_atlas::history::ChatMessage;
use escher_atlas::relay_client::{IceQueue, Inbox};
use escher_atlas::shape::{block_color, collect_content_strings, find_node_with_background_color, has_background_color, ShapeNode, StyleEntry};

fn style(kind: &str, color: Option<&str>) -> StyleEntry {
    StyleEntry { kind: Some(kind.to_string()), color: color.map(str::to_string) }
}

fn leaf(styles: Option<Vec<StyleEntry>>, content: Option<&str>) -> ShapeNode {
    ShapeNode { styles, content: content.map(str::to_string), children: vec![] }
}

fn demo_description() -> ShapeNode {
    let boxed = leaf(Some(vec![style("size", None), style("backgroundColor", Some("#7aa2f7"))]), None);
    let caption = leaf(Some(vec![style("size", None)]), Some("Escher demo shape: a box"));
    ShapeNode { styles: Some(vec![style("flexDirection", None)]), content: None, children: vec![boxed, caption] }
}

#[test]
fn finds_the_box_nested_under_children() {
    let description = demo_description();
    assert!(!has_background_color(&description));
    let box_node = find_node_with_background_color(&description).expect("box must be found");
    let styles = box_node.styles.as_ref().expect("box must have styles");
    let has_background_color = styles.iter().any(|style| style.kind.as_deref() == Some("backgroundColor"));
    assert!(has_background_color, "found node isn't actually the box");
    // The caption (the sibling with a size of its own) is not what was found.
    assert!(box_node.content.is_none(), "picked up the caption instead of the box");
    assert!(find_node_with_background_color(&leaf(None, Some("x"))).is_none());
}

#[test]
fn collects_the_caption_text() {
    let description = demo_description();
    let captions = collect_content_strings(&description);
    assert_eq!(captions.len(), 1, "expected exactly one caption, got {captions:?}");
    assert!(captions[0].starts_with("Escher demo shape:"));
}

#[test]
fn collects_every_caption_depth_first() {
    let nested = ShapeNode {
        styles: None,
        content: Some("top".into()),
        children: vec![
            ShapeNode { styles: None, content: Some("a".into()), children: vec![leaf(None, Some("a1"))] },
            leaf(None, Some("b")),
        ],
    };
    assert_eq!(collect_content_strings(&nested), vec!["top", "a", "a1", "b"]);
}

#[test]
fn block_color_comes_from_the_box() {
    assert_eq!(block_color(&demo_description()), (0x7a, 0xa2, 0xf7));
    assert_eq!(block_color(&leaf(None, None)), (122, 162, 247));
    let unparsable = leaf(Some(vec![style("backgroundColor", Some("blue"))]), None);
    assert_eq!(block_color(&unparsable), (122, 162, 247));
    let two = leaf(Some(vec![style("backgroundColor", Some("#010203")), style("backgroundColor", Some("#0a0b0c"))]), None);
    assert_eq!(block_color(&two), (10, 11, 12));
}

#[test]
fn ice_candidates_wait_for_the_remote_description() {
    let mut queue: IceQueue<&str> = IceQueue::new();
    assert_eq!(queue.offer("c1"), None);
    assert_eq!(queue.offer("c2"), None);
    assert_eq!(queue.open(), vec!["c1", "c2"]);
    assert_eq!(queue.offer("c3"), Some("c3"));
    assert!(queue.open().is_empty());
}

#[test]
fn inbox_drains_per_label_in_order() {
    let mut inbox = Inbox::new();
    inbox.push("state", "s1".into());
    inbox.push("events", "e1".into());
    inbox.push("state", "s2".into());
    assert_eq!(inbox.poll("state"), vec!["s1", "s2"]);
    assert!(inbox.poll("state").is_empty());
    assert_eq!(inbox.poll("events"), vec!["e1"]);
    assert!(inbox.poll("never").is_empty());
}

fn texts(messages: &[ChatMessage]) -> Vec<String> {
    messages
        .iter()
        .map(|m| match m {
            ChatMessage::User(t) => format!("user:{t}"),
            ChatMessage::Assistant(t) => format!("assistant:{t}"),
            ChatMessage::Tool { name, detail, output } => format!("tool:{name}:{detail}:{}", output.len()),
            ChatMessage::Trace(t) => format!("trace:{t}"),
        })
        .collect()
}

#[test]
fn shell_runs_are_recorded_with_their_reply() {
    let ok = shell_run_messages("ls".into(), Ok("a\nb".into()));
    assert_eq!(texts(&ok), vec!["user:ls", "tool:shell:ls:0", "assistant:a\nb"]);
    let quiet = shell_run_messages("true".into(), Ok(String::new()));
    assert_eq!(texts(&quiet)[2], "assistant:(command ran, no output)");
    let failed = shell_run_messages("false".into(), Err("boom".into()));
    assert_eq!(texts(&failed)[2], "assistant:Command failed: boom");
}

#[test]
fn script_results_quit_clear_or_reply() {
    let quit = script_effect("quit".into(), Ok(" 💀 ".into()));
    assert!(quit.quit && !quit.clear_transcript);
    assert_eq!(texts(&quit.messages), vec!["tool:js:quit:0", "assistant: 💀 "]);
    let clear = script_effect("clear".into(), Ok("🧹".into()));
    assert!(clear.clear_transcript && !clear.quit && clear.messages.is_empty());
    let silent = script_effect("noop".into(), Ok(String::new()));
    assert!(!silent.quit && !silent.clear_transcript && silent.messages.is_empty());
    let failed = script_effect("build".into(), Err("exit 1".into()));
    assert_eq!(texts(&failed.messages), vec!["tool:js:build:0", "assistant:Script failed: exit 1"]);
}

#[test]
fn router_suggestions_fill_an_empty_input() {
    let (note, fill) = router_outcome("gti status", Some("/git status".into()), None, true);
    assert_eq!(fill.as_deref(), Some("/git status"));
    match note {
        Some(ChatMessage::Assistant(text)) => {
            assert_eq!(text, "(background check) found a possible match for \"gti status\": `/git status`")
        }
        _ => panic!("a suggestion must be noted"),
    }
    let (_, fill) = router_outcome("x", Some("/y".into()), None, false);
    assert!(fill.is_none());
    let (note, fill) = router_outcome("hi", None, Some("Hello!".into()), true);
    assert!(matches!(note, Some(ChatMessage::Assistant(t)) if t == "Hello!"));
    assert!(fill.is_none());
    let (note, fill) = router_outcome("zzz", None, None, true);
    assert!(note.is_none() && fill.is_none());
}

#[test]
fn shape_and_page_outcomes() {
    let (messages, open) = shape_command_outcome(Ok("http://127.0.0.1:4001/shape.html".into()));
    assert_eq!(open.as_deref(), Some("http://127.0.0.1:4001/shape.html"));
    assert_eq!(
        texts(&messages),
        vec![
            "tool:shape:shape:0".to_string(),
            "assistant:Shape rendered above — opening a tab to http://127.0.0.1:4001/shape.html, and wrote Shape.uxml/Shape.uss into Aby's Unity project (Assets/UI/Generated/).".to_string(),
        ]
    );
    let (messages, open) = shape_command_outcome(Err("no deno".into()));
    assert!(open.is_none());
    assert_eq!(texts(&messages)[1], "assistant:Shape command failed: no deno");

    assert!(matches!(open_page_outcome("http://x".into(), Ok(String::new())), PageOutcome::Open(u) if u == "http://x"));
    assert!(matches!(open_page_outcome("http://x".into(), Ok("timed out".into())), PageOutcome::Notify(t) if t == "timed out"));
    assert!(matches!(open_page_outcome("http://x".into(), Err("boom".into())), PageOutcome::Notify(t) if t == "Failed to open http://x: boom"));
}

#[test]
fn router_answer_reads_the_last_output_line() {
    let out = "thinking...\n{\"replace\":\"ls -la\",\"reply\":\"listing\"}\n";
    assert_eq!(router_answer(true, out), (Some("ls -la".to_string()), Some("listing".to_string())));
    assert_eq!(router_answer(true, "{\"reply\":\"no command\",\"replace\":null}"), (None, Some("no command".to_string())));
    assert_eq!(router_answer(true, "not json"), (None, None));
    assert_eq!(router_answer(true, "{\"replace\":3}"), (None, None));
    assert_eq!(router_answer(true, ""), (None, None));
    assert_eq!(router_answer(false, "{\"replace\":\"ls\"}"), (None, None));
}
