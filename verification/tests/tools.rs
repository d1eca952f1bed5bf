use escher_atlas::chalk::{refresh_button_face, TabInfo};
use escher_atlas::command_run::{choose_shell, command_result, shell_poll_decision, ShellDecision, ShellPoll};
use escher_atlas::config::{init_config, ResolveAction, ResolveEvent, ResolveOutcome, ResolvePhase, ServiceResolution, DEFAULT_SQLD_URL};
use escher_atlas::extensions::{extension_snippet, style_snippet, STYLE_SNIPPET_HEAD};
use escher_atlas::log_stream::{format_entry, level_tag, EventFieldVisitor, Level, LogStream, SpanTable};
use escher_atlas::styleguide::{frontmatter, parse_hex, ColorTable, StyleguideError};

#[test]
fn log_stream_keeps_the_latest_lines() {
    let mut stream = LogStream::with_capacity(3);
    for i in 0..5 {
        stream.push_entry(format!("line {i}"));
    }
    let kept: Vec<&String> = stream.entries().iter().collect();
    assert_eq!(kept, vec!["line 2", "line 3", "line 4"]);
    assert_eq!(stream.sample_end(2, 80), "line 3\nline 4");
    assert_eq!(stream.sample_end(10, 80), "line 2\nline 3\nline 4");
    assert_eq!(stream.sample_end(0, 80), "");
}

#[test]
fn log_stream_with_no_capacity_keeps_one_line() {
    let mut stream = LogStream::with_capacity(0);
    stream.push_entry("a".to_string());
    stream.push_entry("b".to_string());
    assert_eq!(stream.sample_end(5, 5), "b");
}

#[test]
fn log_lines_carry_level_target_and_fields() {
    assert_eq!(level_tag(Level::Error), "ERR");
    assert_eq!(level_tag(Level::Warn), "WRN");
    assert_eq!(level_tag(Level::Info), "INF");
    assert_eq!(level_tag(Level::Debug), "DBG");
    assert_eq!(level_tag(Level::Trace), "TRC");
    let mut visitor = EventFieldVisitor::new();
    visitor.record_debug("message", "\"started\"");
    visitor.record_debug("port", "8080");
    assert_eq!(visitor.message, "\"started\" port: 8080");
    assert_eq!(format_entry(Level::Info, "atlas::relay", &visitor.message), "INF atlas::relay \"started\" port: 8080");
}

#[test]
fn spans_close_on_their_last_handle() {
    let mut spans = SpanTable::new();
    spans.open(7);
    assert_eq!(spans.ref_count(7), Some(1));
    assert_eq!(spans.clone_span(7), 7);
    assert_eq!(spans.ref_count(7), Some(2));
    assert!(!spans.try_close(7));
    assert_eq!(spans.ref_count(7), Some(1));
    assert!(spans.try_close(7));
    assert_eq!(spans.ref_count(7), None);
    assert!(!spans.try_close(7));
    assert_eq!(spans.clone_span(9), 9);
    assert_eq!(spans.ref_count(9), None);
}

#[test]
fn rejects_missing_frontmatter() {
    assert!(matches!(frontmatter("# just markdown"), Err(StyleguideError::MissingFrontmatter)));
}

#[test]
fn frontmatter_is_the_block_between_fences() {
    let doc = "---\ncolors:\n  accent: \"#7aa2f7\"\ndimensions:\n  radius: 6\ntext:\n  body: 13\n---\n# Body\n";
    assert_eq!(frontmatter(doc).ok(), Some("colors:\n  accent: \"#7aa2f7\"\ndimensions:\n  radius: 6\ntext:\n  body: 13"));
    assert_eq!(frontmatter("---\r\na: 1\n---").ok(), Some("a: 1"));
    assert_eq!(frontmatter("---a: 1\n---").ok(), Some("a: 1"));
    assert!(matches!(frontmatter("---\na: 1\n"), Err(StyleguideError::MissingFrontmatter)));
    assert!(matches!(frontmatter("--"), Err(StyleguideError::MissingFrontmatter)));
}

#[test]
fn styleguide_colors_parse_with_one_optional_hash() {
    assert_eq!(parse_hex("#7aa2f7"), Some((122, 162, 247)));
    assert_eq!(parse_hex("7aa2f7"), Some((122, 162, 247)));
    assert_eq!(parse_hex("##7aa2f7"), None);
    assert_eq!(parse_hex("#7aa2f"), None);
}

#[test]
fn styleguide_colors_take_hex_digits_only() {
    assert_eq!(parse_hex("+a+b+c"), None);
    assert_eq!(parse_hex("#+a+b+c"), None);
    assert_eq!(parse_hex("#ABCDEF"), Some((0xab, 0xcd, 0xef)));
    assert_eq!(parse_hex("#ééé"), None);
    assert_eq!(parse_hex("éééééé"), None);
    let signed = vec![("accent".to_string(), "+a+b+c".to_string())];
    match ColorTable::from_hex_entries(&signed) {
        Err(StyleguideError::InvalidColor(hex)) => assert_eq!(hex, "+a+b+c"),
        _ => panic!("a signed pair is not a color"),
    }
}

#[test]
fn color_table_reads_back_and_reports_the_bad_entry() {
    let raw = vec![("accent".to_string(), "#7aa2f7".to_string()), ("text".to_string(), "e2e2e2".to_string())];
    let table = match ColorTable::from_hex_entries(&raw) {
        Ok(table) => table,
        Err(_) => panic!("valid colors must build"),
    };
    assert_eq!(table.color("accent"), Some((122, 162, 247)));
    assert_eq!(table.color("text"), Some((0xe2, 0xe2, 0xe2)));
    assert_eq!(table.color("missing"), None);

    let bad = vec![("ok".to_string(), "#000000".to_string()), ("bad".to_string(), "blue".to_string())];
    match ColorTable::from_hex_entries(&bad) {
        Err(StyleguideError::InvalidColor(hex)) => assert_eq!(hex, "blue"),
        _ => panic!("an invalid color must be reported"),
    }
}

#[test]
fn styleguide_errors_read_as_messages() {
    assert_eq!(
        StyleguideError::MissingFrontmatter.message(),
        "no YAML frontmatter found (expected a leading `---` block)"
    );
    assert_eq!(StyleguideError::InvalidColor("blue".into()).message(), "invalid color \"blue\": expected `#rrggbb`");
    let yaml_error = serde_yaml::from_str::<u32>("[").unwrap_err();
    assert!(StyleguideError::Yaml(yaml_error).message().starts_with("invalid frontmatter YAML: "));
}

fn run_to_end(mut resolution: ServiceResolution, answers: &[ResolveEvent]) -> (Vec<ResolveAction>, ResolvePhase) {
    let mut actions = vec![resolution.step(ResolveEvent::Begin)];
    for event in answers {
        actions.push(resolution.step(*event));
    }
    (actions, resolution.phase)
}

#[test]
fn explicit_service_address_is_trusted_without_probing() {
    let resolution = ServiceResolution::new(DEFAULT_SQLD_URL.to_string(), Some("http://teammate:5100".into()));
    assert_eq!(resolution.resolved_url(), "http://teammate:5100");
    let (actions, phase) = run_to_end(resolution, &[]);
    assert_eq!(actions, vec![ResolveAction::Finish(ResolveOutcome::GivenExplicitly)]);
    assert_eq!(phase, ResolvePhase::Finished);
}

#[test]
fn running_service_is_used_after_one_probe() {
    let resolution = ServiceResolution::new(DEFAULT_SQLD_URL.to_string(), None);
    assert_eq!(resolution.resolved_url(), "http://localhost:5100");
    let (actions, _) = run_to_end(resolution, &[ResolveEvent::Probed(true)]);
    assert_eq!(actions, vec![ResolveAction::Probe, ResolveAction::Finish(ResolveOutcome::AlreadyRunning)]);
}

#[test]
fn missing_service_is_started_and_waited_for() {
    let resolution = ServiceResolution::new(DEFAULT_SQLD_URL.to_string(), None);
    let (actions, _) = run_to_end(
        resolution,
        &[
            ResolveEvent::Probed(false),
            ResolveEvent::ComposeLocated(true),
            ResolveEvent::ComposeExited(true),
            ResolveEvent::Probed(false),
            ResolveEvent::Slept,
            ResolveEvent::Probed(true),
        ],
    );
    assert_eq!(
        actions,
        vec![
            ResolveAction::Probe,
            ResolveAction::LocateCompose,
            ResolveAction::RunCompose,
            ResolveAction::Probe,
            ResolveAction::Sleep,
            ResolveAction::Probe,
            ResolveAction::Finish(ResolveOutcome::CameUp),
        ]
    );
}

#[test]
fn a_started_service_is_probed_ten_times_at_most() {
    let mut resolution = ServiceResolution::new(DEFAULT_SQLD_URL.to_string(), None);
    resolution.step(ResolveEvent::Begin);
    resolution.step(ResolveEvent::Probed(false));
    resolution.step(ResolveEvent::ComposeLocated(true));
    let mut probes = 0;
    let mut action = resolution.step(ResolveEvent::ComposeExited(true));
    loop {
        match action {
            ResolveAction::Probe => {
                probes += 1;
                action = resolution.step(ResolveEvent::Probed(false));
            }
            ResolveAction::Sleep => action = resolution.step(ResolveEvent::Slept),
            ResolveAction::Finish(outcome) => {
                assert_eq!(outcome, ResolveOutcome::NeverAnswered);
                break;
            }
            other => panic!("unexpected {other:?}"),
        }
    }
    assert_eq!(probes, 10);
}

#[test]
fn no_compose_file_or_failed_compose_ends_resolving() {
    let (actions, _) = run_to_end(
        ServiceResolution::new("http://localhost:11434".into(), None),
        &[ResolveEvent::Probed(false), ResolveEvent::ComposeLocated(false)],
    );
    assert_eq!(actions.last(), Some(&ResolveAction::Finish(ResolveOutcome::NoComposeFile)));
    let (actions, _) = run_to_end(
        ServiceResolution::new("http://localhost:11434".into(), None),
        &[ResolveEvent::Probed(false), ResolveEvent::ComposeLocated(true), ResolveEvent::ComposeExited(false)],
    );
    assert_eq!(actions.last(), Some(&ResolveAction::Finish(ResolveOutcome::ComposeFailed)));
    let mut done = ServiceResolution::new("x".into(), Some("y".into()));
    done.step(ResolveEvent::Begin);
    assert_eq!(done.step(ResolveEvent::Probed(true)), ResolveAction::Ignore);
}

#[test]
fn init_writes_both_service_addresses() {
    let config = init_config("http://a".into(), "http://b".into());
    assert_eq!(config.sqld.map(|s| s.url), Some("http://a".to_string()));
    assert_eq!(config.ollama.map(|s| s.url), Some("http://b".to_string()));
    assert!(config.window.is_none() && config.welcome.is_none() && config.extensions.is_none());
}

#[test]
fn shell_choice_prefers_the_anvil_setting() {
    assert_eq!(choose_shell(Some("/bin/zsh".into()), Some("/bin/bash".into())), "/bin/zsh");
    assert_eq!(choose_shell(None, Some("/bin/bash".into())), "/bin/bash");
    assert_eq!(choose_shell(None, None), "/bin/sh");
}

#[test]
fn shell_exit_127_means_not_a_command() {
    assert_eq!(shell_poll_decision(ShellPoll::Exited(Some(127)), false), ShellDecision::Rejected);
    assert_eq!(shell_poll_decision(ShellPoll::Exited(Some(1)), false), ShellDecision::Stream);
    assert_eq!(shell_poll_decision(ShellPoll::Exited(None), false), ShellDecision::Stream);
    assert_eq!(shell_poll_decision(ShellPoll::Running, false), ShellDecision::PollAgain);
    assert_eq!(shell_poll_decision(ShellPoll::Running, true), ShellDecision::Stream);
    assert_eq!(shell_poll_decision(ShellPoll::Failed, true), ShellDecision::Fail);
}

#[test]
fn finished_commands_report_stdout_or_stderr() {
    let out = vec!["  built".to_string(), "done  ".to_string()];
    let err = vec!["  warning".to_string(), "error: boom  ".to_string()];
    assert_eq!(command_result(true, &out, &err), Ok("  built\ndone".to_string()));
    assert_eq!(command_result(false, &out, &err), Err("warning\nerror: boom".to_string()));
    assert_eq!(command_result(true, &vec![], &vec![]), Ok(String::new()));
}

#[test]
fn extension_files_become_one_script() {
    assert_eq!(extension_snippet("js", "console.log(1)"), Some("console.log(1)\n".to_string()));
    assert_eq!(extension_snippet("txt", "ignored"), None);
    let css = extension_snippet("css", "body { color: red }").unwrap();
    assert_eq!(css, style_snippet("\"body { color: red }\""));
    assert!(css.starts_with(STYLE_SNIPPET_HEAD));
    let tricky = extension_snippet("css", "a::after { content: \"</script>\" }").unwrap();
    assert!(tricky.contains("\"a::after { content: \\\"</script>\\\" }\""));
    let escaped = extension_snippet("css", "a\\b\tc\nd\re\u{8}\u{c}\u{1}\u{1f}é").unwrap();
    assert_eq!(escaped, style_snippet("\"a\\\\b\\tc\\nd\\re\\b\\f\\u0001\\u001fé\""));
    assert_eq!(
        style_snippet("\"\""),
        "(() => { const style = document.createElement('style'); style.textContent = \"\"; (document.head ?? document.documentElement).appendChild(style); })();\n"
    );
}

#[test]
fn toolbar_refresh_face_tracks_loading() {
    assert_eq!(refresh_button_face(true), ("\u{25D0}", None));
    assert_eq!(refresh_button_face(false), ("\u{21BB}", Some("refresh-cw")));
    let info = TabInfo { id: 1, title: "t".into(), host: "h".into() };
    assert_eq!(info.clone().id, 1);
}

use escher_atlas::anvil::{FrameTimes, OverlayBounds, OverlaySync};
use escher_atlas::config::{sqld_target_display, startup_settings, AnvilConfig, ServiceConfig, WelcomeConfig, WindowConfig};

#[test]
fn command_line_wins_over_the_project_config() {
    let config = Some(AnvilConfig {
        sqld: Some(ServiceConfig { url: "http://config:5100".into() }),
        ollama: Some(ServiceConfig { url: "http://ollama:11434".into() }),
        window: Some(WindowConfig { always_on_top: false }),
        welcome: Some(WelcomeConfig { tagline: Some("Hi".into()), footer: None }),
        extensions: None,
    });
    let s = startup_settings(&config, true, Some("http://flag".into()), Some("http://env".into()));
    assert!(s.always_on_top);
    assert_eq!(s.sqld_url.as_deref(), Some("http://flag"));
    assert_eq!(s.ollama_url.as_deref(), Some("http://ollama:11434"));
    assert_eq!(s.welcome_tagline, "Hi");
    assert!(s.welcome_footer.starts_with("Esc backs out"));
    let s = startup_settings(&config, false, None, Some("http://env".into()));
    assert_eq!(s.sqld_url.as_deref(), Some("http://env"));
    assert!(!s.always_on_top);
    let s = startup_settings(&config, false, None, None);
    assert_eq!(s.sqld_url.as_deref(), Some("http://config:5100"));
    let s = startup_settings(&None, false, None, None);
    assert_eq!(s.sqld_url, None);
    assert_eq!(s.welcome_tagline, "A TUI swiss-army-knife for people building Escher apps.");
    assert_eq!(sqld_target_display(&None), "http://localhost:8081 (default)");
    assert_eq!(sqld_target_display(&Some("http://x".into())), "http://x");
}

#[test]
fn overlay_position_is_saved_once_settled() {
    let a = OverlayBounds { x: 1, y: 2, width: 30, height: 10 };
    let b = OverlayBounds { x: 5, y: 2, width: 30, height: 10 };
    let mut sync = OverlaySync::new();
    assert_eq!(sync.step(None, 0, 400, true), None);
    assert_eq!(sync.step(Some(a), 100, 400, true), None, "just moved");
    assert_eq!(sync.step(Some(a), 300, 400, true), None, "not settled yet");
    assert_eq!(sync.step(Some(a), 500, 400, false), None, "no writer yet");
    assert_eq!(sync.step(Some(a), 500, 400, true), Some(a));
    assert_eq!(sync.step(Some(a), 900, 400, true), None, "already saved");
    assert_eq!(sync.step(Some(b), 1000, 400, true), None);
    assert_eq!(sync.step(Some(b), 1400, 400, true), Some(b));
    sync.save_failed(a);
    assert_eq!(sync.persisted, Some(b));
    sync.save_failed(b);
    assert_eq!(sync.persisted, None);
    assert_eq!(sync.step(Some(b), 1500, 400, true), Some(b), "a failed save is retried");
}

#[test]
fn frames_per_second_counts_the_last_second() {
    let mut frames = FrameTimes::new();
    assert_eq!(frames.record(0), 1);
    assert_eq!(frames.record(500), 2);
    assert_eq!(frames.record(1000), 3);
    assert_eq!(frames.record(1001), 3);
    assert_eq!(frames.record(3000), 1);
}
