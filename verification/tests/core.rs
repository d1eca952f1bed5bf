use escher_atlas::collections::OrderedMap;
use escher_atlas::content::{checked_display_width, display_width, Content, LineCounter};
use escher_atlas::element::{Button, Input, Text};
use escher_atlas::navigation::{authority, host_of};
use escher_atlas::templates::{cargo_toml, spec_readme};

#[test]
fn ordered_map_keeps_first_insertion_order() {
    let mut map: OrderedMap<&str> = OrderedMap::new();
    assert!(map.is_empty());
    assert_eq!(map.insert(30, "c"), None);
    assert_eq!(map.insert(10, "a"), None);
    assert_eq!(map.insert(20, "b"), None);
    assert_eq!(map.keys(), vec![30, 10, 20]);
    assert_eq!(map.insert(10, "A"), Some("a"));
    assert_eq!(map.keys(), vec![30, 10, 20]);
    assert_eq!(map.get(10), Some(&"A"));
    assert_eq!(map.len(), 3);
    let values: Vec<&str> = map.values().into_iter().copied().collect();
    assert_eq!(values, vec!["c", "A", "b"]);
}

#[test]
fn ordered_map_remove_keeps_the_rest_in_order() {
    let mut map: OrderedMap<u32> = OrderedMap::default();
    for k in 0..5u64 {
        map.insert(k, (k * 10) as u32);
    }
    assert_eq!(map.remove(2), Some(20));
    assert_eq!(map.remove(2), None);
    assert_eq!(map.get(2), None);
    assert_eq!(map.keys(), vec![0, 1, 3, 4]);
    assert_eq!(map.get(3), Some(&30));
    assert_eq!(map.iter(), &[(0, 0), (1, 10), (3, 30), (4, 40)]);
    map.insert(2, 99);
    assert_eq!(map.keys(), vec![0, 1, 3, 4, 2]);
}

#[test]
fn ordered_map_insert_then_remove_restores() {
    let mut map: OrderedMap<u8> = OrderedMap::new();
    map.insert(7, 1);
    map.insert(8, 2);
    map.insert(9, 3);
    map.remove(9);
    assert_eq!(map.iter(), &[(7, 1), (8, 2)]);
}

#[test]
fn display_width_counts_columns_and_skips_escapes() {
    assert_eq!(display_width("hello"), 5);
    assert_eq!(display_width("\u{1b}[31mred\u{1b}[0m"), 3);
    assert_eq!(display_width("日本"), 4);
    assert_eq!(display_width(""), 0);
    assert_eq!(display_width("a\tb"), 2);
}

#[test]
fn line_counter_counts_hard_and_soft_breaks() {
    let empty = LineCounter::new(10);
    assert_eq!(empty.count(), 0);

    let mut counter = LineCounter::new(10);
    counter.write_str("hello");
    assert_eq!(counter.count(), 1);
    counter.write_str("\nworld");
    assert_eq!(counter.count(), 2);

    let mut wrapped = LineCounter::new(4);
    wrapped.write_str("abcdefghij");
    assert_eq!(wrapped.count(), 3);

    let mut exact = LineCounter::new(5);
    exact.write_str("abcde");
    assert_eq!(exact.count(), 1);

    let mut newline_only = LineCounter::new(0);
    newline_only.write_str("a very long line with no wrapping at all\n");
    assert_eq!(newline_only.count(), 1);
}

#[test]
fn line_counter_wraps_and_breaks_rows() {
    let mut c = LineCounter::new(5);
    c.write_str("abcdefghijk");
    assert_eq!(c.count(), 3);
    let mut d = LineCounter::new(5);
    d.write_str("hello\nab");
    assert_eq!(d.count(), 2);
    let mut e = LineCounter::new(0);
    e.write_str("ab\ncd");
    assert_eq!(e.count(), 2);
    let mut f = LineCounter::new(0);
    f.write_str("");
    assert_eq!(f.count(), 0);
    assert_eq!(display_width("\u{1b}[1;31mred\u{1b}[0m"), 3);
    assert_eq!(display_width("中a"), 3);
}

#[test]
fn checked_counting_matches_the_plain_calls() {
    assert_eq!(checked_display_width("hello"), Some(5));
    assert_eq!(checked_display_width("\u{1b}[31mred\u{1b}[0m"), Some(3));
    let mut c = LineCounter::new(4);
    assert!(c.write_str_checked("abcdefghij"));
    assert_eq!(c.checked_count(), Some(3));
    let fresh = LineCounter::new(4);
    assert_eq!(fresh.checked_count(), Some(0));
}

#[test]
fn line_counter_in_pieces_matches_at_once() {
    let mut whole = LineCounter::new(6);
    whole.write_str("one two\nthree four five");
    let mut pieces = LineCounter::new(6);
    pieces.write_str("one ");
    pieces.write_str("two\nthree ");
    pieces.write_str("four five");
    assert_eq!(whole.count(), pieces.count());
}

#[test]
fn content_writes_its_text() {
    let owned = String::from("abc");
    assert_eq!(Content::fmt(&owned), "abc");
    assert_eq!(Content::fmt(&"xyz"), "xyz");
}

#[test]
fn element_builders_set_their_fields() {
    let text: Text<String> = Text::new("hi");
    assert_eq!(text.content(), "hi");
    let text = text.with_content("bye");
    assert_eq!(text.content(), "bye");

    let input: Input<String> = Input::new("v").with_placeholder("p").with_cursor_visible(false);
    assert_eq!(input.value, "v");
    assert_eq!(input.placeholder.as_deref(), Some("p"));
    assert!(!input.cursor_visible);
    let input = input.with_value("w");
    assert_eq!(input.value, "w");
    assert!(Input::<String>::new("x").cursor_visible);

    let button = Button::new("Go").with_label("Stop").with_disabled(true);
    assert_eq!(button.label, "Stop");
    assert!(button.disabled);
    assert!(!Button::new("x").disabled);
}

#[test]
fn authority_reads_host_and_port() {
    assert_eq!(authority("http://localhost:5100/path"), Some("localhost:5100".to_string()));
    assert_eq!(authority("https://example.com"), Some("example.com".to_string()));
    assert_eq!(authority("a://b://c"), Some("b".to_string()));
    assert_eq!(authority("no scheme here"), None);
}

#[test]
fn host_of_falls_back_to_the_whole_url() {
    assert_eq!(host_of("https://www.google.com/search?q=x"), "www.google.com");
    assert_eq!(host_of("about:blank"), "about:blank");
}

#[test]
fn templates_name_the_project() {
    let manifest = cargo_toml("demo");
    assert!(manifest.starts_with("[package]\nname = \"demo\"\nversion = \"0.1.0\"\nedition = \"2024\"\n"));
    assert!(manifest.contains("[package.metadata.anvil]\ntitle = \"demo\"\ntagline = \"A new Escher project.\"\n"));
    assert!(manifest.ends_with("\n[dependencies]\n"));
    let readme = spec_readme("demo");
    assert!(readme.starts_with("# demo\n\nAn Escher project."));
    assert!(readme.ends_with("picks this up next).\n"));
}
