use escher_atlas::chalk::{
    toolbar, ADDRESS_FIELD_KIND, BACK_BUTTON_KIND, FORWARD_BUTTON_KIND, PIN_BUTTON_KIND, REFRESH_BUTTON_KIND,
    SIDEBAR_TOGGLE_KIND,
};
use escher_atlas::edit::NodePath;
use escher_atlas::element::{
    Element, BUTTON_ELEMENT_KIND, CLICK_EVENT_KIND, INPUT_ELEMENT_KIND, KEYBOARD_EVENT_KIND, SUBMIT_EVENT_KIND,
    TEXT_ELEMENT_KIND,
};
use escher_atlas::scaffold::{EventStack, Scaffold, OVERLAY_KIND};

const BUTTON: u64 = 1;
const ROW: u64 = 2;
const CLICK: u64 = 10;
const SUBMIT: u64 = 11;

#[test]
fn a_new_scaffold_is_blank() {
    let node: Scaffold<&str> = Scaffold::new();
    assert!(node.is_enabled());
    assert!(!node.is_debug());
    assert_eq!(node.get_content(), None);
    assert!(node.get_slots().is_empty());
    assert!(node.get_overlay().is_none());
    assert!(node.dispatch(CLICK).is_empty());
}

#[test]
fn slots_are_numbered_per_kind() {
    let node: Scaffold<&str> = Scaffold::new()
        .slot(ROW, |s| s.content(Some("row 0")))
        .slot(ROW, |s| s.content(Some("row 1")))
        .slot(BUTTON, |s| s.content(Some("button 0")))
        .slot(ROW, |s| s.content(Some("row 2")));
    let keys: Vec<(u64, usize)> = node.get_slots().iter().map(|(k, _)| *k).collect();
    assert_eq!(keys, vec![(ROW, 0), (ROW, 1), (BUTTON, 0), (ROW, 2)]);
    assert_eq!(node.get_slot_at(BUTTON, 0).unwrap().get_content(), Some("button 0"));
    assert_eq!(node.get_slot_at(ROW, 2).unwrap().get_content(), Some("row 2"));
    assert!(node.get_slot_at(BUTTON, 1).is_none());
    assert_eq!(node.get_slot_by_key(&(ROW, 1)).unwrap().get_content(), Some("row 1"));
    let rows: Vec<(usize, Option<&str>)> =
        node.get_slot(ROW).into_iter().map(|(i, s)| (i, s.get_content())).collect();
    assert_eq!(rows, vec![(0, Some("row 0")), (1, Some("row 1")), (2, Some("row 2"))]);
}

#[test]
fn a_later_slot_keeps_its_key_when_an_earlier_loop_grows() {
    let short: Scaffold<&str> = Scaffold::new().slot(ROW, |s| s).slot(BUTTON, |s| s.content(Some("new")));
    let long: Scaffold<&str> =
        Scaffold::new().slot(ROW, |s| s).slot(ROW, |s| s).slot(ROW, |s| s).slot(BUTTON, |s| s.content(Some("new")));
    let path = NodePath::root().child((BUTTON, 0));
    assert_eq!(short.get_at_path(&path).unwrap().get_content(), Some("new"));
    assert_eq!(long.get_at_path(&path).unwrap().get_content(), Some("new"));
}

#[test]
fn paths_resolve_through_nested_slots_and_the_overlay() {
    let tree: Scaffold<&str> = Scaffold::new()
        .slot(ROW, |row| row.slot(BUTTON, |b| b.content(Some("deep"))))
        .overlay(|o| o.content(Some("on top")).slot(BUTTON, |b| b.content(Some("inside overlay"))));
    let root = NodePath::root();
    assert!(tree.get_at_path(&root).unwrap().get_slot_at(ROW, 0).is_some());
    let deep = root.child((ROW, 0)).child((BUTTON, 0));
    assert_eq!(tree.get_at_path(&deep).unwrap().get_content(), Some("deep"));
    let overlay = root.child((OVERLAY_KIND, 0));
    assert_eq!(tree.get_at_path(&overlay).unwrap().get_content(), Some("on top"));
    let in_overlay = overlay.child((BUTTON, 0));
    assert_eq!(tree.get_at_path(&in_overlay).unwrap().get_content(), Some("inside overlay"));
    assert!(tree.get_at_path(&root.child((ROW, 1))).is_none());
    assert!(tree.get_at_path(&root.child((ROW, 1)).child((BUTTON, 0))).is_none());
}

#[test]
fn dispatch_runs_children_first_then_the_node_and_skips_the_overlay() {
    let tree: Scaffold<&str> = Scaffold::new()
        .handle(CLICK, "root click")
        .handle(SUBMIT, "root submit")
        .slot(ROW, |row| row.handle(CLICK, "row click").slot(BUTTON, |b| b.handle(CLICK, "button click")))
        .slot(BUTTON, |b| b.handle(CLICK, "second button click").handle(CLICK, "second button again"))
        .overlay(|o| o.handle(CLICK, "overlay click"));
    let order: Vec<&str> = tree.dispatch(CLICK).into_iter().copied().collect();
    assert_eq!(order, vec!["button click", "row click", "second button click", "second button again", "root click"]);
    let submits: Vec<&str> = tree.dispatch(SUBMIT).into_iter().copied().collect();
    assert_eq!(submits, vec!["root submit"]);
}

#[test]
fn an_event_stack_runs_handlers_of_one_kind_in_push_order() {
    let mut stack: EventStack<u32> = EventStack::new();
    stack.push(CLICK, 1);
    stack.push(SUBMIT, 2);
    stack.push(CLICK, 3);
    let clicks: Vec<u32> = stack.exec(CLICK).into_iter().copied().collect();
    assert_eq!(clicks, vec![1, 3]);
    assert!(stack.exec(99).is_empty());
}

#[test]
fn flags_and_content_are_set_and_read_back() {
    let mut node: Scaffold<u8> = Scaffold::new().condition(false).debug(true).content(Some("label"));
    assert!(!node.is_enabled());
    assert!(node.is_debug());
    assert_eq!(node.get_content(), Some("label"));
    node.set_debug(false);
    assert!(!node.is_debug());
    let node = node.content(None).build();
    assert_eq!(node.get_content(), None);
    assert!(!node.is_enabled());
}

#[test]
fn a_disabled_slot_keeps_the_keys_of_its_siblings() {
    let tree: Scaffold<u8> = Scaffold::new()
        .slot(BUTTON, |b| b.condition(false))
        .slot(BUTTON, |b| b.content(Some("second")));
    assert!(!tree.get_slot_at(BUTTON, 0).unwrap().is_enabled());
    assert_eq!(tree.get_slot_at(BUTTON, 1).unwrap().get_content(), Some("second"));
}

use escher_atlas::element::{
    Button, Container, Input, Text, CURSOR_HIDDEN, CURSOR_SHOWN, INPUT_CURSOR_KIND, INPUT_ICON, INPUT_ICON_KIND,
    INPUT_VALUE_KIND,
};

#[test]
fn text_and_button_draw_their_text() {
    let text: Scaffold<u8> = Text::<String>::new("hello").draw(Scaffold::new());
    assert_eq!(text.get_content(), Some("hello"));
    let button: Scaffold<u8> = Button::new("Pin").with_disabled(true).draw(Scaffold::new());
    assert_eq!(button.get_content(), Some("Pin"));
    let container: Scaffold<u8> = Container.draw(Scaffold::new().content(Some("kept")));
    assert_eq!(container.get_content(), Some("kept"));
}

#[test]
fn an_empty_input_shows_its_placeholder_and_the_cursor() {
    let input = Input::<String>::new("").with_placeholder("Search or enter address");
    let drawn: Scaffold<u8> = input.draw(Scaffold::new());
    let keys: Vec<(u64, usize)> = drawn.get_slots().iter().map(|(k, _)| *k).collect();
    assert_eq!(keys, vec![(INPUT_ICON_KIND, 0), (INPUT_VALUE_KIND, 0)]);
    assert_eq!(drawn.get_slot_at(INPUT_ICON_KIND, 0).unwrap().get_content(), Some(INPUT_ICON));
    let value = drawn.get_slot_at(INPUT_VALUE_KIND, 0).unwrap();
    assert_eq!(value.get_content(), Some("Search or enter address"));
    assert_eq!(value.get_slot_at(INPUT_CURSOR_KIND, 0).unwrap().get_content(), Some(CURSOR_SHOWN));
}

#[test]
fn a_typed_input_shows_its_value_and_the_blinking_cursor() {
    let input = Input::<String>::new("ls -la").with_placeholder("unused").with_cursor_visible(false);
    let drawn: Scaffold<u8> = input.draw(Scaffold::new());
    let value = drawn.get_slot_at(INPUT_VALUE_KIND, 0).unwrap();
    assert_eq!(value.get_content(), Some("ls -la"));
    assert_eq!(value.get_slot_at(INPUT_CURSOR_KIND, 0).unwrap().get_content(), Some(CURSOR_HIDDEN));
    let bare: Scaffold<u8> = Input::<String>::new("").draw(Scaffold::new());
    assert_eq!(bare.get_slot_at(INPUT_VALUE_KIND, 0).unwrap().get_content(), None);
}

#[test]
fn toolbar_lays_out_its_six_controls() {
    let root: Scaffold<&str> = Scaffold::new();
    let bar = toolbar(root, "https://example.com", true, false, "sidebar", "back", "forward", "refresh", "load", "pin");
    let slots = bar.get_slots();
    assert_eq!(slots.len(), 6);
    assert_eq!(slots[0].0, (SIDEBAR_TOGGLE_KIND, 0));
    assert_eq!(slots[1].0, (BACK_BUTTON_KIND, 0));
    assert_eq!(slots[2].0, (FORWARD_BUTTON_KIND, 0));
    assert_eq!(slots[3].0, (REFRESH_BUTTON_KIND, 0));
    assert_eq!(slots[4].0, (ADDRESS_FIELD_KIND, 0));
    assert_eq!(slots[5].0, (PIN_BUTTON_KIND, 0));
    match slots[3].1.get_element() {
        Some(Element::Button(b)) => assert_eq!(b.label, "\u{25D0}"),
        _ => panic!("the refresh slot carries a button"),
    }
    match bar.get_slot_at(ADDRESS_FIELD_KIND, 0).unwrap().get_element() {
        Some(Element::Input(i)) => {
            assert_eq!(i.value, "https://example.com");
            assert_eq!(i.placeholder.as_deref(), Some("Search or enter address"));
        },
        _ => panic!("the address slot carries an input"),
    }
    match slots[0].1.get_element() {
        Some(Element::Button(b)) => assert_eq!(b.label, "\u{2630}"),
        _ => panic!("the sidebar slot carries a button"),
    }
    assert_eq!(slots[0].1.get_slot_at(BUTTON_ELEMENT_KIND, 0).unwrap().get_content(), Some("\u{2630}"));
    assert_eq!(slots[1].1.dispatch(CLICK_EVENT_KIND), vec![&"back"]);
    assert_eq!(slots[3].1.dispatch(CLICK_EVENT_KIND), vec![&"refresh"]);
    assert_eq!(slots[5].1.dispatch(CLICK_EVENT_KIND), vec![&"pin"]);
    assert_eq!(slots[4].1.dispatch(SUBMIT_EVENT_KIND), vec![&"load"]);
    assert!(slots[4].1.dispatch(CLICK_EVENT_KIND).is_empty());
    let field = slots[4].1.get_slot_at(INPUT_ELEMENT_KIND, 0).unwrap();
    assert_eq!(field.get_slot_at(INPUT_VALUE_KIND, 0).unwrap().get_content(), Some("https://example.com"));

    let idle = toolbar(Scaffold::new(), "", false, true, "s", "b", "f", "r", "l", "p");
    match idle.get_slots()[3].1.get_element() {
        Some(Element::Button(b)) => assert_eq!(b.label, "\u{21BB}"),
        _ => panic!("the refresh slot carries a button"),
    }
    let empty_field = idle.get_slots()[4].1.get_slot_at(INPUT_ELEMENT_KIND, 0).unwrap();
    assert_eq!(empty_field.get_slot_at(INPUT_VALUE_KIND, 0).unwrap().get_content(), Some("Search or enter address"));
}

#[test]
fn an_element_is_drawn_into_its_own_slot_and_kept() {
    let node: Scaffold<u8> = Scaffold::new().element(Element::Text(Text::<String>::of("hello")));
    assert_eq!(node.get_content(), None);
    assert_eq!(node.get_slot_at(TEXT_ELEMENT_KIND, 0).unwrap().get_content(), Some("hello"));
    match node.get_element() {
        Some(Element::Text(t)) => assert_eq!(t.content(), "hello"),
        _ => panic!("the node keeps its text element"),
    }
    let input: Scaffold<u8> = Scaffold::new().element(Element::Input(Input::<String>::of("ls")));
    let drawn = input.get_slot_at(INPUT_ELEMENT_KIND, 0).unwrap();
    assert_eq!(drawn.get_handlers().exec(KEYBOARD_EVENT_KIND).len(), 1);
    assert!(drawn.get_slot_at(INPUT_ICON_KIND, 0).unwrap().get_handlers().exec(KEYBOARD_EVENT_KIND).is_empty());
}

#[test]
fn string_elements_hold_the_given_text() {
    let text = Text::<String>::of("old").with_text("new");
    assert_eq!(text.content(), "new");
    let input = Input::<String>::of("abc");
    assert_eq!(input.value, "abc");
    assert!(input.placeholder.is_none());
    assert!(input.cursor_visible);
    let hinted = input.with_placeholder_text("type").with_text("xyz");
    assert_eq!(hinted.placeholder.as_deref(), Some("type"));
    assert_eq!(hinted.value, "xyz");
    let button = Button::labelled("Go").with_label_text("Stop");
    assert_eq!(button.label, "Stop");
    assert!(!button.disabled);
}
