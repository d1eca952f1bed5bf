use escher_atlas::browser::{BrowserState, NEW_TAB_URL};
use escher_atlas::edit::{InMemoryEditBackend, InMemoryEditError, NodeEdit, NodePath, NODE_EDIT_KIND};
use escher_atlas::history::{ChatMessage, TaskRow};
use escher_atlas::writer::{plan_batch, ImmediateWrite, PersistenceWrite};

fn ids(browser: &BrowserState) -> Vec<u64> {
    browser.tabs.iter().map(|tab| tab.id).collect()
}

#[test]
fn opened_tabs_show_and_start_loading() {
    let mut browser = BrowserState::new();
    browser.open_tab("https://example.com/docs".to_string());
    browser.open_tab(NEW_TAB_URL.to_string());
    assert_eq!(ids(&browser), vec![0, 1]);
    assert_eq!(browser.active, Some(1));
    assert_eq!(browser.tabs[1].host, "www.google.com");
    assert_eq!(browser.tabs[1].title, "www.google.com");
    assert!(browser.tabs[1].loading);
    assert!(!browser.tabs[1].attach_deferred);
    assert_eq!(browser.toolbar_address(), NEW_TAB_URL);
    assert!(browser.toolbar_loading());
    assert_eq!(browser.window_title(), "www.google.com");
    let infos = browser.tab_infos();
    assert_eq!(infos.len(), 2);
    assert_eq!(infos[0].host, "example.com");
}

#[test]
fn navigating_changes_only_the_showing_tab() {
    let mut browser = BrowserState::new();
    browser.open_tab("https://a.test/".to_string());
    browser.open_tab("https://b.test/".to_string());
    browser.select(0);
    assert_eq!(browser.navigate("https://c.test/x".to_string()), Some(0));
    assert_eq!(browser.tabs[0].url, "https://c.test/x");
    assert_eq!(browser.tabs[0].title, "c.test");
    assert_eq!(browser.tabs[1].url, "https://b.test/");
    assert_eq!(browser.refresh_target(), Some((0, "https://c.test/x".to_string())));

    let mut empty = BrowserState::new();
    assert_eq!(empty.navigate("https://x.test".to_string()), None);
    assert!(empty.tabs.is_empty());
    assert_eq!(empty.window_title(), "Anvil — Browser");
    assert_eq!(empty.toolbar_address(), "");
    assert!(!empty.toolbar_loading());
    assert_eq!(empty.refresh_target(), None);
}

#[test]
fn closing_the_showing_tab_shows_the_first() {
    let mut browser = BrowserState::new();
    for url in ["https://a.test", "https://b.test", "https://c.test"] {
        browser.open_tab(url.to_string());
    }
    assert!(browser.close(2));
    assert_eq!(ids(&browser), vec![0, 1]);
    assert_eq!(browser.active, Some(0));
    browser.select(1);
    assert!(!browser.close(0));
    assert_eq!(ids(&browser), vec![1]);
    assert_eq!(browser.active, Some(1));
    assert!(browser.close(1));
    assert!(browser.tabs.is_empty());
    assert_eq!(browser.active, None);
}

#[test]
fn dragging_a_tab_clamps_to_the_strip() {
    let mut browser = BrowserState::new();
    for url in ["https://a.test", "https://b.test", "https://c.test", "https://d.test"] {
        browser.open_tab(url.to_string());
    }
    browser.reorder(0, 2);
    assert_eq!(ids(&browser), vec![1, 2, 0, 3]);
    browser.reorder(3, -10);
    assert_eq!(ids(&browser), vec![3, 1, 2, 0]);
    browser.reorder(1, 100);
    assert_eq!(ids(&browser), vec![3, 2, 0, 1]);
    browser.reorder(42, 1);
    assert_eq!(ids(&browser), vec![3, 2, 0, 1]);
    assert_eq!(browser.active, Some(3));
    browser.reorder(3, i32::MAX);
    assert_eq!(ids(&browser), vec![2, 0, 1, 3]);
    browser.reorder(1, i32::MIN);
    assert_eq!(ids(&browser), vec![1, 2, 0, 3]);
    browser.reorder(99, i32::MAX);
    assert_eq!(ids(&browser), vec![1, 2, 0, 3]);
}

#[test]
fn page_titles_fall_back_to_the_host() {
    let mut browser = BrowserState::new();
    browser.open_tab("https://a.test/page".to_string());
    browser.set_page_title(0, Some("A page".to_string()));
    assert_eq!(browser.tabs[0].title, "A page");
    browser.set_page_title(0, Some(String::new()));
    assert_eq!(browser.tabs[0].title, "a.test");
    browser.set_page_title(0, None);
    assert_eq!(browser.tabs[0].title, "a.test");
    browser.set_loading(0, false);
    assert!(!browser.tabs[0].loading);
}

#[test]
fn insert_then_delete_round_trips() {
    let mut backend: InMemoryEditBackend<(u64, &str)> = InMemoryEditBackend::new();
    let root = NodePath::root();

    let child = match backend.insert(root.duplicate(), 0, NodeEdit { element: "Label".into(), content: Some("hi".into()) }) {
        Ok(child) => child,
        Err(_) => panic!("insert never fails"),
    };
    assert_eq!(backend.children_of(&root), Some(1));

    assert!(backend.set_style(child.duplicate(), (1, "padding")).is_ok());
    assert_eq!(backend.styles_of(&child), Some(1));

    assert!(backend.delete(child.duplicate()).is_ok());
    assert_eq!(backend.children_of(&root), Some(0));
    assert_eq!(backend.styles_of(&child), None);
}

#[test]
fn inserted_paths_number_the_children() {
    let mut backend: InMemoryEditBackend<(u64, u8)> = InMemoryEditBackend::new();
    let root = NodePath::root();
    let first = backend.insert(root.duplicate(), 0, NodeEdit::default()).ok().unwrap();
    let second = backend.insert(root.duplicate(), 0, NodeEdit::default()).ok().unwrap();
    assert!(first.same_as(&root.child((NODE_EDIT_KIND, 0))));
    assert!(second.same_as(&root.child((NODE_EDIT_KIND, 1))));
    assert!(!first.same_as(&second));
    let grandchild = backend.insert(first.duplicate(), 5, NodeEdit::default()).ok().unwrap();
    assert!(grandchild.same_as(&first.child((NODE_EDIT_KIND, 0))));
    assert_eq!(backend.children_of(&first), Some(1));
    assert!(backend.move_node(grandchild.duplicate(), second.duplicate(), 0).is_ok());
    assert_eq!(backend.children_of(&first), Some(0));
    assert_eq!(backend.children_of(&second), Some(1));
    assert!(backend.set_content(second.duplicate(), None).is_ok());
    assert!(backend.commit().is_ok());
}

#[test]
fn insert_places_the_child_at_its_index() {
    let mut backend: InMemoryEditBackend<(u64, u8)> = InMemoryEditBackend::new();
    let root = NodePath::root();
    let a = backend.insert(root.duplicate(), 0, NodeEdit::default()).ok().unwrap();
    let b = backend.insert(root.duplicate(), 0, NodeEdit::default()).ok().unwrap();
    let c = backend.insert(root.duplicate(), 1, NodeEdit::default()).ok().unwrap();
    let d = backend.insert(root.duplicate(), 99, NodeEdit::default()).ok().unwrap();
    let kids = backend.child_paths(&root);
    assert_eq!(kids.len(), 4);
    assert!(kids[0].same_as(&b));
    assert!(kids[1].same_as(&c));
    assert!(kids[2].same_as(&a));
    assert!(kids[3].same_as(&d));
}

#[test]
fn move_node_places_the_node_at_its_index() {
    let mut backend: InMemoryEditBackend<(u64, u8)> = InMemoryEditBackend::new();
    let root = NodePath::root();
    let a = backend.insert(root.duplicate(), 0, NodeEdit::default()).ok().unwrap();
    let b = backend.insert(root.duplicate(), 1, NodeEdit::default()).ok().unwrap();
    let c = backend.insert(root.duplicate(), 2, NodeEdit::default()).ok().unwrap();
    assert!(backend.move_node(c.duplicate(), root.duplicate(), 0).is_ok());
    let kids = backend.child_paths(&root);
    assert_eq!(kids.len(), 3);
    assert!(kids[0].same_as(&c));
    assert!(kids[1].same_as(&a));
    assert!(kids[2].same_as(&b));
}

#[test]
fn edits_on_unknown_nodes_fail_and_change_nothing() {
    let mut backend: InMemoryEditBackend<(u64, u8)> = InMemoryEditBackend::new();
    let root = NodePath::root();
    let stranger = root.child((7, 7));
    match backend.set_style(stranger.duplicate(), (1, 1)) {
        Err(InMemoryEditError::UnknownNode(p)) => assert!(p.same_as(&stranger)),
        Ok(_) => panic!("an unknown node must be refused"),
    }
    assert_eq!(backend.styles_of(&stranger), None);
    assert!(backend.set_content(stranger.duplicate(), Some("x".into())).is_err());
    assert!(backend.delete(stranger.duplicate()).is_err());
    assert!(backend.move_node(stranger.duplicate(), root.duplicate(), 0).is_err());
    assert_eq!(backend.children_of(&root), None);
    assert!(backend.delete(root.duplicate()).is_err());
}

#[test]
fn delete_removes_everything_under_the_node() {
    let mut backend: InMemoryEditBackend<(u64, u8)> = InMemoryEditBackend::new();
    let root = NodePath::root();
    let a = backend.insert(root.duplicate(), 0, NodeEdit::default()).ok().unwrap();
    let b = backend.insert(root.duplicate(), 1, NodeEdit::default()).ok().unwrap();
    let a1 = backend.insert(a.duplicate(), 0, NodeEdit::default()).ok().unwrap();
    let a11 = backend.insert(a1.duplicate(), 0, NodeEdit::default()).ok().unwrap();
    assert!(backend.set_style(a11.duplicate(), (2, 3)).is_ok());
    assert!(backend.set_style(b.duplicate(), (2, 3)).is_ok());
    assert!(backend.delete(a.duplicate()).is_ok());
    assert_eq!(backend.children_of(&a), None);
    assert_eq!(backend.children_of(&a1), None);
    assert_eq!(backend.styles_of(&a11), None);
    assert_eq!(backend.styles_of(&b), Some(1));
    let kids = backend.child_paths(&root);
    assert_eq!(kids.len(), 1);
    assert!(kids[0].same_as(&b));
}

#[test]
fn set_style_overwrites_a_property_of_the_same_kind() {
    let mut backend: InMemoryEditBackend<(u64, u8)> = InMemoryEditBackend::new();
    let root = NodePath::root();
    let a = backend.insert(root.duplicate(), 0, NodeEdit::default()).ok().unwrap();
    assert!(backend.set_style(a.duplicate(), (1, 10)).is_ok());
    assert!(backend.set_style(a.duplicate(), (2, 20)).is_ok());
    assert!(backend.set_style(a.duplicate(), (1, 30)).is_ok());
    assert_eq!(backend.styles_of(&a), Some(2));
}

#[test]
fn a_write_batch_saves_every_message_and_the_latest_snapshots() {
    let batch: Vec<PersistenceWrite<&str, (u32, u32)>> = vec![
        PersistenceWrite::Message(ChatMessage::User("one".into())),
        PersistenceWrite::Tasks(vec![TaskRow { label: "a".into(), status: "pending".into() }]),
        PersistenceWrite::OverlayBounds((1, 2, 3, 4), "first"),
        PersistenceWrite::SidebarState((220, 220)),
        PersistenceWrite::ShowWelcomeOverview(false),
        PersistenceWrite::Tasks(vec![]),
        PersistenceWrite::OverlayBounds((5, 6, 7, 8), "second"),
        PersistenceWrite::Message(ChatMessage::Assistant("two".into())),
    ];
    let plan = plan_batch(batch);
    assert_eq!(plan.immediate.len(), 3);
    assert!(matches!(&plan.immediate[0], ImmediateWrite::Message(ChatMessage::User(t)) if t == "one"));
    assert!(matches!(plan.immediate[1], ImmediateWrite::ShowWelcomeOverview(false)));
    assert!(matches!(&plan.immediate[2], ImmediateWrite::Message(ChatMessage::Assistant(t)) if t == "two"));
    assert_eq!(plan.tasks.map(|t| t.len()), Some(0));
    assert_eq!(plan.overlay, Some(((5, 6, 7, 8), "second")));
    assert_eq!(plan.sidebar, Some((220, 220)));

    let quiet: Vec<PersistenceWrite<(), ()>> = vec![PersistenceWrite::ShowWelcomeOverview(true)];
    let plan = plan_batch(quiet);
    assert!(plan.tasks.is_none() && plan.overlay.is_none() && plan.sidebar.is_none());
}

#[test]
fn a_new_tab_gets_its_web_view_on_the_second_pass() {
    let mut browser = BrowserState::new();
    browser.open_tab("https://a.test/".to_string());
    browser.open_tab("https://b.test/".to_string());
    // Tab 0 already has a web view; tab 1 is new.
    let first = browser.attach_pass(&[0]);
    assert!(first.wake);
    assert!(first.attach.is_empty());
    assert!(browser.tabs[1].attach_deferred);
    assert!(!browser.tabs[0].attach_deferred);
    let second = browser.attach_pass(&[0]);
    assert!(!second.wake);
    assert_eq!(second.attach, vec![(1, false)]);
    // A tab that is not showing starts hidden.
    browser.select(0);
    let third = browser.attach_pass(&[]);
    assert_eq!(third.attach, vec![(1, true)]);
    assert!(third.wake);
    assert!(browser.attach_pass(&[0, 1]).attach.is_empty());
}
