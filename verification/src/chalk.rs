//! Surface-neutral pieces of the browser chrome: the tab data a tab strip shows, the
//! toolbar's slot markers, and what the refresh button looks like.

use vstd::prelude::*;

use crate::element::{
    plain_text_node, shown_value, Button, Element, Input, BUTTON_ELEMENT_KIND, CLICK_EVENT_KIND, INPUT_ELEMENT_KIND,
    SUBMIT_EVENT_KIND,
};
use crate::scaffold::{
    dispatch_order, handlers_for, kind_count, law_leaf_dispatch_runs_own_handlers, law_silent_children_leave_own_handlers,
    PathStep, Scaffold,
};

verus! {

/// One open page as a tab strip sees it. `id` survives reordering; a tab's position in the
/// strip does not.
#[derive(Clone)]
pub struct TabInfo {
    pub id: u64,
    pub title: String,
    pub host: String,
}

/// Slot marker: the leading sidebar collapse/expand button.
pub struct SidebarToggle;

/// Slot marker: the back button.
pub struct BackButton;

/// Slot marker: the forward button.
pub struct ForwardButton;

/// Slot marker: the refresh button.
pub struct RefreshButton;

/// Slot marker: the address field.
pub struct AddressField;

/// Slot marker: the trailing pin-on-top button.
pub struct PinButton;

/// The slot kind of the sidebar toggle.
pub const SIDEBAR_TOGGLE_KIND: u64 = 1;
/// The slot kind of the back button.
pub const BACK_BUTTON_KIND: u64 = 2;
/// The slot kind of the forward button.
pub const FORWARD_BUTTON_KIND: u64 = 3;
/// The slot kind of the refresh button.
pub const REFRESH_BUTTON_KIND: u64 = 4;
/// The slot kind of the address field.
pub const ADDRESS_FIELD_KIND: u64 = 5;
/// The slot kind of the pin button.
pub const PIN_BUTTON_KIND: u64 = 6;

/// The sidebar toggle's glyph.
pub const SIDEBAR_GLYPH: &'static str = "\u{2630}";
/// The back button's glyph.
pub const BACK_GLYPH: &'static str = "\u{2039}";
/// The forward button's glyph.
pub const FORWARD_GLYPH: &'static str = "\u{203A}";
/// The pin button's label.
pub const PIN_LABEL: &'static str = "Pin";
/// What the address field shows while it is empty.
pub const ADDRESS_PLACEHOLDER: &'static str = "Search or enter address";

/// The refresh button's glyph and icon: a half-filled circle and no icon while a page
/// loads, the clockwise arrow with the `refresh-cw` icon otherwise.
pub fn refresh_button_face(loading: bool) -> (r: (&'static str, Option<&'static str>))
    ensures
        loading ==> r.0@ == "\u{25D0}"@ && r.1 is None,
        !loading ==> r.0@ == "\u{21BB}"@ && (r.1 matches Some(icon) && icon@ == "refresh-cw"@),
{
    if loading {
        ("\u{25D0}", None)
    } else {
        ("\u{21BB}", Some("refresh-cw"))
    }
}

/// A toolbar slot carrying a button labelled `label`, with `handler` as its only (click)
/// handler: a click dispatched to the slot runs `handler` and nothing else.
fn button_slot<H: Default>(label: &str, handler: H) -> (r: Scaffold<H>)
    ensures
        r.drawn_element() matches Some(Element::Button(b)) && b.label@ == label@ && !b.disabled,
        r.handlers() == seq![(CLICK_EVENT_KIND, handler)],
        r.text() is None,
        r.overlay_node() is None,
        r.children().len() == 1,
        r.children()[0].0 == (BUTTON_ELEMENT_KIND, 0usize),
        plain_text_node(r.children()[0].1, Some(label@)),
        dispatch_order(r, CLICK_EVENT_KIND) == seq![handler],
{
    let button = Button::labelled(label);
    let blank: Scaffold<H> = Scaffold::new();
    let carrying = blank.element(Element::Button(button));
    let r = carrying.handle(CLICK_EVENT_KIND, handler);
    proof {
        assert(r.handlers() =~= seq![(CLICK_EVENT_KIND, handler)]);
        assert(blank.children().len() == 0);
        assert(kind_count(blank.children(), BUTTON_ELEMENT_KIND) == 0);
        let child = r.children()[0].1;
        law_leaf_dispatch_runs_own_handlers(child, CLICK_EVENT_KIND);
        assert(child.handlers() =~= Seq::<(u64, H)>::empty());
        law_silent_children_leave_own_handlers(r, CLICK_EVENT_KIND);
        assert(r.handlers().drop_last() =~= Seq::<(u64, H)>::empty());
        assert(handlers_for(r.handlers(), CLICK_EVENT_KIND) =~= seq![handler]);
    }
    r
}

/// The address field's slot: it carries an input showing `address` (the placeholder while
/// it is empty), and its only handler is `on_load` for submits, so a submit dispatched to
/// the slot runs `on_load` and nothing else.
fn address_slot<H: Default>(address: &str, on_load: H) -> (r: Scaffold<H>)
    ensures
        r.drawn_element() matches Some(Element::Input(i)) && i.value@ == address@ && i.placeholder_view() == Some(
            ADDRESS_PLACEHOLDER@,
        ) && i.cursor_visible,
        r.handlers() == seq![(SUBMIT_EVENT_KIND, on_load)],
        r.text() is None,
        r.overlay_node() is None,
        r.children().len() == 1,
        r.children()[0].0 == (INPUT_ELEMENT_KIND, 0usize),
        r.children()[0].1.children()[1].1.text() == shown_value(address@, Some(ADDRESS_PLACEHOLDER@)),
        dispatch_order(r, SUBMIT_EVENT_KIND) == seq![on_load],
{
    let field: Input<String> = Input::of(address).with_placeholder_text(ADDRESS_PLACEHOLDER);
    proof {
        assert(field.placeholder_view() == Some(ADDRESS_PLACEHOLDER@));
    }
    let blank: Scaffold<H> = Scaffold::new();
    let carrying = blank.element(Element::Input(field));
    let r = carrying.handle(SUBMIT_EVENT_KIND, on_load);
    proof {
        assert(r.handlers() =~= seq![(SUBMIT_EVENT_KIND, on_load)]);
        assert(blank.children().len() == 0);
        assert(kind_count(blank.children(), INPUT_ELEMENT_KIND) == 0);
        let input = r.children()[0].1;
        let icon = input.children()[0].1;
        let value = input.children()[1].1;
        let cursor = value.children()[0].1;
        law_leaf_dispatch_runs_own_handlers(icon, SUBMIT_EVENT_KIND);
        assert(icon.handlers() =~= Seq::<(u64, H)>::empty());
        law_leaf_dispatch_runs_own_handlers(cursor, SUBMIT_EVENT_KIND);
        assert(cursor.handlers() =~= Seq::<(u64, H)>::empty());
        law_silent_children_leave_own_handlers(value, SUBMIT_EVENT_KIND);
        assert(value.handlers() =~= Seq::<(u64, H)>::empty());
        law_silent_children_leave_own_handlers(input, SUBMIT_EVENT_KIND);
        assert(input.handlers().drop_last() =~= Seq::<(u64, H)>::empty());
        assert(input.handlers()[0] == input.handlers().last());
        assert(handlers_for(input.handlers(), SUBMIT_EVENT_KIND) =~= Seq::<H>::empty());
        law_silent_children_leave_own_handlers(r, SUBMIT_EVENT_KIND);
        assert(r.handlers().drop_last() =~= Seq::<(u64, H)>::empty());
        assert(handlers_for(r.handlers(), SUBMIT_EVENT_KIND) =~= seq![on_load]);
    }
    r
}

/// Counting a kind after a child was added: one more when the child is of that kind.
proof fn lemma_count_other<V>(slots: Seq<(PathStep, V)>, entry: (PathStep, V), kind: u64)
    ensures
        kind_count(slots.push(entry), kind) == kind_count(slots, kind) + if entry.0.0 == kind {
            1nat
        } else {
            0nat
        },
{
    assert(slots.push(entry).drop_last() =~= slots);
}

/// Builds the browser toolbar onto `root`: six slots after the children it has, in order
/// the sidebar toggle, back, forward and refresh buttons, the address field and the pin
/// button. Each slot carries its element (a button with its glyph or label, the address
/// input with its value and placeholder); each button's only handler is its own click
/// callback, and the field's only handler is `on_load` for submits, so dispatching a click
/// (or a submit) to a slot runs exactly that one callback. The refresh glyph shows whether
/// a page is loading (a click still refreshes). The pin button reports clicks to
/// `on_toggle_pinned`; `pinned` is the caller's window state that the button toggles.
pub fn toolbar<H: Default>(
    root: Scaffold<H>,
    address: &str,
    loading: bool,
    pinned: bool,
    on_toggle_sidebar: H,
    on_back: H,
    on_forward: H,
    on_refresh: H,
    on_load: H,
    on_toggle_pinned: H,
) -> (r: Scaffold<H>)
    ensures
        r.same_but_children(root),
        r.children().len() == root.children().len() + 6,
        r.children().subrange(0, root.children().len() as int) == root.children(),
        ({
            let n = root.children().len() as int;
            let c = r.children();
            let base = root.children();
            &&& c[n].0 == (SIDEBAR_TOGGLE_KIND, kind_count(base, SIDEBAR_TOGGLE_KIND) as usize)
            &&& c[n + 1].0 == (BACK_BUTTON_KIND, kind_count(base, BACK_BUTTON_KIND) as usize)
            &&& c[n + 2].0 == (FORWARD_BUTTON_KIND, kind_count(base, FORWARD_BUTTON_KIND) as usize)
            &&& c[n + 3].0 == (REFRESH_BUTTON_KIND, kind_count(base, REFRESH_BUTTON_KIND) as usize)
            &&& c[n + 4].0 == (ADDRESS_FIELD_KIND, kind_count(base, ADDRESS_FIELD_KIND) as usize)
            &&& c[n + 5].0 == (PIN_BUTTON_KIND, kind_count(base, PIN_BUTTON_KIND) as usize)
            &&& c[n].1.drawn_element() matches Some(Element::Button(b)) && b.label@ == SIDEBAR_GLYPH@ && !b.disabled
            &&& c[n + 1].1.drawn_element() matches Some(Element::Button(b)) && b.label@ == BACK_GLYPH@ && !b.disabled
            &&& c[n + 2].1.drawn_element() matches Some(Element::Button(b)) && b.label@ == FORWARD_GLYPH@
                && !b.disabled
            &&& c[n + 3].1.drawn_element() matches Some(Element::Button(b)) && b.label@ == (if loading {
                "\u{25D0}"@
            } else {
                "\u{21BB}"@
            }) && !b.disabled
            &&& c[n + 4].1.drawn_element() matches Some(Element::Input(i)) && i.value@ == address@
                && i.placeholder_view() == Some(ADDRESS_PLACEHOLDER@) && i.cursor_visible
            &&& c[n + 5].1.drawn_element() matches Some(Element::Button(b)) && b.label@ == PIN_LABEL@ && !b.disabled
            &&& c[n].1.handlers() == seq![(CLICK_EVENT_KIND, on_toggle_sidebar)]
            &&& c[n + 1].1.handlers() == seq![(CLICK_EVENT_KIND, on_back)]
            &&& c[n + 2].1.handlers() == seq![(CLICK_EVENT_KIND, on_forward)]
            &&& c[n + 3].1.handlers() == seq![(CLICK_EVENT_KIND, on_refresh)]
            &&& c[n + 4].1.handlers() == seq![(SUBMIT_EVENT_KIND, on_load)]
            &&& c[n + 5].1.handlers() == seq![(CLICK_EVENT_KIND, on_toggle_pinned)]
            &&& dispatch_order(c[n].1, CLICK_EVENT_KIND) == seq![on_toggle_sidebar]
            &&& dispatch_order(c[n + 1].1, CLICK_EVENT_KIND) == seq![on_back]
            &&& dispatch_order(c[n + 2].1, CLICK_EVENT_KIND) == seq![on_forward]
            &&& dispatch_order(c[n + 3].1, CLICK_EVENT_KIND) == seq![on_refresh]
            &&& dispatch_order(c[n + 4].1, SUBMIT_EVENT_KIND) == seq![on_load]
            &&& dispatch_order(c[n + 5].1, CLICK_EVENT_KIND) == seq![on_toggle_pinned]
            &&& c[n + 4].1.children()[0].1.children()[1].1.text() == shown_value(address@, Some(ADDRESS_PLACEHOLDER@))
        }),
{
    let ghost base = root.children();
    let (glyph, _icon) = refresh_button_face(loading);
    let a = root.with_child(SIDEBAR_TOGGLE_KIND, button_slot(SIDEBAR_GLYPH, on_toggle_sidebar));
    let b = a.with_child(BACK_BUTTON_KIND, button_slot(BACK_GLYPH, on_back));
    let c = b.with_child(FORWARD_BUTTON_KIND, button_slot(FORWARD_GLYPH, on_forward));
    let d = c.with_child(REFRESH_BUTTON_KIND, button_slot(glyph, on_refresh));
    let e = d.with_child(ADDRESS_FIELD_KIND, address_slot(address, on_load));
    let f = e.with_child(PIN_BUTTON_KIND, button_slot(PIN_LABEL, on_toggle_pinned));
    proof {
        let n = base.len() as int;
        lemma_count_other(base, a.children()[n], BACK_BUTTON_KIND);
        lemma_count_other(base, a.children()[n], FORWARD_BUTTON_KIND);
        lemma_count_other(base, a.children()[n], REFRESH_BUTTON_KIND);
        lemma_count_other(base, a.children()[n], ADDRESS_FIELD_KIND);
        lemma_count_other(base, a.children()[n], PIN_BUTTON_KIND);
        assert(a.children().drop_last() =~= base);
        lemma_count_other(a.children(), b.children()[n + 1], FORWARD_BUTTON_KIND);
        lemma_count_other(a.children(), b.children()[n + 1], REFRESH_BUTTON_KIND);
        lemma_count_other(a.children(), b.children()[n + 1], ADDRESS_FIELD_KIND);
        lemma_count_other(a.children(), b.children()[n + 1], PIN_BUTTON_KIND);
        lemma_count_other(b.children(), c.children()[n + 2], REFRESH_BUTTON_KIND);
        lemma_count_other(b.children(), c.children()[n + 2], ADDRESS_FIELD_KIND);
        lemma_count_other(b.children(), c.children()[n + 2], PIN_BUTTON_KIND);
        lemma_count_other(c.children(), d.children()[n + 3], ADDRESS_FIELD_KIND);
        lemma_count_other(c.children(), d.children()[n + 3], PIN_BUTTON_KIND);
        lemma_count_other(d.children(), e.children()[n + 4], PIN_BUTTON_KIND);
        assert(f.children().subrange(0, n) =~= base);
        assert(f.children()[n] == a.children()[n]);
        assert(f.children()[n + 1] == b.children()[n + 1]);
        assert(f.children()[n + 2] == c.children()[n + 2]);
        assert(f.children()[n + 3] == d.children()[n + 3]);
        assert(f.children()[n + 4] == e.children()[n + 4]);
    }
    f
}

} // verus!
