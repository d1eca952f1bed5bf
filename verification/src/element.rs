//! The built-in elements a scaffold node can carry, and the marker types that key their
//! slots.

use vstd::prelude::*;
use vstd::std_specs::convert::IntoSpec;

use crate::scaffold::{kind_count, Scaffold};

verus! {

/// A plain grouping node with no content of its own.
#[derive(Default, Debug)]
pub struct Container;

/// A text node.
#[derive(Default, Debug)]
pub struct Text<T>(pub T);

impl<T> Text<T> {
    /// A text node holding `text`, converted with its `Into` impl.
    pub fn new<V: Into<T>>(text: V) -> (r: Self)
        ensures
            V::obeys_into_spec() ==> r.0 == text.into_spec(),
    {
        Text(text.into())
    }

    /// The same node with its text replaced by `value`.
    pub fn with_content<C: Into<T>>(self, value: C) -> (r: Self)
        ensures
            C::obeys_into_spec() ==> r.0 == value.into_spec(),
    {
        let mut this = self;
        this.0 = value.into();
        this
    }
}

impl Text<String> {
    /// A text node holding a copy of `text`.
    pub fn of(text: &str) -> (r: Self)
        ensures
            r.0@ == text@,
    {
        Text(String::from_str(text))
    }

    /// The same node with its text replaced by a copy of `value`.
    pub fn with_text(self, value: &str) -> (r: Self)
        ensures
            r.0@ == value@,
    {
        let mut this = self;
        this.0 = String::from_str(value);
        this
    }

    /// The node's text.
    pub fn content(&self) -> (r: &str)
        ensures
            r@ == self.0@,
    {
        self.0.as_str()
    }
}

/// A single-line text input.
pub struct Input<T> {
    pub value: T,
    pub placeholder: Option<T>,
    /// Whether the blink cursor is in its visible half-cycle this frame; the caller that
    /// owns the animation clock recomputes it every draw. Defaults to `true`.
    pub cursor_visible: bool,
}

impl<T> Input<T> {
    /// An input holding `text`, with no placeholder and a visible cursor.
    pub fn new<V: Into<T>>(text: V) -> (r: Self)
        ensures
            V::obeys_into_spec() ==> r.value == text.into_spec(),
            r.placeholder is None,
            r.cursor_visible,
    {
        Input { value: text.into(), placeholder: None, cursor_visible: true }
    }

    /// The same input with its value replaced.
    pub fn with_value<V: Into<T>>(self, value: V) -> (r: Self)
        ensures
            V::obeys_into_spec() ==> r.value == value.into_spec(),
            r.placeholder == self.placeholder,
            r.cursor_visible == self.cursor_visible,
    {
        let mut this = self;
        this.value = value.into();
        this
    }

    /// The same input with a placeholder shown while it is empty.
    pub fn with_placeholder<P: Into<T>>(self, placeholder: P) -> (r: Self)
        ensures
            r.value == self.value,
            r.placeholder is Some,
            P::obeys_into_spec() ==> r.placeholder == Some(placeholder.into_spec()),
            r.cursor_visible == self.cursor_visible,
    {
        let mut this = self;
        this.placeholder = Some(placeholder.into());
        this
    }

    /// The same input with the cursor's visibility for this frame set to `visible`.
    pub fn with_cursor_visible(self, visible: bool) -> (r: Self)
        ensures
            r.value == self.value,
            r.placeholder == self.placeholder,
            r.cursor_visible == visible,
    {
        let mut this = self;
        this.cursor_visible = visible;
        this
    }
}

impl Input<String> {
    /// An input holding a copy of `text`, with no placeholder and a visible cursor.
    pub fn of(text: &str) -> (r: Self)
        ensures
            r.value@ == text@,
            r.placeholder is None,
            r.cursor_visible,
    {
        Input { value: String::from_str(text), placeholder: None, cursor_visible: true }
    }

    /// The same input with its value replaced by a copy of `value`.
    pub fn with_text(self, value: &str) -> (r: Self)
        ensures
            r.value@ == value@,
            r.placeholder == self.placeholder,
            r.cursor_visible == self.cursor_visible,
    {
        let mut this = self;
        this.value = String::from_str(value);
        this
    }

    /// The same input with a copy of `placeholder` shown while it is empty.
    pub fn with_placeholder_text(self, placeholder: &str) -> (r: Self)
        ensures
            r.value == self.value,
            r.placeholder matches Some(p) && p@ == placeholder@,
            r.cursor_visible == self.cursor_visible,
    {
        let mut this = self;
        this.placeholder = Some(String::from_str(placeholder));
        this
    }
}

/// A pressable control carrying a text label. Behavior is registered on the node that
/// carries it; a surface reads `disabled` to decide the native enabled state.
#[derive(Default, Debug, Clone)]
pub struct Button {
    pub label: String,
    pub disabled: bool,
}

impl Button {
    /// An enabled button labelled `label`.
    pub fn new<L: Into<String>>(label: L) -> (r: Self)
        ensures
            L::obeys_into_spec() ==> r.label == label.into_spec(),
            !r.disabled,
    {
        Button { label: label.into(), disabled: false }
    }

    /// An enabled button labelled with a copy of `label`.
    pub fn labelled(label: &str) -> (r: Self)
        ensures
            r.label@ == label@,
            !r.disabled,
    {
        Button { label: String::from_str(label), disabled: false }
    }

    /// The same button with its label replaced by a copy of `label`.
    pub fn with_label_text(self, label: &str) -> (r: Self)
        ensures
            r.label@ == label@,
            r.disabled == self.disabled,
    {
        let mut this = self;
        this.label = String::from_str(label);
        this
    }

    /// The same button with its label replaced.
    pub fn with_label<L: Into<String>>(self, label: L) -> (r: Self)
        ensures
            L::obeys_into_spec() ==> r.label == label.into_spec(),
            r.disabled == self.disabled,
    {
        let mut this = self;
        this.label = label.into();
        this
    }

    /// The same button, inert (but still shown) when `disabled` is true.
    pub fn with_disabled(self, disabled: bool) -> (r: Self)
        ensures
            r.label == self.label,
            r.disabled == disabled,
    {
        let mut this = self;
        this.disabled = disabled;
        this
    }
}

/// Slot marker for an input's leading icon.
pub struct InputIcon;

/// Slot marker for an input's value text.
pub struct InputValue;

/// Slot marker for an input's cursor.
pub struct InputCursor;

/// Slot marker for a legend.
pub struct Legend;

/// Slot marker for a header.
pub struct Header;

/// Slot marker for a body.
pub struct Body;

/// Slot marker for a footer.
pub struct Footer;

/// Slot marker for content.
pub struct Content;

/// Slot marker for children.
pub struct Children;

/// The event kind of a click (or tap) on a node.
pub const CLICK_EVENT_KIND: u64 = 1;
/// The event kind of an input's committed text (Return pressed).
pub const SUBMIT_EVENT_KIND: u64 = 2;
/// The event kind of a key press.
pub const KEYBOARD_EVENT_KIND: u64 = 3;

/// The slot kind of the child a container is drawn into.
pub const CONTAINER_ELEMENT_KIND: u64 = 101;
/// The slot kind of the child a text element is drawn into.
pub const TEXT_ELEMENT_KIND: u64 = 102;
/// The slot kind of the child an input is drawn into.
pub const INPUT_ELEMENT_KIND: u64 = 103;
/// The slot kind of the child a button is drawn into.
pub const BUTTON_ELEMENT_KIND: u64 = 104;

/// An element a node can carry.
pub enum Element {
    Container,
    Text(Text<String>),
    Input(Input<String>),
    Button(Button),
}

/// The slot kind an element is drawn into.
pub open spec fn element_kind(e: Element) -> u64 {
    match e {
        Element::Container => CONTAINER_ELEMENT_KIND,
        Element::Text(_) => TEXT_ELEMENT_KIND,
        Element::Input(_) => INPUT_ELEMENT_KIND,
        Element::Button(_) => BUTTON_ELEMENT_KIND,
    }
}

/// A node that carries nothing but `text`: no element, handlers, children or overlay.
pub open spec fn plain_text_node<H>(node: Scaffold<H>, text: Option<Seq<char>>) -> bool {
    &&& node.flag_enabled()
    &&& !node.flag_debug()
    &&& node.drawn_element() is None
    &&& node.text() == text
    &&& node.handlers().len() == 0
    &&& node.children().len() == 0
    &&& node.overlay_node() is None
}

/// What drawing `e` into a blank node gives.
pub open spec fn drawn_as<H>(e: Element, node: Scaffold<H>) -> bool {
    match e {
        Element::Container => node.is_blank(),
        Element::Text(t) => plain_text_node(node, Some(t.0@)),
        Element::Button(b) => plain_text_node(node, Some(b.label@)),
        Element::Input(i) => {
            &&& node.flag_enabled()
            &&& !node.flag_debug()
            &&& node.drawn_element() is None
            &&& node.text() is None
            &&& node.overlay_node() is None
            &&& node.handlers().len() == 1
            &&& node.handlers()[0].0 == KEYBOARD_EVENT_KIND
            &&& node.children().len() == 2
            &&& node.children()[0].0 == (INPUT_ICON_KIND, 0usize)
            &&& plain_text_node(node.children()[0].1, Some(INPUT_ICON@))
            &&& node.children()[1].0 == (INPUT_VALUE_KIND, 0usize)
            &&& node.children()[1].1.text() == shown_value(i.value@, i.placeholder_view())
            &&& node.children()[1].1.handlers().len() == 0
            &&& node.children()[1].1.children().len() == 1
            &&& node.children()[1].1.children()[0].0 == (INPUT_CURSOR_KIND, 0usize)
            &&& plain_text_node(
                node.children()[1].1.children()[0].1,
                Some(if i.cursor_visible { CURSOR_SHOWN@ } else { CURSOR_HIDDEN@ }),
            )
        },
    }
}

impl Element {
    /// The slot kind the element is drawn into.
    pub fn kind(&self) -> (r: u64)
        ensures
            r == element_kind(*self),
    {
        match self {
            Element::Container => CONTAINER_ELEMENT_KIND,
            Element::Text(_) => TEXT_ELEMENT_KIND,
            Element::Input(_) => INPUT_ELEMENT_KIND,
            Element::Button(_) => BUTTON_ELEMENT_KIND,
        }
    }

    /// The element drawn into a blank node.
    pub fn draw<H: Default>(&self) -> (r: Scaffold<H>)
        ensures
            drawn_as(*self, r),
    {
        let blank: Scaffold<H> = Scaffold::new();
        match self {
            Element::Container => Container.draw(blank),
            Element::Text(t) => t.draw(blank),
            Element::Button(b) => b.draw(blank),
            Element::Input(i) => {
                let r = i.draw(blank);
                proof {
                    assert(r.handlers()[0] == r.handlers().last());
                    assert(r.children()[0].1.children().len() == 0);
                }
                r
            },
        }
    }
}

/// The slot kind of an input's leading icon.
pub const INPUT_ICON_KIND: u64 = 1;
/// The slot kind of an input's value text.
pub const INPUT_VALUE_KIND: u64 = 2;
/// The slot kind of an input's cursor.
pub const INPUT_CURSOR_KIND: u64 = 3;

/// The icon an input shows before its value.
pub const INPUT_ICON: &'static str = "$";
/// The cursor in its visible half-cycle.
pub const CURSOR_SHOWN: &'static str = "_";
/// The cursor in its hidden half-cycle (a blank keeps the width steady).
pub const CURSOR_HIDDEN: &'static str = " ";

impl Container {
    /// Draws a container: it adds nothing to its node.
    pub fn draw<H>(&self, node: Scaffold<H>) -> (r: Scaffold<H>)
        ensures
            r == node,
    {
        node
    }
}

impl Text<String> {
    /// Draws the text into its node, as the node's text.
    pub fn draw<H>(&self, node: Scaffold<H>) -> (r: Scaffold<H>)
        ensures
            r.text() == Some(self.0@),
            r.flag_enabled() == node.flag_enabled(),
            r.flag_debug() == node.flag_debug(),
            r.drawn_element() == node.drawn_element(),
            r.handlers() == node.handlers(),
            r.same_structure(node),
    {
        node.content(Some(self.0.as_str()))
    }
}

impl Button {
    /// Draws the button into its node: the label is the node's text.
    pub fn draw<H>(&self, node: Scaffold<H>) -> (r: Scaffold<H>)
        ensures
            r.text() == Some(self.label@),
            r.flag_enabled() == node.flag_enabled(),
            r.flag_debug() == node.flag_debug(),
            r.drawn_element() == node.drawn_element(),
            r.handlers() == node.handlers(),
            r.same_structure(node),
    {
        node.content(Some(self.label.as_str()))
    }
}

/// What an input's value slot shows: the placeholder while the value is empty, else the
/// value.
pub open spec fn shown_value(value: Seq<char>, placeholder: Option<Seq<char>>) -> Option<Seq<char>> {
    if value.len() == 0 {
        placeholder
    } else {
        Some(value)
    }
}

impl Input<String> {
    /// The placeholder's text, if any.
    pub open spec fn placeholder_view(&self) -> Option<Seq<char>> {
        match self.placeholder {
            Some(p) => Some(p@),
            None => None,
        }
    }

    /// Draws the input into its node: a key-press handler (the default handler: the input
    /// takes no action on keys yet), then an icon slot showing `$`, then a value slot
    /// showing the value (or, while it is empty, the placeholder) with a cursor slot inside
    /// it, the cursor shown or blank as this frame's blink says. The cursor is there even
    /// while the input is empty: it says the input is ready for typing. The icon, value and
    /// cursor nodes carry no handlers.
    pub fn draw<H: Default>(&self, node: Scaffold<H>) -> (r: Scaffold<H>)
        ensures
            r.flag_enabled() == node.flag_enabled(),
            r.flag_debug() == node.flag_debug(),
            r.drawn_element() == node.drawn_element(),
            r.text() == node.text(),
            r.overlay_node() == node.overlay_node(),
            r.handlers().len() == node.handlers().len() + 1,
            r.handlers().drop_last() == node.handlers(),
            r.handlers().last().0 == KEYBOARD_EVENT_KIND,
            r.children().len() == node.children().len() + 2,
            ({
                let n = node.children().len() as int;
                let (icon, value) = (r.children()[n], r.children()[n + 1]);
                &&& r.children() == node.children().push(icon).push(value)
                &&& icon.0 == (INPUT_ICON_KIND, kind_count(node.children(), INPUT_ICON_KIND) as usize)
                &&& plain_text_node(icon.1, Some(INPUT_ICON@))
                &&& value.0 == (INPUT_VALUE_KIND, kind_count(node.children(), INPUT_VALUE_KIND) as usize)
                &&& value.1.text() == shown_value(self.value@, self.placeholder_view())
                &&& value.1.handlers().len() == 0
                &&& value.1.children().len() == 1
                &&& value.1.children()[0].0 == (INPUT_CURSOR_KIND, 0usize)
                &&& plain_text_node(
                    value.1.children()[0].1,
                    Some(if self.cursor_visible { CURSOR_SHOWN@ } else { CURSOR_HIDDEN@ }),
                )
            }),
    {
        let icon: Scaffold<H> = Scaffold::new().content(Some(INPUT_ICON));
        let shown: Option<&str> = if self.value.unicode_len() == 0 {
            match &self.placeholder {
                Some(p) => Some(p.as_str()),
                None => None,
            }
        } else {
            Some(self.value.as_str())
        };
        let glyph = if self.cursor_visible { CURSOR_SHOWN } else { CURSOR_HIDDEN };
        let cursor: Scaffold<H> = Scaffold::new().content(Some(glyph));
        let bare: Scaffold<H> = Scaffold::new().content(shown);
        let ghost bare_children = bare.children();
        let value = bare.with_child(INPUT_CURSOR_KIND, cursor);
        let keyed = node.handle(KEYBOARD_EVENT_KIND, H::default());
        let ghost before = keyed.children();
        let with_icon = keyed.with_child(INPUT_ICON_KIND, icon);
        let r = with_icon.with_child(INPUT_VALUE_KIND, value);
        proof {
            assert(bare_children.len() == 0);
            assert(kind_count(bare_children, INPUT_CURSOR_KIND) == 0);
            let after_icon = with_icon.children();
            assert(after_icon.drop_last() =~= before);
            assert(kind_count(after_icon, INPUT_VALUE_KIND) == kind_count(before, INPUT_VALUE_KIND));
            assert(r.children()[before.len() as int] == after_icon[before.len() as int]);
        }
        r
    }
}

} // verus!
