//! The scaffold: the tree that one draw call builds. Each node holds its flags, the element
//! it carries (drawn into a child of its own), its text, the event handlers it registered,
//! its children and at most one detached overlay child.
//! A child is keyed by its kind and its index among the node's children of that kind, so
//! a [`NodePath`] of such keys names "the same node" across separately built trees.

use vstd::prelude::*;

use crate::collections::{distinct_keys, has_key, key_position, lemma_position, spec_get};
use crate::element::{drawn_as, element_kind, Element};

verus! {

/// One step of a path: the kind of the child and its index among the parent's children of
/// that kind.
pub type PathStep = (u64, usize);

/// A node's identity: the steps from the root down to it.
#[derive(Debug)]
pub struct NodePath {
    steps: Vec<PathStep>,
}

impl View for NodePath {
    type V = Seq<PathStep>;

    closed spec fn view(&self) -> Seq<PathStep> {
        self.steps@
    }
}

impl NodePath {
    /// The root's path: no steps.
    pub fn root() -> (r: Self)
        ensures
            r@ == Seq::<PathStep>::empty(),
    {
        NodePath { steps: Vec::new() }
    }

    /// The path of this node's child reached by `key`.
    pub fn child(&self, key: PathStep) -> (r: Self)
        ensures
            r@ == self@.push(key),
    {
        let mut steps = self.duplicate().steps;
        steps.push(key);
        NodePath { steps }
    }

    /// A copy of this path.
    pub fn duplicate(&self) -> (r: Self)
        ensures
            r@ == self@,
    {
        let mut steps: Vec<PathStep> = Vec::new();
        let n = self.steps.len();
        let mut i: usize = 0;
        while i < n
            invariant
                n == self.steps@.len(),
                i <= n,
                steps@ == self.steps@.take(i as int),
            decreases n - i,
        {
            steps.push(self.steps[i]);
            proof {
                assert(self.steps@.take(i + 1) =~= self.steps@.take(i as int).push(self.steps@[i as int]));
            }
            i = i + 1;
        }
        proof {
            assert(self.steps@.take(n as int) =~= self.steps@);
        }
        NodePath { steps }
    }

    /// Whether this path is `prefix` or lies below it.
    pub fn starts_with(&self, prefix: &NodePath) -> (r: bool)
        ensures
            r == prefix@.is_prefix_of(self@),
    {
        let n = prefix.steps.len();
        if n > self.steps.len() {
            return false;
        }
        let mut i: usize = 0;
        while i < n
            invariant
                n == prefix.steps@.len(),
                n <= self.steps@.len(),
                i <= n,
                forall|j: int| 0 <= j < i ==> prefix.steps@[j] == self.steps@[j],
            decreases n - i,
        {
            if self.steps[i].0 != prefix.steps[i].0 || self.steps[i].1 != prefix.steps[i].1 {
                proof {
                    assert(prefix.steps@[i as int] != self.steps@.subrange(0, n as int)[i as int]);
                }
                return false;
            }
            i = i + 1;
        }
        proof {
            assert(prefix.steps@ =~= self.steps@.subrange(0, n as int));
        }
        true
    }

    /// Whether two paths name the same node.
    pub fn same_as(&self, other: &NodePath) -> (r: bool)
        ensures
            r == (self@ == other@),
    {
        let n = self.steps.len();
        if n != other.steps.len() {
            return false;
        }
        let mut i: usize = 0;
        while i < n
            invariant
                n == self.steps@.len(),
                n == other.steps@.len(),
                i <= n,
                forall|j: int| 0 <= j < i ==> self.steps@[j] == other.steps@[j],
            decreases n - i,
        {
            if self.steps[i].0 != other.steps[i].0 || self.steps[i].1 != other.steps[i].1 {
                return false;
            }
            i = i + 1;
        }
        proof {
            assert(self.steps@ =~= other.steps@);
        }
        true
    }
}

/// The kind that stands for a node's overlay in a [`NodePath`]: the overlay is kept apart
/// from the children, so it has no slot key of its own, and `(OVERLAY_KIND, 0)` reaches it.
pub const OVERLAY_KIND: u64 = 0xffff_ffff_ffff_ffff;

/// The handlers of `stack` registered for events of `kind`, in the order they were pushed.
pub open spec fn handlers_for<H>(stack: Seq<(u64, H)>, kind: u64) -> Seq<H>
    decreases stack.len(),
{
    if stack.len() == 0 {
        Seq::empty()
    } else if stack.last().0 == kind {
        handlers_for(stack.drop_last(), kind).push(stack.last().1)
    } else {
        handlers_for(stack.drop_last(), kind)
    }
}

/// The event handlers of one node, each registered for one kind of event.
pub struct EventStack<H> {
    handlers: Vec<(u64, H)>,
}

impl<H> View for EventStack<H> {
    type V = Seq<(u64, H)>;

    /// Every `(event kind, handler)` pair, in the order they were pushed.
    closed spec fn view(&self) -> Seq<(u64, H)> {
        self.handlers@
    }
}

impl<H> EventStack<H> {
    /// A stack with no handlers.
    pub fn new() -> (r: Self)
        ensures
            r@ == Seq::<(u64, H)>::empty(),
    {
        EventStack { handlers: Vec::new() }
    }

    /// Registers `handler` for events of `kind`, after those already registered.
    pub fn push(&mut self, kind: u64, handler: H)
        ensures
            final(self)@ == old(self)@.push((kind, handler)),
    {
        self.handlers.push((kind, handler));
    }

    /// The handlers to run for an event of `kind`, in the order they were pushed.
    pub fn exec(&self, kind: u64) -> (r: Vec<&H>)
        ensures
            r@.map_values(|h: &H| *h) == handlers_for(self@, kind),
    {
        let mut out: Vec<&H> = Vec::new();
        let n = self.handlers.len();
        let mut i: usize = 0;
        while i < n
            invariant
                n == self.handlers@.len(),
                i <= n,
                out@.map_values(|h: &H| *h) == handlers_for(self.handlers@.take(i as int), kind),
            decreases n - i,
        {
            let ghost before = out@.map_values(|h: &H| *h);
            proof {
                assert(self.handlers@.take(i + 1).drop_last() =~= self.handlers@.take(i as int));
            }
            if self.handlers[i].0 == kind {
                out.push(&self.handlers[i].1);
                proof {
                    assert(out@.map_values(|h: &H| *h) =~= before.push(self.handlers@[i as int].1));
                }
            }
            i = i + 1;
        }
        proof {
            assert(self.handlers@.take(n as int) =~= self.handlers@);
        }
        out
    }
}

/// Pushing a handler adds it, last, to the handlers of its own kind and leaves every other
/// kind's handlers as they were.
pub proof fn law_push_then_exec<H>(stack: Seq<(u64, H)>, kind: u64, handler: H, other: u64)
    ensures
        handlers_for(stack.push((kind, handler)), kind) == handlers_for(stack, kind).push(handler),
        other != kind ==> handlers_for(stack.push((kind, handler)), other) == handlers_for(stack, other),
{
    assert(stack.push((kind, handler)).drop_last() =~= stack);
}

/// How many entries of `slots` have a key of `kind`.
pub open spec fn kind_count<V>(slots: Seq<(PathStep, V)>, kind: u64) -> nat
    decreases slots.len(),
{
    if slots.len() == 0 {
        0
    } else {
        kind_count(slots.drop_last(), kind) + if slots.last().0.0 == kind {
            1nat
        } else {
            0nat
        }
    }
}

/// Every entry of `slots` is keyed by its kind and by the number of entries of that kind
/// before it: the children of each kind are numbered 0, 1, 2, ... in order.
pub open spec fn keyed_in_order<V>(slots: Seq<(PathStep, V)>) -> bool {
    forall|i: int|
        0 <= i < slots.len() ==> #[trigger] slots[i].0.1 == kind_count(slots.take(i), slots[i].0.0)
}

proof fn lemma_count_step<V>(slots: Seq<(PathStep, V)>, i: int, kind: u64)
    requires
        0 <= i < slots.len(),
    ensures
        kind_count(slots.take(i + 1), kind) == kind_count(slots.take(i), kind) + if slots[i].0.0
            == kind {
            1nat
        } else {
            0nat
        },
{
    assert(slots.take(i + 1).drop_last() =~= slots.take(i));
}

proof fn lemma_count_grows<V>(slots: Seq<(PathStep, V)>, i: int, j: int, kind: u64)
    requires
        0 <= i <= j <= slots.len(),
    ensures
        kind_count(slots.take(i), kind) <= kind_count(slots.take(j), kind),
    decreases j - i,
{
    if i < j {
        lemma_count_grows(slots, i, j - 1, kind);
        lemma_count_step(slots, j - 1, kind);
    }
}

/// Keys numbered in order are distinct.
proof fn lemma_keyed_distinct<V>(slots: Seq<(PathStep, V)>)
    requires
        keyed_in_order(slots),
    ensures
        distinct_keys(slots),
{
    assert forall|i: int, j: int| 0 <= i < j < slots.len() implies #[trigger] slots[i].0
        != #[trigger] slots[j].0 by {
        if slots[i].0.0 == slots[j].0.0 {
            let k = slots[i].0.0;
            lemma_count_step(slots, i, k);
            lemma_count_grows(slots, i + 1, j, k);
            assert(slots[i].0.1 == kind_count(slots.take(i), k));
            assert(slots[j].0.1 == kind_count(slots.take(j), k));
        }
    }
}

/// With keys numbered in order, the next index of a kind is not taken yet.
proof fn lemma_next_index_free<V>(slots: Seq<(PathStep, V)>, kind: u64)
    requires
        keyed_in_order(slots),
        kind_count(slots, kind) <= usize::MAX,
    ensures
        !has_key(slots, (kind, kind_count(slots, kind) as usize)),
{
    assert(slots.take(slots.len() as int) =~= slots);
    if has_key(slots, (kind, kind_count(slots, kind) as usize)) {
        let i = choose|i: int|
            0 <= i < slots.len() && #[trigger] slots[i].0 == (kind, kind_count(slots, kind) as usize);
        lemma_count_step(slots, i, kind);
        lemma_count_grows(slots, i + 1, slots.len() as int, kind);
        assert(slots[i].0.1 == kind_count(slots.take(i), kind));
    }
}

/// Appending an entry keyed by its kind and the number of earlier entries of that kind
/// keeps the keys numbered in order.
proof fn lemma_push_keyed<V>(slots: Seq<(PathStep, V)>, kind: u64, value: V)
    requires
        keyed_in_order(slots),
        kind_count(slots, kind) <= usize::MAX,
    ensures
        keyed_in_order(slots.push(((kind, kind_count(slots, kind) as usize), value))),
{
    let after = slots.push(((kind, kind_count(slots, kind) as usize), value));
    assert forall|i: int| 0 <= i < after.len() implies #[trigger] after[i].0.1 == kind_count(
        after.take(i),
        after[i].0.0,
    ) by {
        if i < slots.len() {
            assert(after.take(i) =~= slots.take(i));
        } else {
            assert(after.take(i) =~= slots);
        }
    }
}

/// A new slot of `kind` is keyed by `kind` and the number of `kind` slots before it: it is
/// found under that key, the keys stay numbered in order, and every other key still finds
/// the child it found before.
pub proof fn law_slot_found_by_kind_and_index<V>(slots: Seq<(PathStep, V)>, kind: u64, child: V, other: PathStep)
    requires
        keyed_in_order(slots),
        kind_count(slots, kind) <= usize::MAX,
    ensures
        ({
            let key = (kind, kind_count(slots, kind) as usize);
            let after = slots.push((key, child));
            &&& keyed_in_order(after)
            &&& spec_get(after, key) == Some(child)
            &&& other != key ==> spec_get(after, other) == spec_get(slots, other)
        }),
{
    let key = (kind, kind_count(slots, kind) as usize);
    let after = slots.push((key, child));
    lemma_keyed_distinct(slots);
    lemma_next_index_free(slots, kind);
    lemma_push_keyed(slots, kind, child);
    lemma_keyed_distinct(after);
    lemma_position(after, key, slots.len() as int);
    if other != key && has_key(slots, other) {
        let p = key_position(slots, other);
        assert(after[p] == slots[p]);
        lemma_position(after, other, p);
    }
    if other != key && has_key(after, other) {
        let p = key_position(after, other);
        assert(p < slots.len());
        assert(slots[p].0 == other);
    }
}

/// The index a new slot gets depends only on the earlier slots of its own kind: slots of
/// other kinds added in between, however many, do not shift it.
pub proof fn law_index_ignores_other_kinds<V>(slots: Seq<(PathStep, V)>, others: Seq<(PathStep, V)>, kind: u64)
    requires
        forall|i: int| 0 <= i < others.len() ==> #[trigger] others[i].0.0 != kind,
    ensures
        kind_count(slots + others, kind) == kind_count(slots, kind),
    decreases others.len(),
{
    if others.len() == 0 {
        assert(slots + others =~= slots);
    } else {
        let shorter = others.drop_last();
        assert forall|i: int| 0 <= i < shorter.len() implies #[trigger] shorter[i].0.0 != kind by {
            assert(shorter[i] == others[i]);
        }
        law_index_ignores_other_kinds(slots, shorter, kind);
        assert((slots + others).drop_last() =~= slots + shorter);
        assert((slots + others).last() == others.last());
    }
}

/// One node of the tree a draw call builds, with handlers of type `H`.
pub struct Scaffold<H> {
    enabled: bool,
    debug: bool,
    element: Option<Element>,
    content: Option<String>,
    events: EventStack<H>,
    slots: Vec<(PathStep, Scaffold<H>)>,
    overlay: Option<Box<Scaffold<H>>>,
}

impl<H> Scaffold<H> {
    /// The children of every node are keyed by kind and index, numbered in order.
    #[verifier::type_invariant]
    spec fn slots_keyed_in_order(self) -> bool {
        keyed_in_order(self.slots@)
    }

    /// Whether the node is enabled.
    pub closed spec fn flag_enabled(self) -> bool {
        self.enabled
    }

    /// Whether the node is drawn in debug mode.
    pub closed spec fn flag_debug(self) -> bool {
        self.debug
    }

    /// The element the node was given to carry, if any.
    pub closed spec fn drawn_element(self) -> Option<Element> {
        self.element
    }

    /// The node's text.
    pub closed spec fn text(self) -> Option<Seq<char>> {
        match self.content {
            Some(c) => Some(c@),
            None => None,
        }
    }

    /// The node's handlers, with the kind of event each was registered for.
    pub closed spec fn handlers(self) -> Seq<(u64, H)> {
        self.events@
    }

    /// The node's children with their keys, in the order they were added.
    pub closed spec fn children(self) -> Seq<(PathStep, Scaffold<H>)> {
        self.slots@
    }

    /// The node's overlay child.
    pub closed spec fn overlay_node(self) -> Option<Scaffold<H>> {
        match self.overlay {
            Some(b) => Some(*b),
            None => None,
        }
    }

    /// A node as [`Scaffold::new`] makes it: enabled, not in debug mode, no text, no
    /// handlers, no children, no overlay.
    pub open spec fn is_blank(self) -> bool {
        &&& self.flag_enabled()
        &&& !self.flag_debug()
        &&& self.drawn_element() is None
        &&& self.text() is None
        &&& self.handlers().len() == 0
        &&& self.children().len() == 0
        &&& self.overlay_node() is None
    }

    /// `self` and `other` agree on everything but their children.
    pub open spec fn same_but_children(self, other: Self) -> bool {
        &&& self.flag_enabled() == other.flag_enabled()
        &&& self.flag_debug() == other.flag_debug()
        &&& self.drawn_element() == other.drawn_element()
        &&& self.text() == other.text()
        &&& self.handlers() == other.handlers()
        &&& self.overlay_node() == other.overlay_node()
    }

    /// `self` and `other` have the same children and overlay.
    pub open spec fn same_structure(self, other: Self) -> bool {
        &&& self.children() == other.children()
        &&& self.overlay_node() == other.overlay_node()
    }

    /// A blank node.
    pub fn new() -> (r: Self)
        ensures
            r.is_blank(),
    {
        Scaffold {
            enabled: true,
            debug: false,
            element: None,
            content: None,
            events: EventStack::new(),
            slots: Vec::new(),
            overlay: None,
        }
    }

    /// The node, enabled or not: a disabled node stays in the tree, keeping its place and
    /// the keys of its siblings.
    pub fn condition(self, enabled: bool) -> (r: Self)
        ensures
            r.flag_enabled() == enabled,
            r.flag_debug() == self.flag_debug(),
            r.drawn_element() == self.drawn_element(),
            r.text() == self.text(),
            r.handlers() == self.handlers(),
            r.same_structure(self),
    {
        proof {
            use_type_invariant(&self);
        }
        let Scaffold { enabled: _, debug, element, content, events, slots, overlay } = self;
        Scaffold { enabled, debug, element, content, events, slots, overlay }
    }

    /// The node, with debug drawing on or off.
    pub fn debug(self, xray: bool) -> (r: Self)
        ensures
            r.flag_debug() == xray,
            r.flag_enabled() == self.flag_enabled(),
            r.drawn_element() == self.drawn_element(),
            r.text() == self.text(),
            r.handlers() == self.handlers(),
            r.same_structure(self),
    {
        proof {
            use_type_invariant(&self);
        }
        let Scaffold { enabled, debug: _, element, content, events, slots, overlay } = self;
        Scaffold { enabled, debug: xray, element, content, events, slots, overlay }
    }

    /// The node, with its text replaced by `content`.
    pub fn content(self, content: Option<&str>) -> (r: Self)
        ensures
            r.text() == (match content {
                Some(t) => Some(t@),
                None => None::<Seq<char>>,
            }),
            r.drawn_element() == self.drawn_element(),
            r.flag_enabled() == self.flag_enabled(),
            r.flag_debug() == self.flag_debug(),
            r.handlers() == self.handlers(),
            r.same_structure(self),
    {
        proof {
            use_type_invariant(&self);
        }
        let text = match content {
            Some(t) => Some(String::from_str(t)),
            None => None,
        };
        let Scaffold { enabled, debug, element, content: _, events, slots, overlay } = self;
        Scaffold { enabled, debug, element, content: text, events, slots, overlay }
    }

    /// The node, with `handler` registered for events of `kind` after its other handlers.
    pub fn handle(self, kind: u64, handler: H) -> (r: Self)
        ensures
            r.handlers() == self.handlers().push((kind, handler)),
            r.drawn_element() == self.drawn_element(),
            r.flag_enabled() == self.flag_enabled(),
            r.flag_debug() == self.flag_debug(),
            r.text() == self.text(),
            r.same_structure(self),
    {
        proof {
            use_type_invariant(&self);
        }
        let Scaffold { enabled, debug, element, content, mut events, slots, overlay } = self;
        events.push(kind, handler);
        Scaffold { enabled, debug, element, content, events, slots, overlay }
    }

    /// The number of children of `kind`.
    fn count_kind(&self, kind: u64) -> (r: usize)
        ensures
            r == kind_count(self.slots@, kind),
    {
        let n = self.slots.len();
        let mut count: usize = 0;
        let mut i: usize = 0;
        while i < n
            invariant
                n == self.slots@.len(),
                i <= n,
                count <= i,
                count == kind_count(self.slots@.take(i as int), kind),
            decreases n - i,
        {
            proof {
                lemma_count_step(self.slots@, i as int, kind);
            }
            if self.slots[i].0.0 == kind {
                count = count + 1;
            }
            i = i + 1;
        }
        proof {
            assert(self.slots@.take(n as int) =~= self.slots@);
        }
        count
    }

    /// The node, with one more child of `kind`: `draw_fn` draws it, starting from a blank
    /// node, and it is keyed by `kind` and the number of `kind` children before it.
    pub fn slot<F: FnOnce(Scaffold<H>) -> Scaffold<H>>(self, kind: u64, draw_fn: F) -> (r: Self)
        requires
            forall|s: Scaffold<H>| #[trigger] s.is_blank() ==> draw_fn.requires((s,)),
        ensures
            r.children().len() == self.children().len() + 1,
            r.children() == self.children().push(
                ((kind, kind_count(self.children(), kind) as usize), r.children().last().1),
            ),
            exists|s: Scaffold<H>| #[trigger] s.is_blank() && draw_fn.ensures((s,), r.children().last().1),
            r.same_but_children(self),
    {
        let blank = Scaffold::new();
        let child = draw_fn(blank);
        self.with_child(kind, child)
    }

    /// The node, with `child` added as its next child of `kind`, keyed by `kind` and the
    /// number of `kind` children before it.
    pub(crate) fn with_child(self, kind: u64, child: Scaffold<H>) -> (r: Self)
        ensures
            r.children() == self.children().push(((kind, kind_count(self.children(), kind) as usize), child)),
            r.same_but_children(self),
    {
        proof {
            use_type_invariant(&self);
        }
        let next = self.count_kind(kind);
        let Scaffold { enabled, debug, element, content, events, mut slots, overlay } = self;
        let ghost before = slots@;
        slots.push(((kind, next), child));
        proof {
            lemma_push_keyed(before, kind, child);
            assert(slots@ == before.push(((kind, kind_count(before, kind) as usize), child)));
        }
        Scaffold { enabled, debug, element, content, events, slots, overlay }
    }

    /// The node, with `draw_fn`'s drawing of a blank node as its overlay: a child drawn
    /// apart from the others, on top of them.
    pub fn overlay<F: FnOnce(Scaffold<H>) -> Scaffold<H>>(self, draw_fn: F) -> (r: Self)
        requires
            forall|s: Scaffold<H>| #[trigger] s.is_blank() ==> draw_fn.requires((s,)),
        ensures
            r.overlay_node() is Some,
            exists|s: Scaffold<H>| #[trigger] s.is_blank() && draw_fn.ensures((s,), r.overlay_node()->0),
            r.children() == self.children(),
            r.drawn_element() == self.drawn_element(),
            r.flag_enabled() == self.flag_enabled(),
            r.flag_debug() == self.flag_debug(),
            r.text() == self.text(),
            r.handlers() == self.handlers(),
    {
        proof {
            use_type_invariant(&self);
        }
        let blank = Scaffold::new();
        let drawn = draw_fn(blank);
        let Scaffold { enabled, debug, element, content, events, slots, overlay: _ } = self;
        Scaffold { enabled, debug, element, content, events, slots, overlay: Some(Box::new(drawn)) }
    }

    /// The node, carrying `element`: the element is drawn into a new child keyed by the
    /// element's kind and the number of children of that kind before it, and the node keeps
    /// the element, so that a surface can read its fields back.
    pub fn element(self, element: Element) -> (r: Self)
        where
            H: Default,
        ensures
            r.children().len() == self.children().len() + 1,
            r.children().drop_last() == self.children(),
            r.children().last().0 == (element_kind(element), kind_count(self.children(), element_kind(element)) as usize),
            drawn_as(element, r.children().last().1),
            r.drawn_element() == Some(element),
            r.flag_enabled() == self.flag_enabled(),
            r.flag_debug() == self.flag_debug(),
            r.text() == self.text(),
            r.handlers() == self.handlers(),
            r.overlay_node() == self.overlay_node(),
    {
        let kind = element.kind();
        let drawn: Scaffold<H> = element.draw();
        let with = self.with_child(kind, drawn);
        proof {
            use_type_invariant(&with);
        }
        let Scaffold { enabled, debug, element: _, content, events, slots, overlay } = with;
        let r = Scaffold { enabled, debug, element: Some(element), content, events, slots, overlay };
        proof {
            assert(r.children().drop_last() =~= self.children());
        }
        r
    }

    /// The element the node carries, if any.
    pub fn get_element(&self) -> (r: Option<&Element>)
        ensures
            match r {
                Some(e) => self.drawn_element() == Some(*e),
                None => self.drawn_element() is None,
            },
    {
        match &self.element {
            Some(e) => Some(e),
            None => None,
        }
    }

    /// The finished node.
    pub fn build(self) -> (r: Self)
        ensures
            r == self,
    {
        self
    }

    /// Whether the node is enabled.
    pub fn is_enabled(&self) -> (r: bool)
        ensures
            r == self.flag_enabled(),
    {
        self.enabled
    }

    /// Whether the node is drawn in debug mode.
    pub fn is_debug(&self) -> (r: bool)
        ensures
            r == self.flag_debug(),
    {
        self.debug
    }

    /// Turns debug drawing on or off.
    pub fn set_debug(&mut self, debug: bool)
        ensures
            final(self).flag_debug() == debug,
            final(self).flag_enabled() == old(self).flag_enabled(),
            final(self).drawn_element() == old(self).drawn_element(),
            final(self).text() == old(self).text(),
            final(self).handlers() == old(self).handlers(),
            final(self).same_structure(*old(self)),
    {
        proof {
            use_type_invariant(&*self);
        }
        self.debug = debug;
    }

    /// The node's text.
    pub fn get_content(&self) -> (r: Option<&str>)
        ensures
            match r {
                Some(t) => self.text() == Some(t@),
                None => self.text() is None,
            },
    {
        match &self.content {
            Some(c) => Some(c.as_str()),
            None => None,
        }
    }

    /// The node's handlers.
    pub fn get_handlers(&self) -> (r: &EventStack<H>)
        ensures
            r@ == self.handlers(),
    {
        &self.events
    }

    /// The node's children with their keys, in the order they were added.
    pub fn get_slots(&self) -> (r: &[(PathStep, Scaffold<H>)])
        ensures
            r@ == self.children(),
            keyed_in_order(r@),
    {
        proof {
            use_type_invariant(self);
        }
        self.slots.as_slice()
    }

    /// The node's overlay child.
    pub fn get_overlay(&self) -> (r: Option<&Scaffold<H>>)
        ensures
            match r {
                Some(o) => self.overlay_node() == Some(*o),
                None => self.overlay_node() is None,
            },
    {
        match &self.overlay {
            Some(b) => Some(&**b),
            None => None,
        }
    }
}

/// The child of `node` keyed by `key`.
pub open spec fn child_at<H>(node: Scaffold<H>, key: PathStep) -> Option<Scaffold<H>> {
    spec_get(node.children(), key)
}

/// The node one path step below `node`: its overlay for `(OVERLAY_KIND, 0)`, else the
/// child keyed by the step.
pub open spec fn step<H>(node: Scaffold<H>, key: PathStep) -> Option<Scaffold<H>> {
    if key == (OVERLAY_KIND, 0usize) {
        node.overlay_node()
    } else {
        child_at(node, key)
    }
}

/// The node that `path` reaches from `node`, step by step; `None` once a step finds
/// nothing.
pub open spec fn resolve<H>(node: Scaffold<H>, path: Seq<PathStep>) -> Option<Scaffold<H>>
    decreases path.len(),
{
    if path.len() == 0 {
        Some(node)
    } else {
        match step(node, path[0]) {
            Some(next) => resolve(next, path.drop_first()),
            None => None,
        }
    }
}

/// The children of `kind` in `slots`, each with its index, in order.
pub open spec fn slots_of_kind<V>(slots: Seq<(PathStep, V)>, kind: u64) -> Seq<(usize, V)>
    decreases slots.len(),
{
    if slots.len() == 0 {
        Seq::empty()
    } else if slots.last().0.0 == kind {
        slots_of_kind(slots.drop_last(), kind).push((slots.last().0.1, slots.last().1))
    } else {
        slots_of_kind(slots.drop_last(), kind)
    }
}

impl<H> Scaffold<H> {
    /// The child keyed by `key`.
    pub fn get_slot_by_key(&self, key: &PathStep) -> (r: Option<&Scaffold<H>>)
        ensures
            match r {
                Some(c) => child_at(*self, *key) == Some(*c),
                None => child_at(*self, *key) is None,
            },
    {
        proof {
            use_type_invariant(self);
            lemma_keyed_distinct(self.slots@);
        }
        let n = self.slots.len();
        let mut i: usize = 0;
        while i < n
            invariant
                n == self.slots@.len(),
                i <= n,
                distinct_keys(self.slots@),
                forall|j: int| 0 <= j < i ==> #[trigger] self.slots@[j].0 != *key,
            decreases n - i,
        {
            if self.slots[i].0.0 == key.0 && self.slots[i].0.1 == key.1 {
                proof {
                    lemma_position(self.slots@, *key, i as int);
                }
                return Some(&self.slots[i].1);
            }
            i = i + 1;
        }
        None
    }

    /// The child of `kind` with index `index`.
    pub fn get_slot_at(&self, kind: u64, index: usize) -> (r: Option<&Scaffold<H>>)
        ensures
            match r {
                Some(c) => child_at(*self, (kind, index)) == Some(*c),
                None => child_at(*self, (kind, index)) is None,
            },
    {
        self.get_slot_by_key(&(kind, index))
    }

    /// The children of `kind`, each with its index, in the order they were added.
    pub fn get_slot(&self, kind: u64) -> (r: Vec<(usize, &Scaffold<H>)>)
        ensures
            r@.map_values(|e: (usize, &Scaffold<H>)| (e.0, *e.1)) == slots_of_kind(self.children(), kind),
    {
        let mut out: Vec<(usize, &Scaffold<H>)> = Vec::new();
        let n = self.slots.len();
        let mut i: usize = 0;
        while i < n
            invariant
                n == self.slots@.len(),
                i <= n,
                out@.map_values(|e: (usize, &Scaffold<H>)| (e.0, *e.1)) == slots_of_kind(self.slots@.take(i as int), kind),
            decreases n - i,
        {
            let ghost before = out@.map_values(|e: (usize, &Scaffold<H>)| (e.0, *e.1));
            proof {
                assert(self.slots@.take(i + 1).drop_last() =~= self.slots@.take(i as int));
            }
            if self.slots[i].0.0 == kind {
                out.push((self.slots[i].0.1, &self.slots[i].1));
                proof {
                    assert(out@.map_values(|e: (usize, &Scaffold<H>)| (e.0, *e.1)) =~= before.push(
                        (self.slots@[i as int].0.1, self.slots@[i as int].1),
                    ));
                }
            }
            i = i + 1;
        }
        proof {
            assert(self.slots@.take(n as int) =~= self.slots@);
        }
        out
    }

    /// The node that `path` reaches from this one, or `None` when it reaches nothing (the
    /// tree changed shape since the path was taken).
    pub fn get_at_path(&self, path: &NodePath) -> (r: Option<&Scaffold<H>>)
        ensures
            match r {
                Some(n) => resolve(*self, path@) == Some(*n),
                None => resolve(*self, path@) is None,
            },
    {
        let steps = &path.steps;
        let n = steps.len();
        let mut node: &Scaffold<H> = self;
        let mut i: usize = 0;
        proof {
            assert(steps@.skip(0) =~= steps@);
        }
        while i < n
            invariant
                n == steps@.len(),
                steps@ == path@,
                i <= n,
                resolve(*self, steps@) == resolve(*node, steps@.skip(i as int)),
            decreases n - i,
        {
            proof {
                assert(steps@.skip(i as int)[0] == steps@[i as int]);
                assert(steps@.skip(i as int).drop_first() =~= steps@.skip(i + 1));
            }
            let key = steps[i];
            let next = if key.0 == OVERLAY_KIND && key.1 == 0 {
                node.get_overlay()
            } else {
                node.get_slot_by_key(&key)
            };
            match next {
                Some(found) => {
                    node = found;
                },
                None => {
                    return None;
                },
            }
            i = i + 1;
        }
        proof {
            assert(steps@.skip(n as int) =~= Seq::<PathStep>::empty());
        }
        Some(node)
    }
}

/// The empty path reaches the node it starts from.
pub proof fn law_root_path_reaches_self<H>(node: Scaffold<H>)
    ensures
        resolve(node, Seq::<PathStep>::empty()) == Some(node),
{
}

/// A path one step longer reaches what that step finds below the node the shorter path
/// reaches, and nothing when the shorter path reaches nothing.
pub proof fn law_child_path_extends<H>(node: Scaffold<H>, path: Seq<PathStep>, key: PathStep)
    ensures
        resolve(node, path.push(key)) == (match resolve(node, path) {
            Some(n) => step(n, key),
            None => None,
        }),
    decreases path.len(),
{
    if path.len() == 0 {
        assert(path.push(key).drop_first() =~= Seq::<PathStep>::empty());
        match step(node, key) {
            Some(c) => {
                assert(resolve(c, Seq::<PathStep>::empty()) == Some(c));
            },
            None => {},
        }
    } else {
        assert(path.push(key)[0] == path[0]);
        assert(path.push(key).drop_first() =~= path.drop_first().push(key));
        match step(node, path[0]) {
            Some(next) => {
                law_child_path_extends(next, path.drop_first(), key);
            },
            None => {},
        }
    }
}

/// The path of one overlay step reaches the node's overlay.
pub proof fn law_overlay_step_reaches_overlay<H>(node: Scaffold<H>)
    ensures
        resolve(node, seq![(OVERLAY_KIND, 0usize)]) == node.overlay_node(),
{
    let path = seq![(OVERLAY_KIND, 0usize)];
    assert(path.drop_first() =~= Seq::<PathStep>::empty());
    match node.overlay_node() {
        Some(o) => {
            assert(resolve(o, path.drop_first()) == Some(o));
        },
        None => {},
    }
}

/// The children of one kind carry the indices 0, 1, 2, ... in the order they were added,
/// and there are as many as that kind's count.
pub proof fn law_kind_indices_count_up<V>(slots: Seq<(PathStep, V)>, kind: u64)
    requires
        keyed_in_order(slots),
    ensures
        slots_of_kind(slots, kind).len() == kind_count(slots, kind),
        forall|j: int|
            0 <= j < slots_of_kind(slots, kind).len() ==> #[trigger] slots_of_kind(slots, kind)[j].0 == j,
    decreases slots.len(),
{
    if slots.len() > 0 {
        let shorter = slots.drop_last();
        assert forall|i: int| 0 <= i < shorter.len() implies #[trigger] shorter[i].0.1 == kind_count(
            shorter.take(i),
            shorter[i].0.0,
        ) by {
            assert(shorter.take(i) =~= slots.take(i));
            assert(shorter[i] == slots[i]);
        }
        law_kind_indices_count_up(shorter, kind);
        let last = slots.len() - 1;
        assert(slots.take(last) =~= shorter);
        assert(slots[last] == slots.last());
    }
}

/// The handlers an event of `kind` runs when dispatched to `node`: first, child by child in
/// order, those its children's subtrees run, then the node's own for `kind`. The overlay is
/// not visited.
pub closed spec fn dispatch_order<H>(node: Scaffold<H>, kind: u64) -> Seq<H>
    decreases node, 1int,
{
    dispatch_in(node.slots@, kind) + handlers_for(node.events.handlers@, kind)
}

/// The handlers an event of `kind` runs in the subtrees of `slots`, one subtree after
/// another.
pub closed spec fn dispatch_in<H>(slots: Seq<(PathStep, Scaffold<H>)>, kind: u64) -> Seq<H>
    decreases slots, 0int,
{
    if slots.len() == 0 {
        Seq::empty()
    } else {
        dispatch_order(slots[0].1, kind) + dispatch_in(slots.drop_first(), kind)
    }
}

impl<H> Scaffold<H> {
    /// The handlers that an event of `kind` sent to this node runs, in the order they run:
    /// the children's subtrees first, in order, then this node's own.
    pub fn dispatch(&self, kind: u64) -> (r: Vec<&H>)
        ensures
            r@.map_values(|h: &H| *h) == dispatch_order(*self, kind),
        decreases self,
    {
        let mut out: Vec<&H> = Vec::new();
        let kids = &self.slots;
        let n = kids.len();
        let mut i: usize = 0;
        proof {
            assert(kids@.skip(0) =~= kids@);
            assert(out@.map_values(|h: &H| *h) =~= Seq::<H>::empty());
        }
        while i < n
            invariant
                n == kids@.len(),
                i <= n,
                kids == &self.slots,
                dispatch_in(kids@, kind) == out@.map_values(|h: &H| *h) + dispatch_in(kids@.skip(i as int), kind),
            decreases n - i,
        {
            proof {
                assert(kids@.skip(i as int)[0] == kids@[i as int]);
                assert(kids@.skip(i as int).drop_first() =~= kids@.skip(i + 1));
                assert(decreases_to!(*self => self.slots@[i as int].1));
            }
            let ghost before = out@.map_values(|h: &H| *h);
            let mut sub = kids[i].1.dispatch(kind);
            let ghost sub_view = sub@.map_values(|h: &H| *h);
            out.append(&mut sub);
            proof {
                assert(out@.map_values(|h: &H| *h) =~= before + sub_view);
                assert(before + dispatch_in(kids@.skip(i as int), kind) =~= before + sub_view
                    + dispatch_in(kids@.skip(i + 1), kind));
            }
            i = i + 1;
        }
        proof {
            assert(dispatch_in(kids@.skip(n as int), kind) =~= Seq::<H>::empty()) by {
                assert(kids@.skip(n as int).len() == 0);
            }
        }
        let ghost collected = out@.map_values(|h: &H| *h);
        let mut own = self.events.exec(kind);
        let ghost own_view = own@.map_values(|h: &H| *h);
        out.append(&mut own);
        proof {
            assert(out@.map_values(|h: &H| *h) =~= collected + own_view);
            assert(collected + Seq::<H>::empty() =~= collected);
        }
        out
    }
}

/// Dispatching to a node with no children runs exactly its own handlers for the event's
/// kind, in the order they were registered.
pub proof fn law_leaf_dispatch_runs_own_handlers<H>(node: Scaffold<H>, kind: u64)
    requires
        node.children().len() == 0,
    ensures
        dispatch_order(node, kind) == handlers_for(node.handlers(), kind),
{
    assert(dispatch_order(node, kind) =~= handlers_for(node.handlers(), kind));
}

/// A child's handlers run before its parent's own: dispatching to a node whose only child
/// is `child` runs the child's subtree, then the node's own handlers.
pub proof fn law_children_run_before_parent<H>(node: Scaffold<H>, kind: u64)
    requires
        node.children().len() == 1,
    ensures
        dispatch_order(node, kind) == dispatch_order(node.children()[0].1, kind) + handlers_for(
            node.handlers(),
            kind,
        ),
{
    let kids = node.children();
    assert(kids.drop_first().len() == 0);
    assert(dispatch_in(kids.drop_first(), kind) == Seq::<H>::empty());
    assert(dispatch_in(kids, kind) =~= dispatch_order(kids[0].1, kind));
}

/// The handlers an event of `kind` runs in the subtrees of `slots`, one subtree after
/// another.
pub open spec fn dispatch_each<H>(slots: Seq<(PathStep, Scaffold<H>)>, kind: u64) -> Seq<H>
    decreases slots.len(),
{
    if slots.len() == 0 {
        Seq::empty()
    } else {
        dispatch_order(slots[0].1, kind) + dispatch_each(slots.drop_first(), kind)
    }
}

proof fn lemma_dispatch_in_each<H>(slots: Seq<(PathStep, Scaffold<H>)>, kind: u64)
    ensures
        dispatch_in(slots, kind) == dispatch_each(slots, kind),
    decreases slots.len(),
{
    if slots.len() > 0 {
        lemma_dispatch_in_each(slots.drop_first(), kind);
    }
}

/// Dispatching to any node runs, child by child in order, the handlers of each child's
/// subtree, then the node's own handlers for the event's kind.
pub proof fn law_dispatch_children_then_own<H>(node: Scaffold<H>, kind: u64)
    ensures
        dispatch_order(node, kind) == dispatch_each(node.children(), kind) + handlers_for(node.handlers(), kind),
{
    lemma_dispatch_in_each(node.children(), kind);
}

/// Subtrees that run nothing for `kind` add nothing: the event runs no handler of theirs.
pub proof fn law_silent_subtrees_add_nothing<H>(slots: Seq<(PathStep, Scaffold<H>)>, kind: u64)
    requires
        forall|i: int| 0 <= i < slots.len() ==> dispatch_order(#[trigger] slots[i].1, kind) == Seq::<H>::empty(),
    ensures
        dispatch_each(slots, kind) == Seq::<H>::empty(),
    decreases slots.len(),
{
    if slots.len() > 0 {
        let rest = slots.drop_first();
        assert forall|i: int| 0 <= i < rest.len() implies dispatch_order(#[trigger] rest[i].1, kind) == Seq::<
            H,
        >::empty() by {
            assert(rest[i] == slots[i + 1]);
        }
        law_silent_subtrees_add_nothing(rest, kind);
        assert(dispatch_order(slots[0].1, kind) == Seq::<H>::empty());
        assert(Seq::<H>::empty() + Seq::<H>::empty() =~= Seq::<H>::empty());
    }
}

/// Dispatching to a node whose children's subtrees run nothing for the event's kind runs
/// exactly the node's own handlers for that kind, whatever the number of children.
pub proof fn law_silent_children_leave_own_handlers<H>(node: Scaffold<H>, kind: u64)
    requires
        forall|i: int|
            0 <= i < node.children().len() ==> dispatch_order(#[trigger] node.children()[i].1, kind)
                == Seq::<H>::empty(),
    ensures
        dispatch_order(node, kind) == handlers_for(node.handlers(), kind),
{
    law_dispatch_children_then_own(node, kind);
    law_silent_subtrees_add_nothing(node.children(), kind);
    assert(Seq::<H>::empty() + handlers_for(node.handlers(), kind) =~= handlers_for(node.handlers(), kind));
}

/// The new slot of `kind` is reached by the one-step path of its key.
pub proof fn law_new_slot_reached_by_its_path<H>(before: Scaffold<H>, after: Scaffold<H>, kind: u64)
    requires
        keyed_in_order(before.children()),
        kind_count(before.children(), kind) <= usize::MAX,
        kind != OVERLAY_KIND,
        after.children().len() == before.children().len() + 1,
        after.children() == before.children().push(
            ((kind, kind_count(before.children(), kind) as usize), after.children().last().1),
        ),
    ensures
        resolve(after, seq![(kind, kind_count(before.children(), kind) as usize)]) == Some(
            after.children().last().1,
        ),
{
    let key = (kind, kind_count(before.children(), kind) as usize);
    let c = after.children().last().1;
    law_slot_found_by_kind_and_index(before.children(), kind, c, key);
    let path = seq![key];
    assert(path.drop_first() =~= Seq::<PathStep>::empty());
    assert(step(after, key) == Some(c));
    assert(resolve(c, path.drop_first()) == Some(c));
}

} // verus!
