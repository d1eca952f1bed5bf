//! Anvil's terminal UI decisions: transcript scrolling, task status cycling, diff-line
//! coloring, the inspect subpages, and reading persisted rows back.

use vstd::prelude::*;
use vstd::string::*;

use std::collections::VecDeque;

use crate::history::TaskRow;
use crate::text::{chars_of, text_eq};

verus! {

broadcast use {vstd::string::group_string_axioms, vstd::std_specs::vecdeque::group_vec_dequeue_axioms};

/// Marks a window that should take focus once it exists.
pub struct FocusPending;

/// How far up the transcript the user has scrolled.
#[derive(Clone, Copy, Debug, PartialEq, Eq, Structural)]
pub enum ScrollState {
    /// Always shows the bottom of the transcript, tracking new messages.
    Following,
    /// Pinned at a fixed row offset from the top.
    Pinned(u16),
}

impl Default for ScrollState {
    fn default() -> (r: Self)
        ensures
            r == ScrollState::Following,
    {
        ScrollState::Following
    }
}

/// The offset a scroll state shows, `natural_offset` being where `Following` resolves to.
pub open spec fn shown_offset(scroll: ScrollState, natural_offset: u16) -> u16 {
    match scroll {
        ScrollState::Following => natural_offset,
        ScrollState::Pinned(offset) => offset,
    }
}

/// The state after scrolling up by `step` rows: pinned `step` rows above what was shown,
/// never above the top.
pub open spec fn spec_scroll_up(scroll: ScrollState, natural_offset: u16, step: u16) -> ScrollState {
    let current = shown_offset(scroll, natural_offset);
    ScrollState::Pinned(if current >= step { (current - step) as u16 } else { 0 })
}

/// The state after scrolling down by `step` rows: back to following once that reaches or
/// passes the bottom; nothing changes while already following.
pub open spec fn spec_scroll_down(scroll: ScrollState, natural_offset: u16, step: u16) -> ScrollState {
    match scroll {
        ScrollState::Pinned(offset) => {
            let next = if offset + step > u16::MAX { u16::MAX } else { (offset + step) as u16 };
            if next >= natural_offset {
                ScrollState::Following
            } else {
                ScrollState::Pinned(next)
            }
        },
        ScrollState::Following => ScrollState::Following,
    }
}

/// Scrolls up (back through history) by `step` rows from wherever the transcript is.
pub fn scroll_up(scroll: &mut ScrollState, natural_offset: u16, step: u16)
    ensures
        *final(scroll) == spec_scroll_up(*old(scroll), natural_offset, step),
{
    let current = match *scroll {
        ScrollState::Following => natural_offset,
        ScrollState::Pinned(offset) => offset,
    };
    *scroll = ScrollState::Pinned(if current >= step { current - step } else { 0 });
}

/// Scrolls down (toward live) by `step` rows.
pub fn scroll_down(scroll: &mut ScrollState, natural_offset: u16, step: u16)
    ensures
        *final(scroll) == spec_scroll_down(*old(scroll), natural_offset, step),
{
    if let ScrollState::Pinned(offset) = *scroll {
        let next = if offset > u16::MAX - step { u16::MAX } else { offset + step };
        *scroll = if next >= natural_offset {
            ScrollState::Following
        } else {
            ScrollState::Pinned(next)
        };
    }
}

/// Scrolling up and then back down by the same step, starting from the live bottom,
/// returns to following the live bottom.
pub proof fn law_scroll_up_then_down(natural_offset: u16, step: u16)
    ensures
        spec_scroll_down(
            spec_scroll_up(ScrollState::Following, natural_offset, step),
            natural_offset,
            step,
        ) == ScrollState::Following,
{
}

/// One screen of the inspect page.
#[derive(Clone, Copy, Debug, PartialEq, Eq, Structural)]
pub enum InspectSubpage {
    Session,
    Persistence,
}

impl InspectSubpage {
    /// The subpages in the order Left/Right cycles through them.
    pub fn all() -> (r: [InspectSubpage; 2])
        ensures
            r@ == seq![InspectSubpage::Session, InspectSubpage::Persistence],
    {
        [InspectSubpage::Session, InspectSubpage::Persistence]
    }

    /// The subpage's tab title.
    pub fn title(self) -> (r: &'static str)
        ensures
            r@ == (match self {
                InspectSubpage::Session => "Session"@,
                InspectSubpage::Persistence => "Persistence"@,
            }),
    {
        match self {
            InspectSubpage::Session => "Session",
            InspectSubpage::Persistence => "Persistence",
        }
    }
}

/// The statuses a task cycles through, in order.
pub open spec fn status_cycle() -> Seq<Seq<char>> {
    seq!["pending"@, "running"@, "done"@]
}

/// Where `status` sits in the cycle; an unrecognized status counts as `pending`.
pub open spec fn status_index(status: Seq<char>) -> int {
    if status == "running"@ {
        1
    } else if status == "done"@ {
        2
    } else {
        0
    }
}

/// The status after `status`, going forward or backward and wrapping at both ends.
pub open spec fn next_status(status: Seq<char>, forward: bool) -> Seq<char> {
    let i = status_index(status);
    status_cycle()[if forward { (i + 1) % 3 } else { (i + 2) % 3 }]
}

/// Moves the selected task's status one step through pending → running → done
/// (`forward`) or back, wrapping at both ends. Returns whether a task changed; nothing
/// changes when no task is selected or the selection is stale.
pub fn cycle_task_status(tasks: &mut Vec<TaskRow>, selected: Option<usize>, forward: bool) -> (r: bool)
    ensures
        match selected {
            Some(i) if i < old(tasks)@.len() => {
                &&& r
                &&& final(tasks)@.len() == old(tasks)@.len()
                &&& final(tasks)@[i as int].label == old(tasks)@[i as int].label
                &&& final(tasks)@[i as int].status@ == next_status(old(tasks)@[i as int].status@, forward)
                &&& forall|j: int| 0 <= j < old(tasks)@.len() && j != i ==> final(tasks)@[j] == old(tasks)@[j]
            },
            _ => !r && final(tasks)@ == old(tasks)@,
        },
{
    let i = match selected {
        Some(i) => i,
        None => return false,
    };
    if i >= tasks.len() {
        return false;
    }
    let current: usize = if text_eq(tasks[i].status.as_str(), "running") {
        1
    } else if text_eq(tasks[i].status.as_str(), "done") {
        2
    } else {
        0
    };
    let next = if forward { (current + 1) % 3 } else { (current + 2) % 3 };
    let status = if next == 0 {
        "pending"
    } else if next == 1 {
        "running"
    } else {
        "done"
    };
    tasks[i].status = status.to_owned();
    true
}

/// How a tool output line is colored.
#[derive(Clone, Copy, Debug, PartialEq, Eq, Structural)]
pub enum DiffLine {
    /// A `-` line: a removal.
    Removed,
    /// A `+` line: an addition.
    Added,
    /// Anything else: plain output.
    Plain,
}

/// A `-`/`+` prefixed line reads as a diff removal/addition; anything else is plain.
/// The text shown is the line itself in every case.
pub fn diff_color(line: &str) -> (r: (DiffLine, String))
    ensures
        r.1@ == line@,
        r.0 == (if line@.len() > 0 && line@[0] == '-' {
            DiffLine::Removed
        } else if line@.len() > 0 && line@[0] == '+' {
            DiffLine::Added
        } else {
            DiffLine::Plain
        }),
{
    let n = line.unicode_len();
    let kind = if n > 0 && line.get_char(0) == '-' {
        DiffLine::Removed
    } else if n > 0 && line.get_char(0) == '+' {
        DiffLine::Added
    } else {
        DiffLine::Plain
    };
    (kind, line.to_owned())
}

/// The kind of a stored transcript row.
#[derive(Clone, Copy, Debug, PartialEq, Eq, Structural)]
pub enum StoredKind {
    User,
    Assistant,
    Tool,
}

/// Reads a stored row's `kind` column; an unknown kind is skipped on load.
pub fn stored_kind(kind: &str) -> (r: Option<StoredKind>)
    ensures
        r == (if kind@ == "user"@ {
            Some(StoredKind::User)
        } else if kind@ == "assistant"@ {
            Some(StoredKind::Assistant)
        } else if kind@ == "tool"@ {
            Some(StoredKind::Tool)
        } else {
            None
        }),
{
    if text_eq(kind, "user") {
        Some(StoredKind::User)
    } else if text_eq(kind, "assistant") {
        Some(StoredKind::Assistant)
    } else if text_eq(kind, "tool") {
        Some(StoredKind::Tool)
    } else {
        None
    }
}

/// The overlay bounds a stored row holds, each column narrowed to `u16` as stored.
pub fn overlay_bounds_from_row(x: i64, y: i64, width: i64, height: i64) -> (r: (u16, u16, u16, u16))
    ensures
        r == (x as u16, y as u16, width as u16, height as u16),
{
    (x as u16, y as u16, width as u16, height as u16)
}

/// Whether the welcome overview shows: yes for an identity with no stored setting yet,
/// otherwise whether the stored flag is nonzero.
pub fn show_welcome_from_row(stored: Option<i64>) -> (r: bool)
    ensures
        r == (match stored {
            Some(v) => v != 0,
            None => true,
        }),
{
    match stored {
        Some(v) => v != 0,
        None => true,
    }
}

/// The overlay's position and size, in terminal cells.
#[derive(Clone, Copy, Debug, PartialEq, Eq, Structural)]
pub struct OverlayBounds {
    pub x: u16,
    pub y: u16,
    pub width: u16,
    pub height: u16,
}

/// What is known about the floating overlay's position between frames: the last position
/// seen, when it last changed (in milliseconds), and the last position sent to be saved.
#[derive(Clone, Copy, Debug, PartialEq, Eq, Structural)]
pub struct OverlaySync {
    pub seen: Option<OverlayBounds>,
    pub changed_at: Option<u64>,
    pub persisted: Option<OverlayBounds>,
}

/// One frame of the overlay-saving rule: from the state, the overlay's current position,
/// the time, the settling delay and whether a writer is available, to the new state and
/// the position to save, if any. A position is saved once it has sat unchanged for the
/// delay, and only if it differs from the last one sent.
pub open spec fn spec_overlay_step(
    state: OverlaySync,
    current: Option<OverlayBounds>,
    now: u64,
    debounce: u64,
    can_send: bool,
) -> (OverlaySync, Option<OverlayBounds>) {
    let s1 = if state.seen != current {
        OverlaySync { seen: current, changed_at: Some(now), persisted: state.persisted }
    } else {
        state
    };
    match current {
        None => (s1, None),
        Some(bounds) => {
            let settled = match s1.changed_at {
                Some(at) => (if now >= at { now - at } else { 0 }) >= debounce,
                None => false,
            };
            if s1.persisted == Some(bounds) || !settled || !can_send {
                (s1, None)
            } else {
                (OverlaySync { seen: s1.seen, changed_at: s1.changed_at, persisted: Some(bounds) }, Some(bounds))
            }
        },
    }
}

impl OverlaySync {
    /// Nothing seen or saved yet.
    pub fn new() -> (r: Self)
        ensures
            r == (OverlaySync { seen: None, changed_at: None, persisted: None }),
    {
        OverlaySync { seen: None, changed_at: None, persisted: None }
    }

    /// Takes in this frame's overlay position; returns the position to save now, if any
    /// (it is then recorded as sent).
    pub fn step(&mut self, current: Option<OverlayBounds>, now: u64, debounce: u64, can_send: bool) -> (r: Option<
        OverlayBounds,
    >)
        ensures
            (*final(self), r) == spec_overlay_step(*old(self), current, now, debounce, can_send),
    {
        if self.seen != current {
            self.seen = current;
            self.changed_at = Some(now);
        }
        match current {
            None => None,
            Some(bounds) => {
                let settled = match self.changed_at {
                    Some(at) => now.saturating_sub(at) >= debounce,
                    None => false,
                };
                if self.persisted == Some(bounds) || !settled || !can_send {
                    None
                } else {
                    self.persisted = Some(bounds);
                    Some(bounds)
                }
            },
        }
    }

    /// A save of `bounds` failed: forget that it was sent, unless a newer position was
    /// sent since, so that the next settled position is tried again.
    pub fn save_failed(&mut self, bounds: OverlayBounds)
        ensures
            final(self).seen == old(self).seen,
            final(self).changed_at == old(self).changed_at,
            final(self).persisted == (if old(self).persisted == Some(bounds) {
                None
            } else {
                old(self).persisted
            }),
    {
        if self.persisted == Some(bounds) {
            self.persisted = None;
        }
    }
}

/// A settled position is saved once: right after it was saved, the same position on a
/// later frame saves nothing.
pub proof fn law_settled_position_saved_once(
    state: OverlaySync,
    bounds: OverlayBounds,
    now: u64,
    later: u64,
    debounce: u64,
    can_send: bool,
)
    ensures
        ({
            let (after, saved) = spec_overlay_step(state, Some(bounds), now, debounce, can_send);
            saved is Some ==> spec_overlay_step(after, Some(bounds), later, debounce, true).1 is None
        }),
{
}

/// A position still moving is not saved: the frame on which it changes saves nothing
/// unless the settling delay is zero.
pub proof fn law_moving_position_not_saved(state: OverlaySync, bounds: OverlayBounds, now: u64, debounce: u64, can_send: bool)
    requires
        state.seen != Some(bounds),
        debounce > 0,
    ensures
        spec_overlay_step(state, Some(bounds), now, debounce, can_send).1 is None,
{
}

/// The frame times within the last second before `now`, from the front: older ones are
/// dropped until one is recent enough.
pub open spec fn drop_stale(times: Seq<u64>, now: u64, window: u64) -> Seq<u64>
    decreases times.len(),
{
    if times.len() > 0 && (if now >= times[0] { now - times[0] } else { 0 }) > window {
        drop_stale(times.drop_first(), now, window)
    } else {
        times
    }
}

/// Recent frame times, for the frames-per-second readout.
pub struct FrameTimes {
    times: VecDeque<u64>,
}

impl FrameTimes {
    /// The recorded times, oldest first.
    pub closed spec fn times(&self) -> Seq<u64> {
        self.times@
    }

    /// No frames yet.
    pub fn new() -> (r: Self)
        ensures
            r.times() == Seq::<u64>::empty(),
    {
        FrameTimes { times: VecDeque::new() }
    }

    /// Records a frame drawn at `now` (milliseconds) and returns how many frames were drawn
    /// within the last second: older times are dropped from the front.
    pub fn record(&mut self, now: u64) -> (r: usize)
        requires
            old(self).times().len() < usize::MAX,
        ensures
            final(self).times() == drop_stale(old(self).times().push(now), now, 1000),
            r == final(self).times().len(),
    {
        self.times.push_back(now);
        let ghost start = self.times@;
        loop
            invariant
                drop_stale(start, now, 1000) == drop_stale(self.times@, now, 1000),
            ensures
                self.times@ == drop_stale(start, now, 1000),
            decreases self.times@.len(),
        {
            if self.times.len() == 0 {
                break;
            }
            let front = self.times[0];
            if now.saturating_sub(front) > 1000 {
                let _ = self.times.pop_front();
            } else {
                break;
            }
        }
        self.times.len()
    }
}

} // verus!
