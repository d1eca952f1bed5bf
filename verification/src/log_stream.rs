//! The in-process log that the terminal UI shows: a bounded queue of formatted event lines
//! (oldest dropped first), the event-field formatting that builds each line, and the
//! reference counts of open spans.

use vstd::prelude::*;
use vstd::string::*;
use std::collections::VecDeque;

use crate::collections::{spec_get, spec_insert, spec_remove, OrderedMap};
use crate::history::{join_with, lemma_join_push};
use crate::text::{push_char, text_eq};

verus! {

broadcast use {vstd::string::group_string_axioms, vstd::std_specs::vecdeque::group_vec_dequeue_axioms};

/// An event's severity, from most to least severe.
#[derive(Clone, Copy, PartialEq, Eq, Structural, Debug)]
pub enum Level {
    Error,
    Warn,
    Info,
    Debug,
    Trace,
}

/// The three-letter tag a line starts with for each level.
pub open spec fn level_tag_text(level: Level) -> Seq<char> {
    match level {
        Level::Error => seq!['E', 'R', 'R'],
        Level::Warn => seq!['W', 'R', 'N'],
        Level::Info => seq!['I', 'N', 'F'],
        Level::Debug => seq!['D', 'B', 'G'],
        Level::Trace => seq!['T', 'R', 'C'],
    }
}

/// The tag shown for `level`.
pub fn level_tag(level: Level) -> (r: String)
    ensures
        r@ == level_tag_text(level),
{
    let (a, b, c) = match level {
        Level::Error => ('E', 'R', 'R'),
        Level::Warn => ('W', 'R', 'N'),
        Level::Info => ('I', 'N', 'F'),
        Level::Debug => ('D', 'B', 'G'),
        Level::Trace => ('T', 'R', 'C'),
    };
    let mut out = String::new();
    push_char(&mut out, a);
    push_char(&mut out, b);
    push_char(&mut out, c);
    proof {
        assert(out@ =~= level_tag_text(level));
    }
    out
}

/// One log line: the level's tag, the event's target and its recorded fields, separated by
/// single spaces.
pub open spec fn entry_text(level: Level, target: Seq<char>, message: Seq<char>) -> Seq<char> {
    level_tag_text(level) + seq![' '] + target + seq![' '] + message
}

/// Formats one event as a log line.
pub fn format_entry(level: Level, target: &str, message: &str) -> (r: String)
    ensures
        r@ == entry_text(level, target@, message@),
{
    let mut out = level_tag(level);
    push_char(&mut out, ' ');
    out.append(target);
    push_char(&mut out, ' ');
    out.append(message);
    out
}

/// What recording one field adds to an event's text: the `message` field's value as is,
/// any other field as `" name: value"`.
pub open spec fn field_text(name: Seq<char>, value: Seq<char>) -> Seq<char> {
    if name == seq!['m', 'e', 's', 's', 'a', 'g', 'e'] {
        value
    } else {
        seq![' '] + name + seq![':', ' '] + value
    }
}

/// Collects an event's fields into the text of its log line.
pub struct EventFieldVisitor {
    pub message: String,
}

impl EventFieldVisitor {
    /// A visitor with nothing recorded yet.
    pub fn new() -> (r: Self)
        ensures
            r.message@ == Seq::<char>::empty(),
    {
        EventFieldVisitor { message: String::new() }
    }

    /// Records one field, given its name and the `Debug` rendering of its value.
    pub fn record_debug(&mut self, name: &str, value: &str)
        ensures
            final(self).message@ == old(self).message@ + field_text(name@, value@),
    {
        let label = "message";
        proof {
            reveal_strlit("message");
            assert(label@ =~= seq!['m', 'e', 's', 's', 'a', 'g', 'e']);
        }
        if text_eq(name, label) {
            self.message.append(value);
        } else {
            push_char(&mut self.message, ' ');
            self.message.append(name);
            push_char(&mut self.message, ':');
            push_char(&mut self.message, ' ');
            self.message.append(value);
            proof {
                assert(self.message@ =~= old(self).message@ + field_text(name@, value@));
            }
        }
    }
}

/// The last `rows` items of `lines` (all of them when there are fewer).
pub open spec fn last_rows<A>(lines: Seq<A>, rows: nat) -> Seq<A> {
    if lines.len() <= rows {
        lines
    } else {
        lines.skip(lines.len() - rows)
    }
}

/// How many lines the stream keeps: its capacity, and at least one.
pub open spec fn kept_lines(capacity: usize) -> nat {
    if capacity == 0 {
        1
    } else {
        capacity as nat
    }
}

/// The lines after one more is logged: the new line at the end, the oldest dropped when
/// the stream was full.
pub open spec fn spec_push_entry(lines: Seq<Seq<char>>, capacity: usize, line: Seq<char>) -> Seq<Seq<char>> {
    if lines.len() >= kept_lines(capacity) {
        lines.drop_first().push(line)
    } else {
        lines.push(line)
    }
}

/// Logging keeps exactly the latest lines: a stream holding the latest `k` lines of what
/// was logged, `k` at most what it keeps, holds the latest lines of that history plus the
/// new line after one more is logged.
pub proof fn law_stream_keeps_latest(history: Seq<Seq<char>>, lines: Seq<Seq<char>>, capacity: usize, line: Seq<char>)
    requires
        lines.len() <= kept_lines(capacity),
        lines == last_rows(history, lines.len()),
        lines.len() == history.len() || lines.len() == kept_lines(capacity),
    ensures
        spec_push_entry(lines, capacity, line) == last_rows(history.push(line), kept_lines(capacity)),
{
    let k = kept_lines(capacity);
    let h = history.push(line);
    if lines.len() >= k {
        assert(lines.len() == k);
        assert(history.len() >= k);
        assert(lines.drop_first().push(line) =~= h.skip(h.len() - k));
    } else {
        assert(lines.len() == history.len());
        assert(lines =~= history);
        assert(h.len() <= k);
    }
}

/// A bounded stream of formatted log lines, oldest first.
pub struct LogStream {
    entries: VecDeque<String>,
    capacity: usize,
}

impl LogStream {
    /// The lines held, oldest first.
    pub closed spec fn lines(&self) -> Seq<Seq<char>> {
        self.entries@.map_values(|l: String| l@)
    }

    /// How many lines the stream was made to hold.
    pub closed spec fn limit(&self) -> usize {
        self.capacity
    }

    /// The stream never holds more lines than it keeps.
    pub closed spec fn wf(&self) -> bool {
        self.entries@.len() <= kept_lines(self.capacity)
    }

    /// An empty stream that keeps the latest `capacity` lines.
    pub fn with_capacity(capacity: usize) -> (r: Self)
        ensures
            r.wf(),
            r.lines() == Seq::<Seq<char>>::empty(),
            r.limit() == capacity,
    {
        let r = LogStream { entries: VecDeque::new(), capacity };
        proof {
            assert(r.lines() =~= Seq::<Seq<char>>::empty());
        }
        r
    }

    /// The lines held, oldest first.
    pub fn entries(&self) -> (r: &VecDeque<String>)
        ensures
            r@.map_values(|l: String| l@) == self.lines(),
    {
        &self.entries
    }

    /// Logs one line, dropping the oldest when the stream is full.
    pub fn push_entry(&mut self, line: String)
        requires
            old(self).wf(),
        ensures
            final(self).wf(),
            final(self).limit() == old(self).limit(),
            final(self).lines() == spec_push_entry(old(self).lines(), old(self).limit(), line@),
    {
        let ghost before = self.lines();
        let full = if self.capacity == 0 {
            self.entries.len() >= 1
        } else {
            self.entries.len() >= self.capacity
        };
        if full {
            let _ = self.entries.pop_front();
            proof {
                assert(self.lines() =~= before.drop_first());
            }
        }
        let ghost mid = self.lines();
        self.entries.push_back(line);
        proof {
            assert(self.lines() =~= mid.push(line@));
        }
    }

    /// The latest `rows` lines joined by line breaks, oldest first: what a pane `rows` tall
    /// shows of the stream.
    pub fn sample_end(&self, rows: usize, columns: usize) -> (r: String)
        requires
            rows * (columns + rows) <= usize::MAX,
        ensures
            r@ == join_with(last_rows(self.lines(), rows as nat), '\n'),
    {
        let n = self.entries.len();
        let first = if n <= rows {
            0
        } else {
            n - rows
        };
        let ghost lines = self.lines();
        let ghost shown = last_rows(lines, rows as nat);
        proof {
            assert(shown =~= lines.subrange(first as int, n as int));
        }
        let mut frame = String::new();
        let mut i = first;
        while i < n
            invariant
                n == self.entries@.len(),
                first <= i <= n,
                lines == self.lines(),
                shown == lines.subrange(first as int, n as int),
                frame@ == join_with(lines.subrange(first as int, i as int), '\n'),
            decreases n - i,
        {
            let ghost before = lines.subrange(first as int, i as int);
            if i > first {
                push_char(&mut frame, '\n');
            }
            frame.append(self.entries[i].as_str());
            proof {
                lemma_join_push(before, lines[i as int], '\n');
                assert(lines.subrange(first as int, i + 1) =~= before.push(lines[i as int]));
            }
            i = i + 1;
        }
        frame
    }
}

/// The count that `usize::wrapping_add(count, 1)` gives.
pub open spec fn count_up(count: usize) -> usize {
    if count == usize::MAX {
        0
    } else {
        (count + 1) as usize
    }
}

/// The count that `usize::wrapping_sub(count, 1)` gives.
pub open spec fn count_down(count: usize) -> usize {
    if count == 0 {
        usize::MAX
    } else {
        (count - 1) as usize
    }
}

/// The span table after a handle to span `id` is cloned: its count goes up by one.
pub open spec fn spec_clone_span(spans: Seq<(u64, usize)>, id: u64) -> Seq<(u64, usize)> {
    match spec_get(spans, id) {
        Some(count) => spec_insert(spans, id, count_up(count)),
        None => spans,
    }
}

/// The span table after a handle to span `id` is dropped: the last handle removes the
/// span, any other lowers its count.
pub open spec fn spec_try_close(spans: Seq<(u64, usize)>, id: u64) -> Seq<(u64, usize)> {
    match spec_get(spans, id) {
        Some(count) => if count == 1 {
            spec_remove(spans, id)
        } else {
            spec_insert(spans, id, count_down(count))
        },
        None => spans,
    }
}

/// Open spans and how many handles each has.
pub struct SpanTable {
    spans: OrderedMap<usize>,
}

impl View for SpanTable {
    type V = Seq<(u64, usize)>;

    closed spec fn view(&self) -> Seq<(u64, usize)> {
        self.spans@
    }
}

impl SpanTable {
    /// The table's internal consistency.
    pub closed spec fn wf(&self) -> bool {
        self.spans.wf()
    }

    /// A table with no spans.
    pub fn new() -> (r: Self)
        ensures
            r.wf(),
            r@ == Seq::<(u64, usize)>::empty(),
    {
        SpanTable { spans: OrderedMap::new() }
    }

    /// Records a new span `id` with one handle (a span reopened under a live id starts
    /// over at one).
    pub fn open(&mut self, id: u64)
        requires
            old(self).wf(),
        ensures
            final(self).wf(),
            final(self)@ == spec_insert(old(self)@, id, 1usize),
    {
        let _ = self.spans.insert(id, 1);
    }

    /// The number of handles to span `id`, if it is open.
    pub fn ref_count(&self, id: u64) -> (r: Option<usize>)
        requires
            self.wf(),
        ensures
            r == spec_get(self@, id),
    {
        match self.spans.get(id) {
            Some(count) => Some(*count),
            None => None,
        }
    }

    /// Another handle to span `id`; returns the id it refers to.
    pub fn clone_span(&mut self, id: u64) -> (r: u64)
        requires
            old(self).wf(),
        ensures
            final(self).wf(),
            final(self)@ == spec_clone_span(old(self)@, id),
            r == id,
    {
        if let Some(count) = self.ref_count(id) {
            let _ = self.spans.insert(id, count.wrapping_add(1));
        }
        id
    }

    /// Drops one handle to span `id`. Returns whether that was the last one, in which case
    /// the span is gone from the table.
    pub fn try_close(&mut self, id: u64) -> (r: bool)
        requires
            old(self).wf(),
        ensures
            final(self).wf(),
            final(self)@ == spec_try_close(old(self)@, id),
            r == (spec_get(old(self)@, id) == Some(1usize)),
    {
        match self.ref_count(id) {
            Some(count) => {
                if count == 1 {
                    let _ = self.spans.remove(id);
                    true
                } else {
                    let _ = self.spans.insert(id, count.wrapping_sub(1));
                    false
                }
            },
            None => false,
        }
    }
}

/// A span that was just opened closes on its first drop, and is then gone.
pub proof fn law_open_then_close(spans: Seq<(u64, usize)>, id: u64)
    requires
        crate::collections::distinct_keys(spans),
    ensures
        spec_get(spec_insert(spans, id, 1usize), id) == Some(1usize),
        spec_get(spec_try_close(spec_insert(spans, id, 1usize), id), id) is None,
{
    crate::collections::law_get_after_insert(spans, id, 1usize);
    crate::collections::law_insert_keeps_keys_distinct(spans, id, 1usize);
    crate::collections::law_get_after_remove(spec_insert(spans, id, 1usize), id);
}

/// Cloning a handle to an open span and dropping it again leaves the span's count as it
/// was, and the span open.
pub proof fn law_clone_then_close(spans: Seq<(u64, usize)>, id: u64, count: usize)
    requires
        crate::collections::distinct_keys(spans),
        spec_get(spans, id) == Some(count),
        1 <= count < usize::MAX,
    ensures
        spec_get(spec_try_close(spec_clone_span(spans, id), id), id) == Some(count),
{
    let cloned = spec_clone_span(spans, id);
    crate::collections::law_get_after_insert(spans, id, count_up(count));
    crate::collections::law_insert_keeps_keys_distinct(spans, id, count_up(count));
    assert(spec_get(cloned, id) == Some((count + 1) as usize));
    assert(count_down((count + 1) as usize) == count);
    crate::collections::law_get_after_insert(cloned, id, count);
}

} // verus!
