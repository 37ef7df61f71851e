//! Heads-up display of in-flight client drivers.
//!
//! A run of a client driver is in flight as long as its span is open. The counts are kept here;
//! drawing them is left to the terminal.
use crate::text::{right_aligned_decimal, same_text};
#[allow(unused_imports)]
use crate::text::{decimal, right_aligned};
use vstd::prelude::*;

verus! {

/// Name of the span whose lifetime marks one in-flight client run.
pub const DRIVER_SPAN: &'static str = "driver.run";

/// How often the HUD repaints, in milliseconds.
pub const REFRESH_MS: u64 = 250;

/// Layout of the HUD. The values in braces are filled in when it is drawn.
pub const TEMPLATE: &'static str =
    "{spinner} [{elapsed_precise}] active clients: {active}  finished: {finished} ({rate})";

/// Tallies of driver runs. There is one set of them: a [`RunCounterLayer`] takes it over, counts in
/// it and hands it out to be read.
#[derive(Debug)]
pub struct RunCounter {
    active: usize,
    finished: usize,
}

/// What a `RunCounter` stands for.
pub struct RunCounterView {
    /// Number of runs in flight.
    pub active: usize,
    /// Number of runs that have completed.
    pub finished: usize,
}

impl View for RunCounter {
    type V = RunCounterView;

    closed spec fn view(&self) -> RunCounterView {
        RunCounterView { active: self.active, finished: self.finished }
    }
}

/// The number after `n`, where 0 follows the largest.
pub open spec fn counted_up(n: usize) -> usize {
    if n < usize::MAX {
        (n + 1) as usize
    } else {
        0
    }
}

/// The number before `n`, where the largest precedes 0.
pub open spec fn counted_down(n: usize) -> usize {
    if n > 0 {
        (n - 1) as usize
    } else {
        usize::MAX
    }
}

/// Something that happens to a span, with the name of the span where it is known.
pub enum SpanEvent {
    Opened(Seq<char>),
    Closed(Option<Seq<char>>),
}

impl SpanEvent {
    /// Whether a driver run starts.
    pub open spec fn starts_run(self) -> bool {
        self matches SpanEvent::Opened(name) && name == DRIVER_SPAN@
    }

    /// Whether a driver run ends.
    pub open spec fn ends_run(self) -> bool {
        self matches SpanEvent::Closed(Some(name)) && name == DRIVER_SPAN@
    }
}

impl RunCounterView {
    /// The tallies before anything has happened.
    pub open spec fn zero() -> RunCounterView {
        RunCounterView { active: 0, finished: 0 }
    }

    /// The tallies after `event`.
    pub open spec fn after(self, event: SpanEvent) -> RunCounterView {
        if event.starts_run() {
            RunCounterView { active: counted_up(self.active), finished: self.finished }
        } else if event.ends_run() {
            RunCounterView {
                active: counted_down(self.active),
                finished: counted_up(self.finished),
            }
        } else {
            self
        }
    }

    /// The tallies after `events`.
    pub open spec fn after_all(self, events: Seq<SpanEvent>) -> RunCounterView
        decreases events.len(),
    {
        if events.len() == 0 {
            self
        } else {
            self.after_all(events.drop_last()).after(events.last())
        }
    }
}

impl Default for RunCounter {
    fn default() -> (counter: RunCounter)
        ensures
            counter@ == RunCounterView::zero(),
    {
        RunCounter { active: 0, finished: 0 }
    }
}

impl RunCounter {
    /// Number of client runs currently in flight.
    pub fn active(&self) -> (active: usize)
        ensures
            active == self@.active,
    {
        self.active
    }

    /// Number of client runs that have completed.
    pub fn finished(&self) -> (finished: usize)
        ensures
            finished == self@.finished,
    {
        self.finished
    }

    /// The number of runs in flight as the HUD shows it, in a column of constant width.
    pub fn active_column(&self) -> (text: String)
        ensures
            text@ == right_aligned(decimal(self@.active as nat), 6),
    {
        right_aligned_decimal(self.active as u64, 6)
    }

    /// The number of completed runs as the HUD shows it, in a column of constant width.
    pub fn finished_column(&self) -> (text: String)
        ensures
            text@ == right_aligned(decimal(self@.finished as nat), 7),
    {
        right_aligned_decimal(self.finished as u64, 7)
    }
}

/// Tracks open [`DRIVER_SPAN`] spans in a [`RunCounter`].
#[derive(Debug)]
pub struct RunCounterLayer {
    counter: RunCounter,
}

impl View for RunCounterLayer {
    type V = RunCounterView;

    closed spec fn view(&self) -> RunCounterView {
        self.counter@
    }
}

impl Default for RunCounterLayer {
    fn default() -> (layer: RunCounterLayer)
        ensures
            layer@ == RunCounterView::zero(),
    {
        RunCounterLayer { counter: RunCounter::default() }
    }
}

impl RunCounterLayer {
    /// A layer that takes `counter` over and counts on in it.
    pub fn new(counter: RunCounter) -> (layer: RunCounterLayer)
        ensures
            layer@ == counter@,
    {
        RunCounterLayer { counter }
    }

    /// The tallies that the layer counts in, to be read.
    pub fn counter(&self) -> (counter: &RunCounter)
        ensures
            counter@ == self@,
    {
        &self.counter
    }

    /// Whether a call site is of interest: it is a span, and the driver's.
    pub fn filter(is_span: bool, name: &str) -> (yes: bool)
        ensures
            yes == (is_span && name@ == DRIVER_SPAN@),
    {
        is_span && same_text(name, DRIVER_SPAN)
    }

    /// Takes note of a new span. Spans other than the driver's leave the tallies alone.
    pub fn on_new_span(&mut self, name: &str)
        ensures
            final(self)@ == old(self)@.after(SpanEvent::Opened(name@)),
    {
        if same_text(name, DRIVER_SPAN) {
            self.counter.active = self.counter.active.wrapping_add(1);
        }
    }

    /// Takes note that a span was closed. Spans other than the driver's, and such as are not
    /// known any more, leave the tallies alone.
    pub fn on_close(&mut self, name: Option<&str>)
        ensures
            final(self)@ == old(self)@.after(
                SpanEvent::Closed(
                    match name {
                        Some(name) => Some(name@),
                        None => None,
                    },
                ),
            ),
    {
        let driver = match name {
            Some(name) => same_text(name, DRIVER_SPAN),
            None => false,
        };
        if driver {
            self.counter.active = self.counter.active.wrapping_sub(1);
            self.counter.finished = self.counter.finished.wrapping_add(1);
        }
    }
}

/// One buffered log line. A line may be written in several pieces, so the bytes are accumulated
/// and emitted once.
#[derive(Debug)]
pub struct HudLine {
    buf: Vec<u8>,
}

impl View for HudLine {
    type V = Seq<u8>;

    closed spec fn view(&self) -> Seq<u8> {
        self.buf@
    }
}

impl HudLine {
    /// A line with nothing in it.
    pub fn new() -> (line: HudLine)
        ensures
            line@ == Seq::<u8>::empty(),
    {
        HudLine { buf: Vec::new() }
    }

    /// Adds a piece to the line, and tells how much of it was taken: all of it.
    pub fn write(&mut self, piece: &[u8]) -> (taken: usize)
        ensures
            final(self)@ == old(self)@ + piece@,
            taken == piece@.len(),
    {
        let mut i: usize = 0;
        while i < piece.len()
            invariant
                i <= piece@.len(),
                self.buf@ == old(self).buf@ + piece@.take(i as int),
            decreases piece@.len() - i,
        {
            self.buf.push(piece[i]);
            i = i + 1;
            assert(self.buf@ =~= old(self).buf@ + piece@.take(i as int));
        }
        assert(piece@.take(i as int) =~= piece@);
        piece.len()
    }

    /// Takes the bytes that are to be shown out of the line, if there are any.
    pub fn emit(&mut self) -> (shown: Option<Vec<u8>>)
        ensures
            final(self)@ == Seq::<u8>::empty(),
            match shown {
                Some(bytes) => bytes@ == old(self)@ && old(self)@.len() > 0,
                None => old(self)@.len() == 0,
            },
    {
        if self.buf.len() == 0 {
            assert(self.buf@ =~= Seq::<u8>::empty());
            return None;
        }
        let mut bytes: Vec<u8> = Vec::new();
        std::mem::swap(&mut bytes, &mut self.buf);
        Some(bytes)
    }
}

/// Number of `events` that start a driver run.
pub open spec fn starts(events: Seq<SpanEvent>) -> nat {
    events.filter(|event: SpanEvent| event.starts_run()).len()
}

/// Number of `events` that end a driver run.
pub open spec fn ends(events: Seq<SpanEvent>) -> nat {
    events.filter(|event: SpanEvent| event.ends_run()).len()
}

proof fn lemma_tallies(events: Seq<SpanEvent>) -> (turns: (int, int))
    ensures
        starts(events) - ends(events) == RunCounterView::zero().after_all(events).active + turns.0
            * (usize::MAX + 1),
        ends(events) == RunCounterView::zero().after_all(events).finished + turns.1 * (usize::MAX
            + 1),
    decreases events.len(),
{
    let starts_run = |event: SpanEvent| event.starts_run();
    let ends_run = |event: SpanEvent| event.ends_run();
    let size = usize::MAX + 1;
    if events.len() == 0 {
        assert(events.filter(starts_run).len() == 0 && events.filter(ends_run).len() == 0) by {
            reveal(Seq::filter);
        }
        (0, 0)
    } else {
        let front = events.drop_last();
        let last = events.last();
        let (a, b) = lemma_tallies(front);
        assert(events =~= front.push(last));
        front.lemma_filter_push(last, starts_run);
        front.lemma_filter_push(last, ends_run);
        let before = RunCounterView::zero().after_all(front);
        let after = RunCounterView::zero().after_all(events);
        assert((a + 1) * size == a * size + size && (a - 1) * size == a * size - size && (b + 1)
            * size == b * size + size) by (nonlinear_arith);
        if last.starts_run() {
            if before.active < usize::MAX {
                (a, b)
            } else {
                (a + 1, b)
            }
        } else if last.ends_run() {
            let a = if before.active > 0 {
                a
            } else {
                a - 1
            };
            let b = if before.finished < usize::MAX {
                b
            } else {
                b + 1
            };
            (a, b)
        } else {
            (a, b)
        }
    }
}

/// An open driver span is exactly one run in flight: whatever happens to whichever spans, the
/// tallies tell how many driver runs have started and not ended, and how many have ended, each as
/// long as that number is not negative and a `usize` can hold it.
pub proof fn tallies_count_runs(events: Seq<SpanEvent>)
    ensures
        0 <= starts(events) - ends(events) <= usize::MAX
            ==> RunCounterView::zero().after_all(events).active == starts(events) - ends(events),
        ends(events) <= usize::MAX ==> RunCounterView::zero().after_all(events).finished == ends(
            events,
        ),
{
    let (a, b) = lemma_tallies(events);
    let size = usize::MAX + 1;
    if 0 <= starts(events) - ends(events) <= usize::MAX {
        assert(a == 0) by (nonlinear_arith)
            requires
                -size < a * size < size,
                size > 0,
        ;
    }
    if ends(events) <= usize::MAX {
        assert(b == 0) by (nonlinear_arith)
            requires
                -size < b * size < size,
                size > 0,
        ;
    }
}

/// The number of completed runs never decreases, as long as a `usize` can hold it.
pub proof fn finished_never_decreases(events: Seq<SpanEvent>, more: Seq<SpanEvent>)
    requires
        ends(events + more) <= usize::MAX,
    ensures
        RunCounterView::zero().after_all(events).finished <= RunCounterView::zero().after_all(
            events + more,
        ).finished,
{
    Seq::filter_distributes_over_add(events, more, |event: SpanEvent| event.ends_run());
    tallies_count_runs(events);
    tallies_count_runs(events + more);
}

/// What is done to a buffered log line.
pub enum LineEvent {
    Written(Seq<u8>),
    Emitted,
}

/// What has been shown and what is still in the line after `events`, from an empty line on.
pub open spec fn line_after(events: Seq<LineEvent>) -> (Seq<u8>, Seq<u8>)
    decreases events.len(),
{
    if events.len() == 0 {
        (Seq::empty(), Seq::empty())
    } else {
        let (shown, line) = line_after(events.drop_last());
        match events.last() {
            LineEvent::Written(piece) => (shown, line + piece),
            LineEvent::Emitted => (shown + line, Seq::empty()),
        }
    }
}

/// All that was written, in order.
pub open spec fn all_written(events: Seq<LineEvent>) -> Seq<u8>
    decreases events.len(),
{
    if events.len() == 0 {
        Seq::empty()
    } else {
        match events.last() {
            LineEvent::Written(piece) => all_written(events.drop_last()) + piece,
            LineEvent::Emitted => all_written(events.drop_last()),
        }
    }
}

/// What was written to a line is shown or still in it: nothing is lost, shown twice or shown out
/// of order.
pub proof fn line_loses_nothing(events: Seq<LineEvent>)
    ensures
        line_after(events).0 + line_after(events).1 == all_written(events),
    decreases events.len(),
{
    if events.len() > 0 {
        line_loses_nothing(events.drop_last());
        let (shown, line) = line_after(events.drop_last());
        match events.last() {
            LineEvent::Written(piece) => {
                assert(shown + (line + piece) =~= (shown + line) + piece);
            },
            LineEvent::Emitted => {
                assert((shown + line) + Seq::<u8>::empty() =~= shown + line);
            },
        }
    }
}

/// A span named `driver.run` that opens is one more run in flight, and one that closes is one run
/// fewer in flight and one more completed. No other span changes the tallies.
pub proof fn only_driver_spans_are_counted(
    tallies: RunCounterView,
    name: Seq<char>,
    events: Seq<SpanEvent>,
    event: SpanEvent,
)
    ensures
        DRIVER_SPAN@ == "driver.run"@,
        tallies.active < usize::MAX ==> ({
            let after = tallies.after(SpanEvent::Opened("driver.run"@));
            after.active == tallies.active + 1 && after.finished == tallies.finished
        }),
        tallies.active > 0 && tallies.finished < usize::MAX ==> ({
            let after = tallies.after(SpanEvent::Closed(Some("driver.run"@)));
            after.active == tallies.active - 1 && after.finished == tallies.finished + 1
        }),
        name != "driver.run"@ ==> tallies.after(SpanEvent::Opened(name)) == tallies
            && tallies.after(SpanEvent::Closed(Some(name))) == tallies,
        tallies.after(SpanEvent::Closed(None)) == tallies,
        tallies.after_all(Seq::empty()) == tallies,
        tallies.after_all(events.push(event)) == tallies.after_all(events).after(event),
        RunCounterView::zero().active == 0 && RunCounterView::zero().finished == 0,
{
    assert(events.push(event).drop_last() =~= events);
}

/// A tally starts over at 0 behind the largest number, and goes back to it from 0.
pub proof fn tallies_start_over(tallies: RunCounterView)
    ensures
        tallies.active == usize::MAX ==> tallies.after(
            SpanEvent::Opened("driver.run"@),
        ).active == 0,
        tallies.active == 0 ==> tallies.after(SpanEvent::Closed(Some("driver.run"@))).active
            == usize::MAX,
        tallies.finished == usize::MAX ==> tallies.after(
            SpanEvent::Closed(Some("driver.run"@)),
        ).finished == 0,
        tallies.active == usize::MAX ==> tallies.after(SpanEvent::Opened("driver.run"@)).finished
            == tallies.finished,
        tallies.active > 0 ==> tallies.after(SpanEvent::Closed(Some("driver.run"@))).active
            == tallies.active - 1,
        tallies.finished < usize::MAX ==> tallies.after(
            SpanEvent::Closed(Some("driver.run"@)),
        ).finished == tallies.finished + 1,
{
}

} // verus!
