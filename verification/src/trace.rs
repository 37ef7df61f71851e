//! Recorded access patterns and the range requests that replay them.
use crate::gzip::gunzip;
#[allow(unused_imports)]
use crate::gzip::gunzipped;
use crate::text::{push_decimal, same_text};
#[allow(unused_imports)]
use crate::text::{decimal, decimal_is_digits, decimal_is_injective};
use vstd::prelude::*;

verus! {

/// A run of bytes in a resource.
#[derive(Clone, Copy, Debug, PartialEq, Eq)]
pub struct ByteRange {
    /// Position of the first byte.
    pub offset: usize,
    /// Number of bytes.
    pub size: usize,
}

/// The smaller of two numbers.
pub open spec fn smaller(a: int, b: int) -> int {
    if a <= b {
        a
    } else {
        b
    }
}

impl ByteRange {
    /// Whether the first and the last byte of the range in a resource of `content_length` bytes
    /// have positions: the resource is not empty, and the range ends neither before position 0
    /// nor beyond the largest position.
    pub open spec fn has_ends(self, content_length: usize) -> bool {
        &&& content_length > 0
        &&& 1 <= self.offset + self.size <= usize::MAX
    }

    /// The positions of the first and the last byte of the range in a resource of
    /// `content_length` bytes.
    pub open spec fn ends(self, content_length: usize) -> (int, int) {
        (self.offset as int, smaller(self.offset + self.size - 1, content_length - 1))
    }

    /// Whether `start_end` can be asked for the range in a resource of `content_length` bytes.
    pub fn check_ends(&self, content_length: usize) -> (yes: bool)
        ensures
            yes == self.has_ends(content_length),
    {
        content_length > 0 && self.size <= usize::MAX - self.offset && (self.offset > 0
            || self.size > 0)
    }

    /// Calculate start and (inclusive) end byte positions for the range, given the total content
    /// length.
    pub fn start_end(&self, content_length: usize) -> (ends: (usize, usize))
        requires
            self.has_ends(content_length),
        ensures
            (ends.0 as int, ends.1 as int) == self.ends(content_length),
    {
        let last = self.offset + self.size - 1;
        let end = if last <= content_length - 1 {
            last
        } else {
            content_length - 1
        };
        (self.offset, end)
    }
}

/// The bytes that one request asks for.
#[derive(Clone, Debug)]
pub enum Range {
    Single(ByteRange),
    Multi(Vec<ByteRange>),
}

/// What a `Range` stands for.
pub enum RangeView {
    Single(ByteRange),
    Multi(Seq<ByteRange>),
}

impl View for Range {
    type V = RangeView;

    open spec fn view(&self) -> RangeView {
        match self {
            Range::Single(range) => RangeView::Single(*range),
            Range::Multi(ranges) => RangeView::Multi(ranges@),
        }
    }
}

/// First and last position with a dash between them.
pub open spec fn span_text(ends: (int, int)) -> Seq<char> {
    decimal(ends.0 as nat) + "-"@ + decimal(ends.1 as nat)
}

/// `parts` with commas between them.
pub open spec fn comma_separated(parts: Seq<Seq<char>>) -> Seq<char>
    decreases parts.len(),
{
    if parts.len() == 0 {
        Seq::empty()
    } else if parts.len() == 1 {
        parts[0]
    } else {
        comma_separated(parts.drop_last()) + ","@ + parts.last()
    }
}

/// The text of each range that starts within the content. Ranges that start beyond it have none.
pub open spec fn range_spans(ranges: Seq<ByteRange>, content_length: usize) -> Seq<Seq<char>> {
    ranges.filter_map(
        |range: ByteRange|
            if range.offset < content_length {
                Some(span_text(range.ends(content_length)))
            } else {
                None
            },
    )
}

/// Whether each of the ranges that start within the content has ends.
pub open spec fn starting_ranges_have_ends(ranges: Seq<ByteRange>, content_length: usize) -> bool {
    forall|i: int|
        0 <= i < ranges.len() && (#[trigger] ranges[i]).offset < content_length
            ==> ranges[i].has_ends(content_length)
}

impl RangeView {
    /// Whether every range that the header speaks of has ends. A single range always counts; of
    /// several, those that start within the content.
    pub open spec fn has_header(self, content_length: usize) -> bool {
        match self {
            RangeView::Single(range) => range.has_ends(content_length),
            RangeView::Multi(ranges) => starting_ranges_have_ends(ranges, content_length),
        }
    }

    /// The value of the HTTP Range header that asks for the range.
    pub open spec fn header(self, content_length: usize) -> Seq<char> {
        match self {
            RangeView::Single(range) => "bytes="@ + span_text(range.ends(content_length)),
            RangeView::Multi(ranges) => "bytes="@ + comma_separated(
                range_spans(ranges, content_length),
            ),
        }
    }
}

/// Appends first and last position to `out`, with a dash between them.
pub(crate) fn push_span(out: &mut String, start: usize, end: usize)
    ensures
        final(out)@ == old(out)@ + span_text((start as int, end as int)),
{
    push_decimal(out, start as u64);
    out.append("-");
    push_decimal(out, end as u64);
    assert(out@ =~= old(out)@ + span_text((start as int, end as int)));
}

impl Range {
    /// Whether `to_header_value` can be asked for the range.
    pub fn check_header(&self, content_length: usize) -> (yes: bool)
        ensures
            yes == self@.has_header(content_length),
    {
        match self {
            Range::Single(range) => range.check_ends(content_length),
            Range::Multi(ranges) => {
                let mut i: usize = 0;
                while i < ranges.len()
                    invariant
                        i <= ranges.len(),
                        self@ == RangeView::Multi(ranges@),
                        forall|j: int|
                            0 <= j < i && (#[trigger] ranges@[j]).offset < content_length
                                ==> ranges@[j].has_ends(content_length),
                    decreases ranges.len() - i,
                {
                    if ranges[i].offset < content_length && !ranges[i].check_ends(content_length) {
                        return false;
                    }
                    i = i + 1;
                }
                true
            },
        }
    }

    /// Convert the range into a string suitable for use in an HTTP Range header.
    ///
    /// The `content_length` parameter is used to trim ranges to the end of the content if they
    /// exceed it.
    pub fn to_header_value(&self, content_length: usize) -> (value: String)
        requires
            self@.has_header(content_length),
        ensures
            value@ == self@.header(content_length),
    {
        let mut value = "bytes=".to_owned();
        match self {
            Range::Single(range) => {
                let (start, end) = range.start_end(content_length);
                push_span(&mut value, start, end);
            },
            Range::Multi(ranges) => {
                let ghost render = |range: ByteRange|
                    if range.offset < content_length {
                        Some(span_text(range.ends(content_length)))
                    } else {
                        None
                    };
                let mut empty = true;
                let mut i: usize = 0;
                proof {
                    assert(ranges@.take(0) =~= Seq::empty());
                    reveal(Seq::filter_map);
                }
                while i < ranges.len()
                    invariant
                        i <= ranges.len(),
                        starting_ranges_have_ends(ranges@, content_length),
                        render == |range: ByteRange|
                            if range.offset < content_length {
                                Some(span_text(range.ends(content_length)))
                            } else {
                                None
                            },
                        value@ == "bytes="@ + comma_separated(
                            ranges@.take(i as int).filter_map(render),
                        ),
                        empty == (ranges@.take(i as int).filter_map(render).len() == 0),
                    decreases ranges.len() - i,
                {
                    let ghost done = ranges@.take(i as int).filter_map(render);
                    let ghost text = value@;
                    proof {
                        ranges@.lemma_filter_map_take_succ(render, i as int);
                    }
                    if ranges[i].offset < content_length {
                        let (start, end) = ranges[i].start_end(content_length);
                        if !empty {
                            value.append(",");
                        }
                        push_span(&mut value, start, end);
                        proof {
                            let span = span_text(ranges@[i as int].ends(content_length));
                            let next = ranges@.take(i + 1).filter_map(render);
                            assert(next =~= done.push(span));
                            assert(next.drop_last() =~= done);
                            assert(next.last() == span);
                            if empty {
                                assert(comma_separated(done) =~= Seq::empty());
                                assert(value@ =~= "bytes="@ + comma_separated(next));
                            } else {
                                assert(value@ =~= "bytes="@ + comma_separated(next));
                            }
                        }
                        empty = false;
                    }
                    i = i + 1;
                }
                assert(ranges@.take(i as int) =~= ranges@);
            },
        }
        value
    }
}

/// One step of a replay.
#[derive(Clone, Debug)]
pub enum Action {
    /// Request some data
    Request(Range),
    /// Wait for some time before the next request
    Sleep(u64),
}

/// What an `Action` stands for.
pub enum ActionView {
    Request(RangeView),
    Sleep(nat),
}

impl View for Action {
    type V = ActionView;

    open spec fn view(&self) -> ActionView {
        match self {
            Action::Request(range) => ActionView::Request(range@),
            Action::Sleep(ms) => ActionView::Sleep(*ms as nat),
        }
    }
}

/// A recorded access pattern, as the steps that replay it.
#[derive(Clone, Debug)]
pub struct Trace {
    actions: Vec<Action>,
}

impl View for Trace {
    type V = Seq<ActionView>;

    closed spec fn view(&self) -> Seq<ActionView> {
        self.actions@.map_values(|action: Action| action@)
    }
}

/// One request of a recording, as it stands in a trace file.
#[derive(Clone, Debug)]
pub struct RawTraceEntry {
    /// Whether the request asked for all its chunks at once, rather than for the first only.
    pub vector: bool,
    /// Offset and size of each chunk.
    pub chunks: Vec<(usize, usize)>,
    /// When the request was sent, in milliseconds.
    pub start_ms: u64,
    /// When the response was complete, in milliseconds.
    pub end_ms: u64,
}

/// What a `RawTraceEntry` stands for.
pub struct EntryView {
    pub vector: bool,
    pub chunks: Seq<(usize, usize)>,
    pub start_ms: nat,
    pub end_ms: nat,
}

impl View for RawTraceEntry {
    type V = EntryView;

    open spec fn view(&self) -> EntryView {
        EntryView {
            vector: self.vector,
            chunks: self.chunks@,
            start_ms: self.start_ms as nat,
            end_ms: self.end_ms as nat,
        }
    }
}

/// What a list of entries stands for.
pub open spec fn entries_view(entries: Seq<RawTraceEntry>) -> Seq<EntryView> {
    entries.map_values(|entry: RawTraceEntry| entry@)
}

/// The run of bytes that a chunk describes.
pub open spec fn chunk_range(chunk: (usize, usize)) -> ByteRange {
    ByteRange { offset: chunk.0, size: chunk.1 }
}

impl EntryView {
    /// Whether the entry says what to request: one that is not vectored needs a chunk.
    pub open spec fn is_complete(self) -> bool {
        self.vector || self.chunks.len() > 0
    }

    /// The bytes that the entry requests.
    pub open spec fn range(self) -> RangeView {
        if self.vector {
            RangeView::Multi(self.chunks.map_values(|chunk: (usize, usize)| chunk_range(chunk)))
        } else {
            RangeView::Single(chunk_range(self.chunks[0]))
        }
    }

    /// The milliseconds from the end of the entry to the start of `next`, or 0 where `next`
    /// starts before that end.
    pub open spec fn pause_before(self, next: EntryView) -> nat {
        if next.start_ms >= self.end_ms {
            (next.start_ms - self.end_ms) as nat
        } else {
            0
        }
    }
}

/// The replay of `entries`: their requests in order, and between two of them the pause that
/// was recorded there.
pub open spec fn replay_actions(entries: Seq<EntryView>) -> Seq<ActionView> {
    Seq::new(
        (2 * entries.len() - 1) as nat,
        |k: int|
            if k % 2 == 0 {
                ActionView::Request(entries[k / 2].range())
            } else {
                ActionView::Sleep(entries[k / 2].pause_before(entries[k / 2 + 1]))
            },
    )
}

/// Why a recording cannot be replayed.
#[derive(Clone, Copy, Debug, PartialEq, Eq)]
pub enum TraceError {
    /// An entry that is not vectored has no chunk.
    MissingChunk,
}

impl TraceError {
    /// The error in words.
    pub fn describe(&self) -> (text: String)
        ensures
            text@ == "Expected at least one chunk for non-vector request"@,
    {
        match self {
            TraceError::MissingChunk => "Expected at least one chunk for non-vector request".to_owned(),
        }
    }
}

/// The runs of bytes that `chunks` describe.
fn chunk_ranges(chunks: &Vec<(usize, usize)>) -> (ranges: Vec<ByteRange>)
    ensures
        ranges@ == chunks@.map_values(|chunk: (usize, usize)| chunk_range(chunk)),
{
    let mut ranges: Vec<ByteRange> = Vec::new();
    let mut i: usize = 0;
    while i < chunks.len()
        invariant
            i <= chunks.len(),
            ranges@ == chunks@.take(i as int).map_values(
                |chunk: (usize, usize)| chunk_range(chunk),
            ),
        decreases chunks.len() - i,
    {
        let (offset, size) = chunks[i];
        ranges.push(ByteRange { offset, size });
        i = i + 1;
        assert(ranges@ =~= chunks@.take(i as int).map_values(
            |chunk: (usize, usize)| chunk_range(chunk),
        ));
    }
    assert(chunks@.take(i as int) =~= chunks@);
    ranges
}

impl Trace {
    /// The actions of the trace, in order.
    pub fn actions(&self) -> (actions: &Vec<Action>)
        ensures
            self@ == actions@.map_values(|action: Action| action@),
    {
        &self.actions
    }

    /// The JSON text in a trace file with the given file name extension: the contents of the
    /// file, decompressed first where the extension says that they are gzip data.
    pub fn payload(extension: Option<&str>, contents: Vec<u8>) -> (payload: Result<
        Vec<u8>,
        std::io::Error,
    >)
        ensures
            match payload {
                Ok(data) => if extension is Some && extension->0@ == "gz"@ {
                    gunzipped(contents@) == Some(data@)
                } else {
                    data@ == contents@
                },
                Err(_) => {
                    &&& extension is Some
                    &&& extension->0@ == "gz"@
                    &&& gunzipped(contents@) is None
                },
            },
    {
        let compressed = match extension {
            Some(extension) => same_text(extension, "gz"),
            None => false,
        };
        if compressed {
            gunzip(contents.as_slice())
        } else {
            Ok(contents)
        }
    }

    /// The trace that replays a recording. The recording has at least one entry.
    pub fn from_entries(entries: &Vec<RawTraceEntry>) -> (trace: Result<Trace, TraceError>)
        requires
            entries@.len() > 0,
        ensures
            match trace {
                Ok(t) => {
                    &&& t@ == replay_actions(entries_view(entries@))
                    &&& forall|i: int|
                        0 <= i < entries@.len() ==> (#[trigger] entries@[i])@.is_complete()
                },
                Err(e) => {
                    &&& e == TraceError::MissingChunk
                    &&& exists|i: int|
                        0 <= i < entries@.len() && !(#[trigger] entries@[i])@.is_complete()
                },
            },
    {
        let ghost views = entries_view(entries@);
        let mut actions: Vec<Action> = Vec::new();
        let mut i: usize = 0;
        while i < entries.len()
            invariant
                i <= entries.len(),
                entries@.len() > 0,
                views == entries_view(entries@),
                forall|j: int| 0 <= j < i ==> (#[trigger] entries@[j])@.is_complete(),
                i > 0 ==> actions@.map_values(|action: Action| action@) == replay_actions(
                    views.take(i as int),
                ),
                i == 0 ==> actions@.len() == 0,
            decreases entries.len() - i,
        {
            let ghost before = actions@.map_values(|action: Action| action@);
            let entry = &entries[i];
            if i > 0 {
                actions.push(Action::Sleep(entry.start_ms.saturating_sub(entries[i - 1].end_ms)));
            }
            let range = if entry.vector {
                Range::Multi(chunk_ranges(&entry.chunks))
            } else if entry.chunks.len() > 0 {
                let (offset, size) = entry.chunks[0];
                Range::Single(ByteRange { offset, size })
            } else {
                assert(!entries@[i as int]@.is_complete());
                return Err(TraceError::MissingChunk);
            };
            assert(range@ == views[i as int].range());
            actions.push(Action::Request(range));
            i = i + 1;
            proof {
                let after = actions@.map_values(|action: Action| action@);
                let goal = replay_actions(views.take(i as int));
                assert(after.len() == goal.len());
                assert forall|k: int| 0 <= k < goal.len() implies after[k] == goal[k] by {
                    if k < before.len() {
                        assert(after[k] == before[k]);
                        assert(before[k] == replay_actions(views.take(i - 1))[k]);
                    }
                }
                assert(after =~= goal);
            }
        }
        assert(views.take(i as int) =~= views);
        Ok(Trace { actions })
    }
}

/// A range never asks for a byte beyond the content, nor for more bytes than it has. It asks
/// for at least one where it starts within the content and is not empty.
pub proof fn ranges_are_trimmed(range: ByteRange, content_length: usize)
    requires
        range.has_ends(content_length),
    ensures
        range.ends(content_length).0 == range.offset,
        range.ends(content_length).1 < content_length,
        range.ends(content_length).1 - range.ends(content_length).0 + 1 <= range.size,
        range.offset < content_length && range.size > 0 ==> range.ends(content_length).0
            <= range.ends(content_length).1,
{
}

/// Whether `s` consists of visible ASCII characters.
pub open spec fn is_printable(s: Seq<char>) -> bool {
    forall|i: int| 0 <= i < s.len() ==> '!' <= #[trigger] s[i] <= '~'
}

proof fn lemma_printable_concat(a: Seq<char>, b: Seq<char>)
    requires
        is_printable(a),
        is_printable(b),
    ensures
        is_printable(a + b),
{
}

pub(crate) proof fn lemma_span_printable(ends: (int, int))
    requires
        0 <= ends.0,
        0 <= ends.1,
    ensures
        is_printable(span_text(ends)),
{
    decimal_is_digits(ends.0 as nat);
    decimal_is_digits(ends.1 as nat);
    reveal_strlit("-");
    lemma_printable_concat(decimal(ends.0 as nat), "-"@);
    lemma_printable_concat(decimal(ends.0 as nat) + "-"@, decimal(ends.1 as nat));
}

proof fn lemma_list_printable(parts: Seq<Seq<char>>)
    requires
        forall|i: int| 0 <= i < parts.len() ==> is_printable(#[trigger] parts[i]),
    ensures
        is_printable(comma_separated(parts)),
    decreases parts.len(),
{
    if parts.len() >= 2 {
        lemma_list_printable(parts.drop_last());
        reveal_strlit(",");
        lemma_printable_concat(comma_separated(parts.drop_last()), ","@);
        lemma_printable_concat(comma_separated(parts.drop_last()) + ","@, parts.last());
    }
}

proof fn lemma_spans_printable(ranges: Seq<ByteRange>, content_length: usize)
    requires
        starting_ranges_have_ends(ranges, content_length),
    ensures
        forall|i: int|
            0 <= i < range_spans(ranges, content_length).len() ==> is_printable(
                #[trigger] range_spans(ranges, content_length)[i],
            ),
    decreases ranges.len(),
{
    reveal(Seq::filter_map);
    if ranges.len() > 0 {
        let front = ranges.drop_last();
        assert forall|i: int|
            0 <= i < front.len() && (#[trigger] front[i]).offset < content_length implies
            front[i].has_ends(content_length) by {
            assert(front[i] == ranges[i]);
        }
        lemma_spans_printable(front, content_length);
        let last = ranges[ranges.len() - 1];
        if last.offset < content_length {
            assert(last.has_ends(content_length));
            lemma_span_printable(last.ends(content_length));
            assert(range_spans(ranges, content_length) =~= range_spans(front, content_length).push(
                span_text(last.ends(content_length)),
            ));
        } else {
            assert(range_spans(ranges, content_length) =~= range_spans(front, content_length));
        }
        assert forall|i: int| 0 <= i < range_spans(ranges, content_length).len() implies
            is_printable(#[trigger] range_spans(ranges, content_length)[i]) by {
            if i < range_spans(front, content_length).len() {
                assert(range_spans(front, content_length)[i] == range_spans(
                    ranges,
                    content_length,
                )[i]);
            }
        }
    }
}

/// Whether `s` consists of digits, dashes and commas.
pub open spec fn is_range_text(s: Seq<char>) -> bool {
    forall|i: int|
        0 <= i < s.len() ==> ('0' <= #[trigger] s[i] <= '9' || s[i] == '-' || s[i] == ',')
}

proof fn lemma_range_text_concat(a: Seq<char>, b: Seq<char>)
    requires
        is_range_text(a),
        is_range_text(b),
    ensures
        is_range_text(a + b),
{
}

proof fn lemma_span_is_range_text(ends: (int, int))
    ensures
        is_range_text(span_text(ends)),
{
    decimal_is_digits(ends.0 as nat);
    decimal_is_digits(ends.1 as nat);
    reveal_strlit("-");
    lemma_range_text_concat(decimal(ends.0 as nat), "-"@);
    lemma_range_text_concat(decimal(ends.0 as nat) + "-"@, decimal(ends.1 as nat));
}

proof fn lemma_list_is_range_text(ranges: Seq<ByteRange>, content_length: usize)
    ensures
        is_range_text(comma_separated(range_spans(ranges, content_length))),
    decreases ranges.len(),
{
    reveal(Seq::filter_map);
    if ranges.len() > 0 {
        let front = range_spans(ranges.drop_last(), content_length);
        let last = ranges.last();
        lemma_list_is_range_text(ranges.drop_last(), content_length);
        if last.offset < content_length {
            let span = span_text(last.ends(content_length));
            let spans = range_spans(ranges, content_length);
            lemma_span_is_range_text(last.ends(content_length));
            assert(spans =~= front.push(span));
            assert(spans.drop_last() =~= front);
            reveal_strlit(",");
            if front.len() > 0 {
                lemma_range_text_concat(comma_separated(front), ","@);
                lemma_range_text_concat(comma_separated(front) + ","@, span);
            }
        } else {
            assert(range_spans(ranges, content_length) =~= front);
        }
    }
}

/// Behind the unit, the value for a Range header consists of digits, dashes and commas.
pub proof fn header_is_unit_and_numbers(range: RangeView, content_length: usize)
    ensures
        range.header(content_length) == "bytes="@ + range.header(content_length).skip(6),
        is_range_text(range.header(content_length).skip(6)),
{
    reveal_strlit("bytes=");
    let rest = match range {
        RangeView::Single(r) => span_text(r.ends(content_length)),
        RangeView::Multi(ranges) => comma_separated(range_spans(ranges, content_length)),
    };
    match range {
        RangeView::Single(r) => lemma_span_is_range_text(r.ends(content_length)),
        RangeView::Multi(ranges) => lemma_list_is_range_text(ranges, content_length),
    }
    assert(range.header(content_length).skip(6) =~= rest);
}

/// The value for a Range header is visible ASCII and starts with the unit.
pub proof fn header_is_printable(range: RangeView, content_length: usize)
    requires
        range.has_header(content_length),
    ensures
        is_printable(range.header(content_length)),
        range.header(content_length).len() >= 6,
        range.header(content_length).take(6) == "bytes="@,
{
    reveal_strlit("bytes=");
    match range {
        RangeView::Single(r) => {
            lemma_span_printable(r.ends(content_length));
            lemma_printable_concat("bytes="@, span_text(r.ends(content_length)));
        },
        RangeView::Multi(ranges) => {
            let spans = range_spans(ranges, content_length);
            lemma_spans_printable(ranges, content_length);
            lemma_list_printable(spans);
            lemma_printable_concat("bytes="@, comma_separated(spans));
        },
    }
    assert(range.header(content_length).take(6) =~= "bytes="@);
}

/// Asking for one range as a list asks for the same bytes as asking for it alone.
pub proof fn list_of_one_is_single(range: ByteRange, content_length: usize)
    requires
        range.offset < content_length,
    ensures
        RangeView::Multi(seq![range]).header(content_length) == RangeView::Single(range).header(
            content_length,
        ),
{
    reveal(Seq::filter_map);
    assert(seq![range].drop_last() =~= Seq::empty());
    let spans = range_spans(seq![range], content_length);
    assert(spans =~= seq![span_text(range.ends(content_length))]) by {
        reveal_with_fuel(Seq::filter_map, 2);
    }
}

/// Ranges that start beyond the content leave no mark in the header of a list, wherever in the
/// list they stand.
pub proof fn ranges_beyond_content_are_left_out(ranges: Seq<ByteRange>, content_length: usize)
    ensures
        RangeView::Multi(ranges).header(content_length) == RangeView::Multi(
            ranges.filter(|range: ByteRange| range.offset < content_length),
        ).header(content_length),
{
    lemma_spans_of_starting_ranges(ranges, content_length);
}

proof fn lemma_spans_of_starting_ranges(ranges: Seq<ByteRange>, content_length: usize)
    ensures
        range_spans(ranges, content_length) == range_spans(
            ranges.filter(|range: ByteRange| range.offset < content_length),
            content_length,
        ),
    decreases ranges.len(),
{
    let starts_within = |range: ByteRange| range.offset < content_length;
    reveal(Seq::filter_map);
    reveal(Seq::filter);
    if ranges.len() > 0 {
        lemma_spans_of_starting_ranges(ranges.drop_last(), content_length);
        let kept = ranges.drop_last().filter(starts_within);
        assert(kept.push(ranges.last()).drop_last() =~= kept);
    }
}

pub(crate) proof fn lemma_span_unambiguous(a: (int, int), b: (int, int))
    requires
        0 <= a.0,
        0 <= a.1,
        0 <= b.0,
        0 <= b.1,
        span_text(a) == span_text(b),
    ensures
        a == b,
{
    let (a0, a1) = (decimal(a.0 as nat), decimal(a.1 as nat));
    let (b0, b1) = (decimal(b.0 as nat), decimal(b.1 as nat));
    decimal_is_digits(a.0 as nat);
    decimal_is_digits(a.1 as nat);
    decimal_is_digits(b.0 as nat);
    decimal_is_digits(b.1 as nat);
    reveal_strlit("-");
    let text = span_text(a);
    assert(text[a0.len() as int] == '-');
    assert(text[b0.len() as int] == '-');
    assert(a0.len() == b0.len()) by {
        if a0.len() < b0.len() {
            assert(text[a0.len() as int] == b0[a0.len() as int]);
        }
        if b0.len() < a0.len() {
            assert(text[b0.len() as int] == a0[b0.len() as int]);
        }
    }
    assert(a0 =~= text.take(a0.len() as int));
    assert(b0 =~= text.take(b0.len() as int));
    assert(a1 =~= text.skip(a0.len() as int + 1));
    assert(b1 =~= text.skip(b0.len() as int + 1));
    decimal_is_injective(a.0 as nat, b.0 as nat);
    decimal_is_injective(a.1 as nat, b.1 as nat);
}

/// Two requests for single ranges with the same header ask for the same bytes.
pub proof fn single_header_is_unambiguous(
    a: ByteRange,
    a_length: usize,
    b: ByteRange,
    b_length: usize,
)
    requires
        a.has_ends(a_length),
        b.has_ends(b_length),
        RangeView::Single(a).header(a_length) == RangeView::Single(b).header(b_length),
    ensures
        a.ends(a_length) == b.ends(b_length),
{
    reveal_strlit("bytes=");
    let header = RangeView::Single(a).header(a_length);
    assert(span_text(a.ends(a_length)) =~= header.skip(6));
    assert(span_text(b.ends(b_length)) =~= header.skip(6));
    lemma_span_unambiguous(a.ends(a_length), b.ends(b_length));
}

/// A replay starts and ends with a request, and requests and pauses alternate.
pub proof fn replay_alternates(entries: Seq<EntryView>, k: int)
    requires
        entries.len() > 0,
        0 <= k < replay_actions(entries).len(),
    ensures
        replay_actions(entries).len() == 2 * entries.len() - 1,
        replay_actions(entries)[k] is Request <==> k % 2 == 0,
        replay_actions(entries)[0] is Request,
        replay_actions(entries).last() is Request,
{
}

/// Where a recorded request starts after the one before it has ended, the pause between the two
/// is the time from that end to that start.
pub proof fn pause_is_recorded_gap(entries: Seq<EntryView>, i: int)
    requires
        0 <= i < entries.len() - 1,
        entries[i].end_ms <= entries[i + 1].start_ms,
    ensures
        replay_actions(entries)[2 * i + 1] == ActionView::Sleep(
            (entries[i + 1].start_ms - entries[i].end_ms) as nat,
        ),
{
}

/// A request asks for a byte if and only if it is one of the range's bytes and the content has it.
/// It starts where the range starts, and ends with the range or with the content, whichever ends
/// first.
pub proof fn request_covers_the_range(range: ByteRange, content_length: usize, position: int)
    requires
        content_length > 0,
        1 <= range.offset + range.size <= usize::MAX,
    ensures
        range.has_ends(content_length),
        range.ends(content_length).0 == range.offset,
        range.ends(content_length).1 == if range.offset + range.size <= content_length {
            range.offset + range.size - 1
        } else {
            content_length - 1
        },
        range.ends(content_length).0 <= position <= range.ends(content_length).1 <==> (range.offset
            <= position < range.offset + range.size && position < content_length),
{
}

/// A header can be had for every single range that ends at a position, and for every list whose
/// ranges within the content do.
pub proof fn ranges_with_ends_have_headers(
    range: ByteRange,
    ranges: Seq<ByteRange>,
    content_length: usize,
)
    requires
        content_length > 0,
    ensures
        RangeView::Single(range).has_header(content_length) <==> 1 <= range.offset + range.size
            <= usize::MAX,
        RangeView::Multi(ranges).has_header(content_length) <==> (forall|i: int|
            0 <= i < ranges.len() && (#[trigger] ranges[i]).offset < content_length ==> 1
                <= ranges[i].offset + ranges[i].size <= usize::MAX),
{
    if forall|i: int|
        0 <= i < ranges.len() && (#[trigger] ranges[i]).offset < content_length ==> 1
            <= ranges[i].offset + ranges[i].size <= usize::MAX {
        assert(starting_ranges_have_ends(ranges, content_length));
    }
}

/// The header for a single range names the position of its first byte and that of its last byte
/// within the content.
pub proof fn single_header_names_both_ends(range: ByteRange, content_length: usize)
    requires
        content_length > 0,
        1 <= range.offset + range.size <= usize::MAX,
    ensures
        Range::Single(range)@.header(content_length) == "bytes="@ + (decimal(range.offset as nat)
            + "-"@ + decimal(
            (if range.offset + range.size <= content_length {
                range.offset + range.size - 1
            } else {
                content_length - 1
            }) as nat,
        )),
{
}

/// The header for a list grows with the list: a range that starts within the content adds the
/// positions of its first and its last byte there, behind a comma unless it is the first that does.
/// A range that starts beyond the content adds nothing. A list without ranges leaves the unit alone.
pub proof fn list_header_grows_by_each_range(
    ranges: Seq<ByteRange>,
    range: ByteRange,
    content_length: usize,
)
    requires
        range.offset < content_length ==> 1 <= range.offset + range.size <= usize::MAX,
    ensures
        RangeView::Multi(Seq::empty()).header(content_length) == "bytes="@,
        RangeView::Multi(ranges.push(range)).header(content_length) == RangeView::Multi(
            ranges,
        ).header(content_length) + if range.offset < content_length {
            (if exists|i: int| 0 <= i < ranges.len() && (#[trigger] ranges[i]).offset
                < content_length {
                ","@
            } else {
                Seq::empty()
            }) + (decimal(range.offset as nat) + "-"@ + decimal(
                (if range.offset + range.size <= content_length {
                    range.offset + range.size - 1
                } else {
                    content_length - 1
                }) as nat,
            ))
        } else {
            Seq::empty()
        },
{
    let before = range_spans(ranges, content_length);
    let after = range_spans(ranges.push(range), content_length);
    lemma_some_span(ranges, content_length);
    assert(ranges.push(range).drop_last() =~= ranges);
    assert(range_spans(Seq::empty(), content_length).len() == 0) by {
        reveal(Seq::filter_map);
    }
    assert(RangeView::Multi(Seq::empty()).header(content_length) =~= "bytes="@);
    if range.offset < content_length {
        let span = span_text(range.ends(content_length));
        assert(after =~= before.push(span)) by {
            reveal(Seq::filter_map);
        }
        assert(after.drop_last() =~= before);
        if before.len() == 0 {
            assert(comma_separated(before) =~= Seq::empty());
            assert("bytes="@ + span =~= "bytes="@ + Seq::empty() + (Seq::empty() + span));
        } else {
            assert("bytes="@ + (comma_separated(before) + ","@ + span) =~= "bytes="@
                + comma_separated(before) + (","@ + span));
        }
    } else {
        assert(after =~= before) by {
            reveal(Seq::filter_map);
        }
        assert("bytes="@ + comma_separated(before) =~= "bytes="@ + comma_separated(before)
            + Seq::empty());
    }
}

proof fn lemma_some_span(ranges: Seq<ByteRange>, content_length: usize)
    ensures
        range_spans(ranges, content_length).len() > 0 <==> (exists|i: int|
            0 <= i < ranges.len() && (#[trigger] ranges[i]).offset < content_length),
    decreases ranges.len(),
{
    reveal(Seq::filter_map);
    if ranges.len() > 0 {
        let front = ranges.drop_last();
        lemma_some_span(front, content_length);
        if exists|i: int| 0 <= i < front.len() && (#[trigger] front[i]).offset < content_length {
            let i = choose|i: int|
                0 <= i < front.len() && (#[trigger] front[i]).offset < content_length;
            assert(ranges[i].offset < content_length);
        }
        if exists|i: int| 0 <= i < ranges.len() && (#[trigger] ranges[i]).offset < content_length {
            let i = choose|i: int|
                0 <= i < ranges.len() && (#[trigger] ranges[i]).offset < content_length;
            if i < front.len() {
                assert(front[i].offset < content_length);
            }
        }
        assert(ranges.last() == ranges[ranges.len() - 1]);
    }
}

/// The replay of a recording requests, for each entry in turn, the bytes of that entry: all its
/// chunks in order as a list where it is vectored, and otherwise its first chunk alone.
pub proof fn replay_requests_each_entry(entries: Seq<RawTraceEntry>, i: int)
    requires
        0 <= i < entries.len(),
    ensures
        ({
            let actions = replay_actions(entries_view(entries));
            let chunks = entries[i].chunks@;
            &&& actions.len() == 2 * entries.len() - 1
            &&& actions[2 * i] is Request
            &&& entries[i].vector ==> {
                &&& actions[2 * i]->Request_0 is Multi
                &&& actions[2 * i]->Request_0->Multi_0.len() == chunks.len()
                &&& forall|j: int|
                    0 <= j < chunks.len() ==> {
                        let range = #[trigger] actions[2 * i]->Request_0->Multi_0[j];
                        range.offset == chunks[j].0 && range.size == chunks[j].1
                    }
            }
            &&& !entries[i].vector && chunks.len() > 0 ==> {
                &&& actions[2 * i]->Request_0 is Single
                &&& actions[2 * i]->Request_0->Single_0.offset == chunks[0].0
                &&& actions[2 * i]->Request_0->Single_0.size == chunks[0].1
            }
        }),
{
    assert((2 * i) / 2 == i && (2 * i) % 2 == 0);
}

/// Between the requests for two entries a replay waits for the time that was recorded from the end
/// of the first to the start of the second, and not at all where the second started before that.
pub proof fn replay_waits_between_entries(entries: Seq<RawTraceEntry>, i: int)
    requires
        0 <= i < entries.len() - 1,
    ensures
        replay_actions(entries_view(entries))[2 * i + 1] == ActionView::Sleep(
            (if entries[i].end_ms <= entries[i + 1].start_ms {
                entries[i + 1].start_ms - entries[i].end_ms
            } else {
                0
            }) as nat,
        ),
{
    assert((2 * i + 1) / 2 == i && (2 * i + 1) % 2 == 1);
}

/// An entry can be replayed unless it is not vectored and has no chunk.
pub proof fn only_chunkless_entries_are_incomplete(entry: RawTraceEntry)
    ensures
        !entry@.is_complete() <==> !entry.vector && entry.chunks@.len() == 0,
{
}

/// Actions and ranges stand for what they hold.
pub proof fn actions_stand_for_what_they_hold(
    range: Range,
    single: ByteRange,
    list: Vec<ByteRange>,
    ms: u64,
)
    ensures
        Action::Request(range)@ == ActionView::Request(range@),
        Action::Sleep(ms)@ == ActionView::Sleep(ms as nat),
        Range::Single(single)@ == RangeView::Single(single),
        Range::Multi(list)@ == RangeView::Multi(list@),
{
}

} // verus!
