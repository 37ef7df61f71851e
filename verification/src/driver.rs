//! Clients that make requests against one URL each.
//!
//! A client does no input or output of its own: it says what to do next, and is told what came
//! of it.
use crate::random::{draw, random_seed, seeded_generator, sha256};
#[allow(unused_imports)]
use crate::random::{chacha8_numbers, generator_numbers, numbers_after, sha256_digest};
use crate::size::NonZeroSize;
#[allow(unused_imports)]
use crate::text::decimal;
use crate::trace::{push_span, Action, RawTraceEntry, Trace, TraceError};
#[allow(unused_imports)]
use crate::trace::{
    entries_view, replay_actions, smaller, span_text, ActionView, ByteRange, EntryView, RangeView,
};
use crate::transport::{HeadResult, RangeResult, TransportError};
#[allow(unused_imports)]
use crate::transport::TransportErrorView;
use rand::rngs::ChaCha8Rng;
use std::sync::Arc;
use vstd::prelude::*;
#[allow(unused_imports)]
use vstd::string::StringSliceAdditionalSpecFns;

verus! {

/// The longest span of time, in nanoseconds: the largest number of seconds that a `u64` holds,
/// and a billionth less than a second more.
pub const MAX_NANOS: u128 = 18446744073709551615999999999;

/// What a client did, and what came of it. Points in time are nanoseconds since the Unix epoch;
/// spans of time are nanoseconds.
#[derive(Clone, Debug)]
pub struct ClientStats {
    pub url: String,
    pub start_time: i128,
    pub stop_time: i128,
    /// Number of requests made by the client.
    pub requests: usize,
    /// Total number of bytes read from responses.
    pub total_bytes: usize,
    /// Total time spent reading responses (excluding sleep time).
    pub nanos_reading: u128,
    /// Total time spent sleeping between requests.
    pub nanos_sleeping: u128,
    /// Last error encountered by the client, if any.
    pub error: Option<String>,
}

/// What a `ClientStats` stands for.
pub struct ClientStatsView {
    pub url: Seq<char>,
    pub start_time: int,
    pub stop_time: int,
    pub requests: nat,
    pub total_bytes: nat,
    pub nanos_reading: nat,
    pub nanos_sleeping: nat,
    pub error: Option<Seq<char>>,
}

impl View for ClientStats {
    type V = ClientStatsView;

    open spec fn view(&self) -> ClientStatsView {
        ClientStatsView {
            url: self.url@,
            start_time: self.start_time as int,
            stop_time: self.stop_time as int,
            requests: self.requests as nat,
            total_bytes: self.total_bytes as nat,
            nanos_reading: self.nanos_reading as nat,
            nanos_sleeping: self.nanos_sleeping as nat,
            error: match self.error {
                Some(text) => Some(text@),
                None => None,
            },
        }
    }
}

impl ClientStatsView {
    /// The statistics of a client that has done nothing yet.
    pub open spec fn fresh(url: Seq<char>, start_time: int, stop_time: int) -> ClientStatsView {
        ClientStatsView {
            url,
            start_time,
            stop_time,
            requests: 0,
            total_bytes: 0,
            nanos_reading: 0,
            nanos_sleeping: 0,
            error: None,
        }
    }
}

impl ClientStats {
    /// The statistics of a client that has done nothing yet. The clock is read once for each of
    /// the two times.
    pub fn new(url: &str, start_time: i128, stop_time: i128) -> (stats: ClientStats)
        ensures
            stats@ == ClientStatsView::fresh(url@, start_time as int, stop_time as int),
    {
        ClientStats {
            url: url.to_owned(),
            start_time,
            stop_time,
            requests: 0,
            total_bytes: 0,
            nanos_reading: 0,
            nanos_sleeping: 0,
            error: None,
        }
    }
}

/// What a client wants done.
#[derive(Clone, Debug)]
pub enum ClientStep {
    /// Send a HEAD request.
    Head,
    /// Send a GET request with this Range header.
    Request(String),
    /// Wait for this number of milliseconds, scaled as the user wishes.
    Sleep(u64),
}

/// What a `ClientStep` stands for.
pub enum ClientStepView {
    Head,
    Request(Seq<char>),
    Sleep(nat),
}

impl View for ClientStep {
    type V = ClientStepView;

    open spec fn view(&self) -> ClientStepView {
        match self {
            ClientStep::Head => ClientStepView::Head,
            ClientStep::Request(header) => ClientStepView::Request(header@),
            ClientStep::Sleep(ms) => ClientStepView::Sleep(*ms as nat),
        }
    }
}

/// A step or none, with its text.
pub open spec fn step_view(step: Option<ClientStep>) -> Option<ClientStepView> {
    match step {
        Some(step) => Some(step@),
        None => None,
    }
}

/// What a replay is made of.
#[derive(Clone, Debug)]
pub struct ReplayConfig {
    /// The recording to replay.
    pub entries: Vec<RawTraceEntry>,
}

/// Makes clients that replay a recording.
#[derive(Clone, Debug)]
pub struct ReplayDriver {
    /// The trace to replay (heavy object, so wrapped in Arc to avoid cloning).
    trace: Arc<Trace>,
}

impl View for ReplayDriver {
    type V = Seq<ActionView>;

    closed spec fn view(&self) -> Seq<ActionView> {
        self.trace@
    }
}

/// How clients make requests of a pattern.
#[derive(Clone, Copy, Debug)]
pub struct PatternConfig {
    /// Number of requests to generate.
    pub num_requests: usize,
    /// Size of each request in bytes.
    pub request_size: NonZeroSize,
    /// Deterministically seed the sequence of random ranges by the URL
    pub deterministic: bool,
}

/// Makes clients that request random ranges.
#[derive(Clone, Copy, Debug)]
pub struct PatternDriver {
    config: PatternConfig,
}

impl View for PatternDriver {
    type V = PatternConfig;

    closed spec fn view(&self) -> PatternConfig {
        self.config
    }
}

/// What is still to be requested.
#[derive(Debug)]
enum Plan<'a> {
    Replay { trace: &'a Trace, next: usize },
    Pattern { config: PatternConfig, issued: usize, rng: ChaCha8Rng },
}

/// What is still to be requested.
pub enum PlanView {
    /// The actions from position `next` on.
    Replay { actions: Seq<ActionView>, next: nat },
    /// Random ranges until `num_requests` have been requested, of which `issued` have been. The
    /// generator that picks them has `numbers` to give.
    Pattern {
        num_requests: nat,
        request_size: usize,
        issued: nat,
        numbers: Map<Seq<usize>, usize>,
    },
}

impl<'a> Plan<'a> {
    spec fn as_view(self) -> PlanView {
        match self {
            Plan::Replay { trace, next } => PlanView::Replay { actions: trace@, next: next as nat },
            Plan::Pattern { config, issued, rng } => PlanView::Pattern {
                num_requests: config.num_requests as nat,
                request_size: config.request_size@,
                issued: issued as nat,
                numbers: generator_numbers(rng),
            },
        }
    }
}

/// The largest position at which a range of `request_size` bytes, or of the whole content where
/// that is smaller, can start.
pub open spec fn max_start(request_size: usize, content_length: usize) -> usize {
    (content_length - smaller(request_size as int, content_length as int)) as usize
}

/// The first and the last position of a range of `request_size` bytes, or of the whole content
/// where that is smaller, that starts at `start`.
pub open spec fn pattern_ends(start: usize, request_size: usize, content_length: usize) -> (
    int,
    int,
) {
    (start as int, start + smaller(request_size as int, content_length as int) - 1)
}

impl PlanView {
    /// Whether the next step can be taken for a content of `content_length` bytes: where it
    /// replays a request, the range of that request has a header.
    pub open spec fn can_step(self, content_length: usize) -> bool {
        match self {
            PlanView::Replay { actions, next } => next < actions.len()
                && actions[next as int] is Request
                ==> actions[next as int]->Request_0.has_header(content_length),
            PlanView::Pattern { .. } => true,
        }
    }

    /// The position at which the next random range starts.
    pub open spec fn next_start(self, content_length: usize) -> usize {
        match self {
            PlanView::Replay { .. } => 0,
            PlanView::Pattern { request_size, numbers, .. } => numbers[seq![
                max_start(request_size, content_length),
            ]],
        }
    }

    /// The next step for a content of `content_length` bytes, if there is one.
    pub open spec fn step(self, content_length: usize) -> Option<ClientStepView> {
        match self {
            PlanView::Replay { actions, next } => if next < actions.len() {
                match actions[next as int] {
                    ActionView::Request(range) => Some(
                        ClientStepView::Request(range.header(content_length)),
                    ),
                    ActionView::Sleep(ms) => Some(ClientStepView::Sleep(ms)),
                }
            } else {
                None
            },
            PlanView::Pattern { num_requests, request_size, issued, .. } => if issued
                < num_requests {
                Some(
                    ClientStepView::Request(
                        "bytes="@ + span_text(
                            pattern_ends(
                                self.next_start(content_length),
                                request_size,
                                content_length,
                            ),
                        ),
                    ),
                )
            } else {
                None
            },
        }
    }

    /// What is still to be requested after the next step.
    pub open spec fn stepped(self, content_length: usize) -> PlanView {
        match self {
            PlanView::Replay { actions, next } => if next < actions.len() {
                PlanView::Replay { actions, next: next + 1 }
            } else {
                self
            },
            PlanView::Pattern { num_requests, request_size, issued, numbers } => if issued
                < num_requests {
                PlanView::Pattern {
                    num_requests,
                    request_size,
                    issued: issued + 1,
                    numbers: numbers_after(numbers, max_start(request_size, content_length)),
                }
            } else {
                self
            },
        }
    }
}

/// The length of a random range: what was asked for, or the whole content where that is smaller.
fn pattern_length(request_size: NonZeroSize, content_length: NonZeroSize) -> (length: usize)
    ensures
        length == smaller(request_size@ as int, content_length@ as int),
        0 < length <= content_length@,
{
    let size: usize = request_size.get();
    let content: usize = content_length.get();
    if size <= content {
        size
    } else {
        content
    }
}

/// The Range header for the random range that starts at `start`.
pub fn pattern_header(
    start: usize,
    request_size: NonZeroSize,
    content_length: NonZeroSize,
) -> (header: String)
    requires
        start <= max_start(request_size@, content_length@),
    ensures
        header@ == "bytes="@ + span_text(pattern_ends(start, request_size@, content_length@)),
{
    let end: usize = start + pattern_length(request_size, content_length) - 1;
    let mut header = "bytes=".to_owned();
    push_span(&mut header, start, end);
    header
}

impl<'a> Plan<'a> {
    /// Whether the next step can be taken.
    fn check_step(&self, content_length: usize) -> (yes: bool)
        ensures
            yes == self.as_view().can_step(content_length),
    {
        match self {
            Plan::Replay { trace, next } => {
                let actions = trace.actions();
                if *next < actions.len() {
                    assert(trace@[*next as int] == actions@[*next as int]@);
                    match &actions[*next] {
                        Action::Request(range) => range.check_header(content_length),
                        Action::Sleep(_) => true,
                    }
                } else {
                    true
                }
            },
            Plan::Pattern { .. } => true,
        }
    }

    /// Takes the next step.
    fn step(&mut self, content_length: NonZeroSize) -> (step: Option<ClientStep>)
        requires
            old(self).as_view().can_step(content_length@),
        ensures
            step_view(step) == old(self).as_view().step(content_length@),
            final(self).as_view() == old(self).as_view().stepped(content_length@),
            old(self).as_view() is Pattern && step is Some ==> old(self).as_view().next_start(
                content_length@,
            ) <= max_start(old(self).as_view()->request_size, content_length@),
    {
        let length: usize = content_length.get();
        match self {
            Plan::Replay { trace, next } => {
                let actions = trace.actions();
                let at: usize = *next;
                if at < actions.len() {
                    assert(trace@[at as int] == actions@[at as int]@);
                    *next = at + 1;
                    match &actions[at] {
                        Action::Request(range) => Some(
                            ClientStep::Request(range.to_header_value(length)),
                        ),
                        Action::Sleep(ms) => Some(ClientStep::Sleep(*ms)),
                    }
                } else {
                    None
                }
            },
            Plan::Pattern { config, issued, rng } => {
                if *issued < config.num_requests {
                    let request_length: usize = pattern_length(config.request_size, content_length);
                    let start: usize = draw(rng, length - request_length);
                    *issued = *issued + 1;
                    let header = pattern_header(start, config.request_size, content_length);
                    Some(ClientStep::Request(header))
                } else {
                    None
                }
            },
        }
    }
}

/// How far a client has come.
#[derive(Clone, Copy, Debug)]
enum Phase {
    AwaitingHead,
    Running(NonZeroSize),
    Stopped,
}

/// How far a client has come.
pub enum PhaseView {
    /// The size of the resource is not known yet.
    AwaitingHead,
    /// The resource has this size, and requests are made.
    Running(usize),
    /// An error has put an end to it.
    Stopped,
}

impl Phase {
    spec fn as_view(self) -> PhaseView {
        match self {
            Phase::AwaitingHead => PhaseView::AwaitingHead,
            Phase::Running(size) => PhaseView::Running(size@),
            Phase::Stopped => PhaseView::Stopped,
        }
    }
}

/// A client at work.
#[derive(Debug)]
pub struct ClientRun<'a> {
    phase: Phase,
    plan: Plan<'a>,
    stats: ClientStats,
}

/// What a `ClientRun` stands for.
pub struct ClientRunView {
    pub phase: PhaseView,
    pub plan: PlanView,
    pub stats: ClientStatsView,
}

impl<'a> View for ClientRun<'a> {
    type V = ClientRunView;

    closed spec fn view(&self) -> ClientRunView {
        ClientRunView {
            phase: self.phase.as_view(),
            plan: self.plan.as_view(),
            stats: self.stats@,
        }
    }
}

/// The outcome of a HEAD request: the size of the resource, or an error.
pub open spec fn head_view(head: Result<HeadResult, TransportError>) -> Result<
    usize,
    TransportErrorView,
> {
    match head {
        Ok(head) => Ok(head.content_length@),
        Err(error) => Err(error@),
    }
}

/// The outcome of a range request: the number of bytes received, or an error.
pub open spec fn response_view(response: Result<RangeResult, TransportError>) -> Result<
    nat,
    TransportErrorView,
> {
    match response {
        Ok(result) => Ok(result.total_bytes as nat),
        Err(error) => Err(error@),
    }
}

impl ClientStatsView {
    /// The statistics after a response that took `nanos` to read. A request that failed is not
    /// counted, nor is the time that it took.
    pub open spec fn with_response(
        self,
        response: Result<nat, TransportErrorView>,
        nanos: nat,
    ) -> ClientStatsView {
        match response {
            Ok(bytes) => ClientStatsView {
                requests: self.requests + 1,
                total_bytes: self.total_bytes + bytes,
                nanos_reading: self.nanos_reading + nanos,
                ..self
            },
            Err(error) => ClientStatsView {
                error: Some("Request failed: "@ + error.text()),
                ..self
            },
        }
    }

    /// Whether the statistics can hold what a response adds to them.
    pub open spec fn has_room(self, response: Result<nat, TransportErrorView>, nanos: nat) -> bool {
        response matches Ok(bytes) ==> {
            &&& self.requests + 1 <= usize::MAX
            &&& self.total_bytes + bytes <= usize::MAX
            &&& self.nanos_reading + nanos <= MAX_NANOS
        }
    }
}

impl ClientRunView {
    /// Whether the next step can be taken.
    pub open spec fn can_step(self) -> bool {
        self.phase matches PhaseView::Running(content_length) ==> self.plan.can_step(content_length)
    }

    /// The next step, if there is one.
    pub open spec fn step(self) -> Option<ClientStepView> {
        match self.phase {
            PhaseView::AwaitingHead => Some(ClientStepView::Head),
            PhaseView::Running(content_length) => self.plan.step(content_length),
            PhaseView::Stopped => None,
        }
    }

    /// The client once it has said what its next step is.
    pub open spec fn stepped(self) -> ClientRunView {
        match self.phase {
            PhaseView::Running(content_length) => ClientRunView {
                plan: self.plan.stepped(content_length),
                ..self
            },
            _ => self,
        }
    }

    /// The client after the HEAD request.
    pub open spec fn with_head(self, head: Result<usize, TransportErrorView>) -> ClientRunView {
        match head {
            Ok(content_length) => ClientRunView {
                phase: PhaseView::Running(content_length),
                ..self
            },
            Err(error) => ClientRunView {
                phase: PhaseView::Stopped,
                stats: ClientStatsView {
                    error: Some("Failed to get content length: "@ + error.text()),
                    ..self.stats
                },
                ..self
            },
        }
    }

    /// The client after a range request.
    pub open spec fn with_response(
        self,
        response: Result<nat, TransportErrorView>,
        nanos: nat,
    ) -> ClientRunView {
        ClientRunView {
            phase: if response is Ok {
                self.phase
            } else {
                PhaseView::Stopped
            },
            stats: self.stats.with_response(response, nanos),
            ..self
        }
    }

    /// The client after a pause of `nanos`.
    pub open spec fn with_sleep(self, nanos: nat) -> ClientRunView {
        ClientRunView {
            stats: ClientStatsView {
                nanos_sleeping: self.stats.nanos_sleeping + nanos,
                ..self.stats
            },
            ..self
        }
    }

    /// The statistics of the client when it is over. An error leaves the stop time as it was at
    /// the start.
    pub open spec fn finished(self, stop_time: int) -> ClientStatsView {
        match self.phase {
            PhaseView::Stopped => self.stats,
            _ => ClientStatsView { stop_time, ..self.stats },
        }
    }
}

impl<'a> ClientRun<'a> {
    /// The statistics so far.
    pub fn stats(&self) -> (stats: &ClientStats)
        ensures
            stats@ == self@.stats,
    {
        &self.stats
    }

    /// Whether the next step can be taken.
    pub fn check_step(&self) -> (yes: bool)
        ensures
            yes == self@.can_step(),
    {
        match &self.phase {
            Phase::Running(content_length) => self.plan.check_step(content_length.get()),
            _ => true,
        }
    }

    /// What to do next, if there is anything left to do. A random range that it names lies
    /// within the content.
    pub fn step(&mut self) -> (step: Option<ClientStep>)
        requires
            old(self)@.can_step(),
        ensures
            step_view(step) == old(self)@.step(),
            final(self)@ == old(self)@.stepped(),
            old(self)@.plan is Pattern && old(self)@.phase is Running && step is Some ==> old(
                self,
            )@.plan.next_start(old(self)@.phase->Running_0) <= max_start(
                old(self)@.plan->request_size,
                old(self)@.phase->Running_0,
            ),
    {
        match self.phase {
            Phase::AwaitingHead => Some(ClientStep::Head),
            Phase::Running(content_length) => self.plan.step(content_length),
            Phase::Stopped => None,
        }
    }

    /// Takes the outcome of the HEAD request.
    pub fn on_head(&mut self, head: Result<HeadResult, TransportError>)
        ensures
            final(self)@ == old(self)@.with_head(head_view(head)),
    {
        match head {
            Ok(head) => {
                self.phase = Phase::Running(head.content_length);
            },
            Err(error) => {
                self.stats.error = Some(
                    "Failed to get content length: ".to_owned().concat(error.describe().as_str()),
                );
                self.phase = Phase::Stopped;
            },
        }
    }

    /// Takes the outcome of a range request, and how long it took.
    pub fn on_response(&mut self, response: Result<RangeResult, TransportError>, nanos: u128)
        requires
            old(self)@.stats.has_room(response_view(response), nanos as nat),
        ensures
            final(self)@ == old(self)@.with_response(response_view(response), nanos as nat),
    {
        match response {
            Ok(result) => {
                self.stats.total_bytes = self.stats.total_bytes + result.total_bytes;
                self.stats.nanos_reading = self.stats.nanos_reading + nanos;
                self.stats.requests = self.stats.requests + 1;
            },
            Err(error) => {
                self.stats.error = Some(
                    "Request failed: ".to_owned().concat(error.describe().as_str()),
                );
                self.phase = Phase::Stopped;
            },
        }
    }

    /// Takes note of a pause.
    pub fn on_slept(&mut self, nanos: u128)
        requires
            old(self)@.stats.nanos_sleeping + nanos <= MAX_NANOS,
        ensures
            final(self)@ == old(self)@.with_sleep(nanos as nat),
    {
        self.stats.nanos_sleeping = self.stats.nanos_sleeping + nanos;
    }

    /// Puts an end to the client at the time `stop_time`.
    pub fn finish(self, stop_time: i128) -> (stats: ClientStats)
        ensures
            stats@ == self@.finished(stop_time as int),
    {
        let mut stats = self.stats;
        match self.phase {
            Phase::Stopped => {},
            _ => {
                stats.stop_time = stop_time;
            },
        }
        stats
    }
}

impl ReplayDriver {
    /// Makes the driver for a recording with at least one entry.
    pub fn new(config: &ReplayConfig) -> (driver: Result<ReplayDriver, TraceError>)
        requires
            config.entries@.len() > 0,
        ensures
            match driver {
                Ok(driver) => {
                    &&& driver@ == replay_actions(entries_view(config.entries@))
                    &&& forall|i: int|
                        0 <= i < config.entries@.len() ==> (
                        #[trigger] config.entries@[i])@.is_complete()
                },
                Err(error) => {
                    &&& error == TraceError::MissingChunk
                    &&& exists|i: int|
                        0 <= i < config.entries@.len() && !(
                        #[trigger] config.entries@[i])@.is_complete()
                },
            },
    {
        match Trace::from_entries(&config.entries) {
            Ok(trace) => Ok(ReplayDriver { trace: Arc::new(trace) }),
            Err(error) => Err(error),
        }
    }

    /// A client for `url`. The clock is read once for each of the two times.
    pub fn start(&self, url: &str, start_time: i128, stop_time: i128) -> (run: ClientRun<'_>)
        ensures
            run@ == (ClientRunView {
                phase: PhaseView::AwaitingHead,
                plan: PlanView::Replay { actions: self@, next: 0 },
                stats: ClientStatsView::fresh(url@, start_time as int, stop_time as int),
            }),
    {
        ClientRun {
            phase: Phase::AwaitingHead,
            plan: Plan::Replay { trace: &self.trace, next: 0 },
            stats: ClientStats::new(url, start_time, stop_time),
        }
    }
}

impl PatternDriver {
    pub fn new(config: PatternConfig) -> (driver: PatternDriver)
        ensures
            driver@ == config,
    {
        PatternDriver { config }
    }

    /// A client for `url`. The clock is read once for each of the two times.
    pub fn start(&self, url: &str, start_time: i128, stop_time: i128) -> (run: ClientRun<'static>)
        ensures
            exists|seed: Seq<u8>| #[trigger]
                pattern_start(self@, seed, url@, start_time as int, stop_time as int) == run@ && (
                self@.deterministic ==> seed == sha256_digest(url.spec_bytes())),
    {
        let seed: [u8; 32] = if self.config.deterministic {
            sha256(url.as_bytes())
        } else {
            random_seed()
        };
        let run = self.start_seeded(url, seed, start_time, stop_time);
        assert(pattern_start(self@, seed@, url@, start_time as int, stop_time as int) == run@);
        run
    }

    /// A client for `url` whose generator is made from `seed`.
    pub fn start_seeded(
        &self,
        url: &str,
        seed: [u8; 32],
        start_time: i128,
        stop_time: i128,
    ) -> (run: ClientRun<'static>)
        ensures
            run@ == pattern_start(self@, seed@, url@, start_time as int, stop_time as int),
    {
        ClientRun {
            phase: Phase::AwaitingHead,
            plan: Plan::Pattern { config: self.config, issued: 0, rng: seeded_generator(seed) },
            stats: ClientStats::new(url, start_time, stop_time),
        }
    }
}

/// A client that requests random ranges, before it has done anything, whose generator was made
/// from `seed`.
pub open spec fn pattern_start(
    config: PatternConfig,
    seed: Seq<u8>,
    url: Seq<char>,
    start_time: int,
    stop_time: int,
) -> ClientRunView {
    ClientRunView {
        phase: PhaseView::AwaitingHead,
        plan: PlanView::Pattern {
            num_requests: config.num_requests as nat,
            request_size: config.request_size@,
            issued: 0,
            numbers: chacha8_numbers(seed),
        },
        stats: ClientStatsView::fresh(url, start_time, stop_time),
    }
}

/// What clients do.
#[derive(Clone, Debug)]
pub enum DriverConfig {
    Replay(ReplayConfig),
    Pattern(PatternConfig),
}

/// Makes clients.
#[derive(Clone, Debug)]
pub enum ClientDriver {
    Replay(ReplayDriver),
    Pattern(PatternDriver),
}

impl ClientDriver {
    /// Makes the driver that a configuration asks for. A recording to replay has at least one
    /// entry.
    pub fn new(config: DriverConfig) -> (driver: Result<ClientDriver, TraceError>)
        requires
            config matches DriverConfig::Replay(replay) ==> replay.entries@.len() > 0,
        ensures
            match config {
                DriverConfig::Replay(replay) => match driver {
                    Ok(driver) => {
                        &&& driver is Replay
                        &&& driver->Replay_0@ == replay_actions(entries_view(replay.entries@))
                        &&& forall|i: int|
                            0 <= i < replay.entries@.len() ==> (
                            #[trigger] replay.entries@[i])@.is_complete()
                    },
                    Err(error) => {
                        &&& error == TraceError::MissingChunk
                        &&& exists|i: int|
                            0 <= i < replay.entries@.len() && !(
                            #[trigger] replay.entries@[i])@.is_complete()
                    },
                },
                DriverConfig::Pattern(pattern) => {
                    &&& driver is Ok
                    &&& driver->Ok_0 is Pattern
                    &&& driver->Ok_0->Pattern_0@ == pattern
                },
            },
    {
        match config {
            DriverConfig::Replay(replay) => match ReplayDriver::new(&replay) {
                Ok(driver) => Ok(ClientDriver::Replay(driver)),
                Err(error) => Err(error),
            },
            DriverConfig::Pattern(pattern) => Ok(
                ClientDriver::Pattern(PatternDriver::new(pattern)),
            ),
        }
    }

    /// A client for `url`. The clock is read once for each of the two times.
    pub fn start(&self, url: &str, start_time: i128, stop_time: i128) -> (run: ClientRun<'_>)
        ensures
            match self {
                ClientDriver::Replay(driver) => run@ == (ClientRunView {
                    phase: PhaseView::AwaitingHead,
                    plan: PlanView::Replay { actions: driver@, next: 0 },
                    stats: ClientStatsView::fresh(url@, start_time as int, stop_time as int),
                }),
                ClientDriver::Pattern(driver) => exists|seed: Seq<u8>| #[trigger]
                    pattern_start(driver@, seed, url@, start_time as int, stop_time as int) == run@
                        && (driver@.deterministic ==> seed == sha256_digest(url.spec_bytes())),
            },
    {
        match self {
            ClientDriver::Replay(driver) => driver.start(url, start_time, stop_time),
            ClientDriver::Pattern(driver) => driver.start(url, start_time, stop_time),
        }
    }
}

/// What came of a step that was carried out.
pub enum ClientEvent {
    /// A range request was answered or failed, and took this many nanoseconds.
    Response(Result<nat, TransportErrorView>, nat),
    /// A pause took this many nanoseconds.
    Slept(nat),
}

impl ClientEvent {
    /// Whether nothing went wrong.
    pub open spec fn is_good(self) -> bool {
        self matches ClientEvent::Response(response, _) ==> response is Ok
    }
}

/// Whether nothing went wrong in any of `events`.
pub open spec fn all_good(events: Seq<ClientEvent>) -> bool {
    forall|i: int| 0 <= i < events.len() ==> (#[trigger] events[i]).is_good()
}

impl ClientRunView {
    /// The client after what came of a step.
    pub open spec fn with_event(self, event: ClientEvent) -> ClientRunView {
        match event {
            ClientEvent::Response(response, nanos) => self.with_response(response, nanos),
            ClientEvent::Slept(nanos) => self.with_sleep(nanos),
        }
    }

    /// The client after as many steps as there are `events`, each of which came of its step.
    pub open spec fn after(self, events: Seq<ClientEvent>) -> ClientRunView
        decreases events.len(),
    {
        if events.len() == 0 {
            self
        } else {
            self.after(events.drop_last()).stepped().with_event(events.last())
        }
    }
}

/// Number of responses among `events`.
pub open spec fn responses(events: Seq<ClientEvent>) -> nat
    decreases events.len(),
{
    if events.len() == 0 {
        0
    } else {
        responses(events.drop_last()) + if events.last() is Response {
            1nat
        } else {
            0nat
        }
    }
}

/// Number of bytes in the responses among `events`.
pub open spec fn bytes_received(events: Seq<ClientEvent>) -> nat
    decreases events.len(),
{
    if events.len() == 0 {
        0
    } else {
        bytes_received(events.drop_last()) + match events.last() {
            ClientEvent::Response(Ok(bytes), _) => bytes,
            _ => 0,
        }
    }
}

/// Time that the responses among `events` took.
pub open spec fn nanos_read(events: Seq<ClientEvent>) -> nat
    decreases events.len(),
{
    if events.len() == 0 {
        0
    } else {
        nanos_read(events.drop_last()) + match events.last() {
            ClientEvent::Response(Ok(_), nanos) => nanos,
            _ => 0,
        }
    }
}

/// Time that the pauses among `events` took.
pub open spec fn nanos_slept(events: Seq<ClientEvent>) -> nat
    decreases events.len(),
{
    if events.len() == 0 {
        0
    } else {
        nanos_slept(events.drop_last()) + match events.last() {
            ClientEvent::Slept(nanos) => nanos,
            _ => 0,
        }
    }
}

proof fn lemma_front_is_good(events: Seq<ClientEvent>)
    requires
        all_good(events),
        events.len() > 0,
    ensures
        all_good(events.drop_last()),
        events.last().is_good(),
{
    let front = events.drop_last();
    assert forall|i: int| 0 <= i < front.len() implies (#[trigger] front[i]).is_good() by {
        assert(events[i].is_good());
    }
    assert(events[events.len() - 1].is_good());
}

/// As long as nothing goes wrong, a client counts each response, each byte in it and the time
/// that it took, and each pause, and nothing else changes in its statistics.
pub proof fn stats_add_up(run: ClientRunView, events: Seq<ClientEvent>)
    requires
        all_good(events),
    ensures
        run.after(events).phase == run.phase,
        run.after(events).stats == (ClientStatsView {
            requests: run.stats.requests + responses(events),
            total_bytes: run.stats.total_bytes + bytes_received(events),
            nanos_reading: run.stats.nanos_reading + nanos_read(events),
            nanos_sleeping: run.stats.nanos_sleeping + nanos_slept(events),
            ..run.stats
        }),
    decreases events.len(),
{
    if events.len() > 0 {
        let front = events.drop_last();
        lemma_front_is_good(events);
        stats_add_up(run, front);
    }
}

/// A client whose request failed makes no more requests. It keeps the statistics that it had,
/// its stop time among them, and says why it failed.
pub proof fn failed_request_stops_client(
    run: ClientRunView,
    error: TransportErrorView,
    nanos: nat,
    stop_time: int,
)
    ensures
        run.with_response(Err(error), nanos).step() is None,
        run.with_response(Err(error), nanos).stepped() == run.with_response(Err(error), nanos),
        run.with_response(Err(error), nanos).finished(stop_time) == (ClientStatsView {
            error: Some("Request failed: "@ + error.text()),
            ..run.stats
        }),
{
}

/// A client whose HEAD request failed makes no request at all.
pub proof fn failed_head_stops_client(
    run: ClientRunView,
    error: TransportErrorView,
    stop_time: int,
)
    ensures
        run.with_head(Err(error)).step() is None,
        run.with_head(Err(error)).stepped() == run.with_head(Err(error)),
        run.with_head(Err(error)).finished(stop_time) == (ClientStatsView {
            error: Some("Failed to get content length: "@ + error.text()),
            ..run.stats
        }),
{
}

/// A client that is not stopped has no error that it did not have before, and stops at the time
/// at which it is told to.
pub proof fn finished_client_has_stop_time(
    run: ClientRunView,
    events: Seq<ClientEvent>,
    stop_time: int,
)
    requires
        run.phase is Running,
        all_good(events),
    ensures
        run.after(events).finished(stop_time).stop_time == stop_time,
        run.after(events).finished(stop_time).error == run.stats.error,
{
    stats_add_up(run, events);
}

/// Whether `events` came of the first of `actions`: a response of each request, a pause of each
/// pause.
pub open spec fn came_of(events: Seq<ClientEvent>, actions: Seq<ActionView>) -> bool {
    &&& events.len() <= actions.len()
    &&& forall|i: int|
        0 <= i < events.len() ==> ((#[trigger] events[i]) is Response <==> actions[i] is Request)
}

/// As long as nothing goes wrong, a replay carries out the actions of its trace one by one, from
/// the first to the last, and then is over.
pub proof fn replay_follows_trace(
    run: ClientRunView,
    actions: Seq<ActionView>,
    content_length: usize,
    events: Seq<ClientEvent>,
)
    requires
        run.phase == PhaseView::Running(content_length),
        run.plan == (PlanView::Replay { actions, next: 0 }),
        events.len() <= actions.len(),
        all_good(events),
    ensures
        run.after(events).plan == (PlanView::Replay { actions, next: events.len() }),
        run.after(events).step() == if events.len() < actions.len() {
            Some(
                match actions[events.len() as int] {
                    ActionView::Request(range) => ClientStepView::Request(
                        range.header(content_length),
                    ),
                    ActionView::Sleep(ms) => ClientStepView::Sleep(ms),
                },
            )
        } else {
            None
        },
    decreases events.len(),
{
    stats_add_up(run, events);
    if events.len() > 0 {
        let front = events.drop_last();
        lemma_front_is_good(events);
        stats_add_up(run, front);
        replay_follows_trace(run, actions, content_length, front);
    }
}

/// Number of requests among `actions`.
pub open spec fn request_count(actions: Seq<ActionView>) -> nat {
    actions.filter(|action: ActionView| action is Request).len()
}

proof fn lemma_responses_match_requests(events: Seq<ClientEvent>, actions: Seq<ActionView>)
    requires
        came_of(events, actions),
    ensures
        responses(events) == request_count(actions.take(events.len() as int)),
    decreases events.len(),
{
    let is_request = |action: ActionView| action is Request;
    let n = events.len() as int;
    if n > 0 {
        let front = events.drop_last();
        assert forall|i: int| 0 <= i < front.len() implies ((#[trigger] front[i]) is Response
            <==> actions[i] is Request) by {
            assert(events[i] is Response <==> actions[i] is Request);
        }
        lemma_responses_match_requests(front, actions);
        assert(actions.take(n) =~= actions.take(n - 1).push(actions[n - 1]));
        actions.take(n - 1).lemma_filter_push(actions[n - 1], is_request);
        assert(events[n - 1] is Response <==> actions[n - 1] is Request);
    } else {
        assert(actions.take(0) =~= Seq::empty());
        assert(Seq::<ActionView>::empty().filter(is_request).len() == 0) by {
            reveal(Seq::filter);
        }
    }
}

/// A replay in which nothing goes wrong counts as many requests as its trace has.
pub proof fn replay_counts_requests(
    run: ClientRunView,
    actions: Seq<ActionView>,
    content_length: usize,
    events: Seq<ClientEvent>,
)
    requires
        run.phase == PhaseView::Running(content_length),
        run.plan == (PlanView::Replay { actions, next: 0 }),
        events.len() == actions.len(),
        came_of(events, actions),
        all_good(events),
    ensures
        run.after(events).step() is None,
        run.after(events).stats.requests == run.stats.requests + request_count(actions),
{
    stats_add_up(run, events);
    replay_follows_trace(run, actions, content_length, events);
    lemma_responses_match_requests(events, actions);
    assert(actions.take(events.len() as int) =~= actions);
}

/// The replay of a recording makes one request for each entry.
pub proof fn recording_has_one_request_per_entry(entries: Seq<EntryView>)
    requires
        entries.len() > 0,
    ensures
        request_count(replay_actions(entries)) == entries.len(),
    decreases entries.len(),
{
    let is_request = |action: ActionView| action is Request;
    let actions = replay_actions(entries);
    let last = actions.len() - 1;
    assert(actions =~= actions.take(last).push(actions[last]));
    actions.take(last).lemma_filter_push(actions[last], is_request);
    if entries.len() == 1 {
        assert(actions.take(last) =~= Seq::empty());
        assert(actions.take(last).filter(is_request).len() == 0) by {
            reveal(Seq::filter);
        }
    } else {
        let front = replay_actions(entries.drop_last());
        assert(actions.take(last) =~= front.push(actions[last - 1]));
        front.lemma_filter_push(actions[last - 1], is_request);
        recording_has_one_request_per_entry(entries.drop_last());
    }
}

/// The bound `max`, `n` times.
pub open spec fn repeated(max: usize, n: nat) -> Seq<usize> {
    Seq::new(n, |i: int| max)
}

proof fn lemma_all_responses(events: Seq<ClientEvent>)
    requires
        forall|i: int| 0 <= i < events.len() ==> (#[trigger] events[i]) is Response,
    ensures
        responses(events) == events.len(),
    decreases events.len(),
{
    if events.len() > 0 {
        let front = events.drop_last();
        assert forall|i: int| 0 <= i < front.len() implies (#[trigger] front[i]) is Response by {
            assert(events[i] is Response);
        }
        lemma_all_responses(front);
        assert(events[events.len() - 1] is Response);
    }
}

/// As long as nothing goes wrong, a client of the pattern requests the range that its generator
/// picks, as often as it is told to, and then is over. It counts as many requests as it made.
pub proof fn pattern_makes_its_requests(
    run: ClientRunView,
    num_requests: nat,
    request_size: usize,
    numbers: Map<Seq<usize>, usize>,
    content_length: usize,
    events: Seq<ClientEvent>,
)
    requires
        run.phase == PhaseView::Running(content_length),
        run.plan == (PlanView::Pattern { num_requests, request_size, issued: 0, numbers }),
        events.len() <= num_requests,
        forall|i: int| 0 <= i < events.len() ==> (#[trigger] events[i]) is Response,
        all_good(events),
    ensures
        run.after(events).step() == if events.len() < num_requests {
            Some(
                ClientStepView::Request(
                    "bytes="@ + span_text(
                        pattern_ends(
                            numbers[repeated(
                                max_start(request_size, content_length),
                                events.len() + 1,
                            )],
                            request_size,
                            content_length,
                        ),
                    ),
                ),
            )
        } else {
            None
        },
        run.after(events).stats.requests == run.stats.requests + events.len(),
{
    stats_add_up(run, events);
    lemma_all_responses(events);
    lemma_pattern_plan(run, num_requests, request_size, numbers, content_length, events);
    let max = max_start(request_size, content_length);
    let n = events.len();
    if n < num_requests {
        let left = run.after(events).plan->numbers;
        assert(left[seq![max]] == numbers[repeated(max, n) + seq![max]]);
        assert(repeated(max, n) + seq![max] =~= repeated(max, n + 1));
    }
}

proof fn lemma_pattern_plan(
    run: ClientRunView,
    num_requests: nat,
    request_size: usize,
    numbers: Map<Seq<usize>, usize>,
    content_length: usize,
    events: Seq<ClientEvent>,
)
    requires
        run.phase == PhaseView::Running(content_length),
        run.plan == (PlanView::Pattern { num_requests, request_size, issued: 0, numbers }),
        events.len() <= num_requests,
        all_good(events),
    ensures
        run.after(events).plan matches PlanView::Pattern {
            num_requests: n,
            request_size: size,
            issued,
            numbers: left,
        } && n == num_requests && size == request_size && issued == events.len() && forall|
            later: Seq<usize>,
        |
            later.len() > 0 ==> #[trigger] left[later] == numbers[repeated(
                max_start(request_size, content_length),
                events.len(),
            ) + later],
    decreases events.len(),
{
    let max = max_start(request_size, content_length);
    if events.len() == 0 {
        assert forall|later: Seq<usize>| later.len() > 0 implies #[trigger] numbers[later]
            == numbers[repeated(max, 0) + later] by {
            assert(repeated(max, 0) + later =~= later);
        }
    } else {
        let front = events.drop_last();
        lemma_front_is_good(events);
        stats_add_up(run, front);
        lemma_pattern_plan(run, num_requests, request_size, numbers, content_length, front);
        let before = run.after(front).plan->numbers;
        let left = run.after(events).plan->numbers;
        assert(left == numbers_after(before, max));
        assert forall|later: Seq<usize>| later.len() > 0 implies #[trigger] left[later]
            == numbers[repeated(max, events.len()) + later] by {
            assert(left[later] == before[seq![max] + later]);
            assert(repeated(max, front.len()) + (seq![max] + later) =~= repeated(max, events.len())
                + later);
        }
    }
}

/// Two clients of the pattern with the same settings and the same seed request the same ranges of
/// resources of the same size, however much the servers answer and however long that takes. With
/// the deterministic setting the seed depends on the URL alone.
pub proof fn same_seed_requests_same_ranges(
    config: PatternConfig,
    seed: Seq<u8>,
    url: Seq<char>,
    content_length: usize,
    times: (int, int),
    events: Seq<ClientEvent>,
    other_times: (int, int),
    other_events: Seq<ClientEvent>,
)
    requires
        events.len() == other_events.len() <= config.num_requests,
        forall|i: int| 0 <= i < events.len() ==> (#[trigger] events[i]) is Response,
        forall|i: int| 0 <= i < events.len() ==> (#[trigger] other_events[i]) is Response,
        all_good(events),
        all_good(other_events),
    ensures
        pattern_start(config, seed, url, times.0, times.1).with_head(Ok(content_length)).after(
            events,
        ).step() == pattern_start(config, seed, url, other_times.0, other_times.1).with_head(
            Ok(content_length),
        ).after(other_events).step(),
{
    let run = pattern_start(config, seed, url, times.0, times.1).with_head(Ok(content_length));
    let other = pattern_start(config, seed, url, other_times.0, other_times.1).with_head(
        Ok(content_length),
    );
    let num_requests = config.num_requests as nat;
    let size = config.request_size@;
    let numbers = chacha8_numbers(seed);
    pattern_makes_its_requests(run, num_requests, size, numbers, content_length, events);
    pattern_makes_its_requests(other, num_requests, size, numbers, content_length, other_events);
}

/// A random range lies within the content and is as long as asked for, or as long as the content
/// where that is shorter. Its header is that of a single range.
pub proof fn pattern_range_lies_in_content(start: usize, request_size: usize, content_length: usize)
    requires
        0 < request_size,
        0 < content_length,
        start <= max_start(request_size, content_length),
    ensures
        ({
            let ends = pattern_ends(start, request_size, content_length);
            let length = smaller(request_size as int, content_length as int);
            &&& 0 <= ends.0 <= ends.1 < content_length
            &&& ends.1 - ends.0 + 1 == length
            &&& "bytes="@ + span_text(ends) == RangeView::Single(
                ByteRange { offset: start, size: length as usize },
            ).header(content_length)
        }),
{
}

/// After a HEAD request that states a size, a client runs with exactly that size. What it still has
/// to request and its statistics are as before.
pub proof fn client_runs_with_the_stated_size(run: ClientRunView, content_length: usize)
    ensures
        run.with_head(Ok(content_length)).phase == PhaseView::Running(content_length),
        run.with_head(Ok(content_length)).plan == run.plan,
        run.with_head(Ok(content_length)).stats == run.stats,
{
}

/// The outcomes of requests stand for what they hold: the size that was stated, the number of bytes
/// that were received, the error.
pub proof fn outcomes_stand_for_what_they_hold(
    head: HeadResult,
    response: RangeResult,
    error: TransportError,
)
    ensures
        head_view(Ok(head)) == Ok::<usize, TransportErrorView>(head.content_length@),
        head_view(Err(error)) == Err::<usize, TransportErrorView>(error@),
        response_view(Ok(response)) == Ok::<nat, TransportErrorView>(response.total_bytes as nat),
        response_view(Err(error)) == Err::<nat, TransportErrorView>(error@),
{
}

/// A client asks for the size first. It does nothing more once an error has stopped it.
pub proof fn client_starts_with_head(run: ClientRunView)
    ensures
        run.phase is AwaitingHead ==> run.step() == Some(ClientStepView::Head) && run.stepped()
            == run && run.can_step(),
        run.phase is Stopped ==> run.step() is None && run.stepped() == run && run.can_step(),
{
}

/// A response that is read adds one request, its bytes and its time to the statistics and changes
/// nothing else in them. A request that fails adds nothing. A pause adds its time asleep.
pub proof fn events_add_to_statistics(
    run: ClientRunView,
    bytes: nat,
    error: TransportErrorView,
    nanos: nat,
)
    ensures
        ({
            let answered = run.with_event(ClientEvent::Response(Ok(bytes), nanos));
            &&& answered.stats.requests == run.stats.requests + 1
            &&& answered.stats.total_bytes == run.stats.total_bytes + bytes
            &&& answered.stats.nanos_reading == run.stats.nanos_reading + nanos
            &&& answered.stats.nanos_sleeping == run.stats.nanos_sleeping
            &&& answered.stats.url == run.stats.url
            &&& answered.stats.start_time == run.stats.start_time
            &&& answered.stats.stop_time == run.stats.stop_time
            &&& answered.stats.error == run.stats.error
            &&& answered.phase == run.phase
            &&& answered.plan == run.plan
        }),
        ({
            let failed = run.with_event(ClientEvent::Response(Err(error), nanos));
            &&& failed.stats.requests == run.stats.requests
            &&& failed.stats.total_bytes == run.stats.total_bytes
            &&& failed.stats.nanos_reading == run.stats.nanos_reading
            &&& failed.stats.nanos_sleeping == run.stats.nanos_sleeping
            &&& failed.stats.url == run.stats.url
            &&& failed.stats.start_time == run.stats.start_time
            &&& failed.stats.stop_time == run.stats.stop_time
            &&& failed.stats.error == Some("Request failed: "@ + error.text())
            &&& failed.phase is Stopped
            &&& failed.plan == run.plan
        }),
        ({
            let slept = run.with_event(ClientEvent::Slept(nanos));
            &&& slept.stats.requests == run.stats.requests
            &&& slept.stats.total_bytes == run.stats.total_bytes
            &&& slept.stats.nanos_reading == run.stats.nanos_reading
            &&& slept.stats.nanos_sleeping == run.stats.nanos_sleeping + nanos
            &&& slept.stats.url == run.stats.url
            &&& slept.stats.start_time == run.stats.start_time
            &&& slept.stats.stop_time == run.stats.stop_time
            &&& slept.stats.error == run.stats.error
            &&& slept.phase == run.phase
            &&& slept.plan == run.plan
        }),
        run.with_event(ClientEvent::Response(Ok(bytes), nanos)) == run.with_response(
            Ok(bytes),
            nanos,
        ),
        run.with_event(ClientEvent::Response(Err(error), nanos)) == run.with_response(
            Err(error),
            nanos,
        ),
        run.with_event(ClientEvent::Slept(nanos)) == run.with_sleep(nanos),
{
}

/// Events happen to a client one after the other, each after one more step.
pub proof fn events_happen_in_turn(
    run: ClientRunView,
    events: Seq<ClientEvent>,
    event: ClientEvent,
)
    ensures
        run.after(Seq::empty()) == run,
        run.after(events.push(event)) == run.after(events).stepped().with_event(event),
{
    assert(events.push(event).drop_last() =~= events);
}

/// Totals over events are sums: each event adds its own share to them.
pub proof fn totals_are_sums(events: Seq<ClientEvent>, event: ClientEvent)
    ensures
        responses(Seq::empty()) == 0,
        bytes_received(Seq::empty()) == 0,
        nanos_read(Seq::empty()) == 0,
        nanos_slept(Seq::empty()) == 0,
        responses(events.push(event)) == responses(events) + match event {
            ClientEvent::Response(_, _) => 1nat,
            ClientEvent::Slept(_) => 0nat,
        },
        bytes_received(events.push(event)) == bytes_received(events) + match event {
            ClientEvent::Response(Ok(bytes), _) => bytes,
            _ => 0nat,
        },
        nanos_read(events.push(event)) == nanos_read(events) + match event {
            ClientEvent::Response(Ok(_), nanos) => nanos,
            _ => 0nat,
        },
        nanos_slept(events.push(event)) == nanos_slept(events) + match event {
            ClientEvent::Slept(nanos) => nanos,
            _ => 0nat,
        },
{
    assert(events.push(event).drop_last() =~= events);
}

/// The statistics of a client that ran without an error are, when it is over, what adds up from all
/// that happened to it: its URL, the time at which it started and that at which it was over, one
/// request for each response, and all bytes and all time spent reading and sleeping.
pub proof fn finished_statistics_add_up(
    run: ClientRunView,
    url: Seq<char>,
    start_time: int,
    first_stop_time: int,
    content_length: usize,
    events: Seq<ClientEvent>,
    stop_time: int,
)
    requires
        run.phase is AwaitingHead,
        run.stats == ClientStatsView::fresh(url, start_time, first_stop_time),
        forall|i: int|
            0 <= i < events.len() ==> !((#[trigger] events[i]) is Response
                && events[i]->Response_0 is Err),
    ensures
        ({
            let stats = run.with_head(Ok(content_length)).after(events).finished(stop_time);
            &&& stats.url == url
            &&& stats.start_time == start_time
            &&& stats.stop_time == stop_time
            &&& stats.requests == responses(events)
            &&& stats.total_bytes == bytes_received(events)
            &&& stats.nanos_reading == nanos_read(events)
            &&& stats.nanos_sleeping == nanos_slept(events)
            &&& stats.error is None
        }),
{
    assert(all_good(events));
    stats_add_up(run.with_head(Ok(content_length)), events);
}

/// Whatever a client has counted, being over changes its stop time alone, and not even that where an
/// error has stopped it.
pub proof fn finishing_keeps_what_was_counted(run: ClientRunView, stop_time: int)
    ensures
        run.finished(stop_time).url == run.stats.url,
        run.finished(stop_time).start_time == run.stats.start_time,
        run.finished(stop_time).requests == run.stats.requests,
        run.finished(stop_time).total_bytes == run.stats.total_bytes,
        run.finished(stop_time).nanos_reading == run.stats.nanos_reading,
        run.finished(stop_time).nanos_sleeping == run.stats.nanos_sleeping,
        run.finished(stop_time).error == run.stats.error,
        run.finished(stop_time).stop_time == if run.phase is Stopped {
            run.stats.stop_time
        } else {
            stop_time
        },
{
}

/// A client that has done nothing yet has counted nothing and has no error.
pub proof fn fresh_statistics_are_empty(url: Seq<char>, start_time: int, stop_time: int)
    ensures
        ({
            let stats = ClientStatsView::fresh(url, start_time, stop_time);
            &&& stats.url == url
            &&& stats.start_time == start_time
            &&& stats.stop_time == stop_time
            &&& stats.requests == 0
            &&& stats.total_bytes == 0
            &&& stats.nanos_reading == 0
            &&& stats.nanos_sleeping == 0
            &&& stats.error is None
        }),
{
}

/// Statistics and steps stand for what they hold.
pub proof fn statistics_stand_for_what_they_hold(stats: ClientStats, header: String, ms: u64)
    ensures
        stats@.url == stats.url@,
        stats@.start_time == stats.start_time,
        stats@.stop_time == stats.stop_time,
        stats@.requests == stats.requests,
        stats@.total_bytes == stats.total_bytes,
        stats@.nanos_reading == stats.nanos_reading,
        stats@.nanos_sleeping == stats.nanos_sleeping,
        stats@.error is Some <==> stats.error is Some,
        stats.error is Some ==> stats@.error->0 == stats.error->0@,
        step_view(Some(ClientStep::Head)) == Some(ClientStepView::Head),
        step_view(Some(ClientStep::Request(header))) == Some(ClientStepView::Request(header@)),
        step_view(Some(ClientStep::Sleep(ms))) == Some(ClientStepView::Sleep(ms as nat)),
        step_view(None) is None,
{
}

/// Statistics have room for a response as long as its sums fit, and always for an error. A span of
/// time fits if its seconds fit into a `u64`.
pub proof fn statistics_have_room_for_what_fits(
    stats: ClientStatsView,
    bytes: nat,
    error: TransportErrorView,
    nanos: nat,
)
    ensures
        stats.has_room(Ok(bytes), nanos) <==> stats.requests < usize::MAX && stats.total_bytes + bytes
            <= usize::MAX && (stats.nanos_reading + nanos) / 1_000_000_000 <= u64::MAX,
        stats.has_room(Err(error), nanos),
        nanos <= MAX_NANOS <==> nanos / 1_000_000_000 <= u64::MAX,
{
}

/// A client can take its next step unless that is a request for a range of a trace that has no
/// header.
pub proof fn clients_can_step(run: ClientRunView, content_length: usize)
    requires
        run.phase == PhaseView::Running(content_length),
    ensures
        run.plan is Pattern ==> run.can_step(),
        run.plan is Replay ==> (run.can_step() <==> !(run.plan->next < run.plan->actions.len()
            && run.plan->actions[run.plan->next as int] is Request
            && !run.plan->actions[run.plan->next as int]->Request_0.has_header(content_length))),
{
}

/// From its start on, the replay of a recording asks for the size of the resource and then carries
/// out, one by one, a request for each entry and a pause between two. A request asks for the chunks
/// of its entry, trimmed to the size that was stated.
pub proof fn replay_carries_out_the_recording(
    run: ClientRunView,
    entries: Seq<RawTraceEntry>,
    content_length: usize,
    events: Seq<ClientEvent>,
)
    requires
        entries.len() > 0,
        run.phase is AwaitingHead,
        run.plan == (PlanView::Replay {
            actions: replay_actions(entries_view(entries)),
            next: 0,
        }),
        events.len() <= 2 * entries.len() - 1,
        forall|i: int|
            0 <= i < events.len() ==> !((#[trigger] events[i]) is Response
                && events[i]->Response_0 is Err),
    ensures
        run.step() == Some(ClientStepView::Head),
        ({
            let step = run.with_head(Ok(content_length)).after(events).step();
            let at = events.len() as int / 2;
            let entry = entries[at];
            if events.len() == 2 * entries.len() - 1 {
                step is None
            } else if events.len() % 2 == 1 {
                step == Some(
                    ClientStepView::Sleep(
                        (if entry.end_ms <= entries[at + 1].start_ms {
                            entries[at + 1].start_ms - entry.end_ms
                        } else {
                            0
                        }) as nat,
                    ),
                )
            } else if entry.vector {
                step == Some(
                    ClientStepView::Request(
                        RangeView::Multi(
                            Seq::new(
                                entry.chunks@.len(),
                                |j: int|
                                    ByteRange {
                                        offset: entry.chunks@[j].0,
                                        size: entry.chunks@[j].1,
                                    },
                            ),
                        ).header(content_length),
                    ),
                )
            } else {
                step == Some(
                    ClientStepView::Request(
                        RangeView::Single(
                            ByteRange { offset: entry.chunks@[0].0, size: entry.chunks@[0].1 },
                        ).header(content_length),
                    ),
                )
            }
        }),
{
    let actions = replay_actions(entries_view(entries));
    let running = run.with_head(Ok(content_length));
    assert(all_good(events));
    replay_follows_trace(running, actions, content_length, events);
    let at = events.len() as int / 2;
    if events.len() < actions.len() && events.len() % 2 == 0 && entries[at].vector {
        let chunks = entries[at].chunks@;
        assert(actions[events.len() as int]->Request_0->Multi_0 =~= Seq::new(
            chunks.len(),
            |j: int| ByteRange { offset: chunks[j].0, size: chunks[j].1 },
        ));
    }
}

/// From its start on, a client of the pattern asks for the size of the resource and then requests
/// as many ranges as it was told to. Each is as long as asked for, or as the content where that is
/// shorter, and starts at the next number that the generator gives, from 0 up to the last position
/// at which such a range fits into the content.
pub proof fn pattern_requests_drawn_ranges(
    config: PatternConfig,
    seed: Seq<u8>,
    url: Seq<char>,
    times: (int, int),
    content_length: usize,
    events: Seq<ClientEvent>,
)
    requires
        events.len() <= config.num_requests,
        forall|i: int|
            0 <= i < events.len() ==> (#[trigger] events[i]) is Response
                && events[i]->Response_0 is Ok,
    ensures
        ({
            let run = pattern_start(config, seed, url, times.0, times.1);
            let length = if config.request_size@ <= content_length {
                config.request_size@
            } else {
                content_length
            };
            let bounds = Seq::new(
                events.len() + 1,
                |i: int| (content_length - length) as usize,
            );
            let start = chacha8_numbers(seed)[bounds];
            &&& run.step() == Some(ClientStepView::Head)
            &&& run.stats == ClientStatsView::fresh(url, times.0, times.1)
            &&& run.with_head(Ok(content_length)).after(events).step() == if events.len()
                < config.num_requests {
                Some(
                    ClientStepView::Request(
                        "bytes="@ + (decimal(start as nat) + "-"@ + decimal(
                            (start + length - 1) as nat,
                        )),
                    ),
                )
            } else {
                None
            }
        }),
{
    let run = pattern_start(config, seed, url, times.0, times.1).with_head(Ok(content_length));
    let max = max_start(config.request_size@, content_length);
    let numbers = chacha8_numbers(seed);
    assert(all_good(events)) by {
        assert forall|i: int| 0 <= i < events.len() implies (#[trigger] events[i]).is_good() by {}
    }
    pattern_makes_its_requests(
        run,
        config.num_requests as nat,
        config.request_size@,
        numbers,
        content_length,
        events,
    );
    assert(repeated(max, events.len() + 1) =~= Seq::new(events.len() + 1, |i: int| max));
}

/// A random range can start at a position if and only if it then fits into the content.
pub proof fn random_ranges_start_wherever_they_fit(
    position: int,
    request_size: usize,
    content_length: usize,
)
    requires
        0 <= position,
    ensures
        request_size <= content_length ==> (position <= max_start(request_size, content_length) <==> position
            + request_size <= content_length),
        request_size > content_length ==> max_start(request_size, content_length) == 0,
{
}

/// A random range goes from the position at which it starts to the last of as many bytes as were
/// asked for, or as the content has where those are fewer.
pub proof fn random_ranges_are_as_long_as_asked_for(
    start: usize,
    request_size: usize,
    content_length: usize,
)
    ensures
        pattern_ends(start, request_size, content_length).0 == start,
        request_size <= content_length ==> pattern_ends(start, request_size, content_length).1
            - start == request_size - 1,
        request_size > content_length ==> pattern_ends(start, request_size, content_length).1
            - start == content_length - 1,
        span_text(pattern_ends(start, request_size, content_length)) == decimal(start as nat) + "-"@
            + decimal(pattern_ends(start, request_size, content_length).1 as nat),
{
}

} // verus!
