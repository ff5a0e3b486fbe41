//! The puller: one per content id, holding the sole engine connection. What
//! it does next is decided here; whoever drives it does the talking.
use bytes::Bytes;

use super::limits::{PREROLL, TS_STALL};
use super::stream::EngineStream;
use crate::chunk;
use crate::probe;
use crate::probe::Probe;
use crate::replay::clock;
use crate::replay::Nanos;
use crate::text;
use crate::ts;
use vstd::prelude::*;

verus! {

/// How far the puller has come.
#[derive(Debug, Clone, Copy, PartialEq, Eq, Structural)]
pub enum Stage {
    /// Opening an engine session.
    Opening,
    /// Asking for the stream.
    Connecting,
    /// Handing over the socket, so that teardown during startup interrupts the
    /// puller rather than waiting out the stall timeout.
    Registering,
    /// Reading until the source is identified.
    Identifying,
    /// Running ffprobe over what was read.
    Probing,
    /// Reading, and feeding the encoders.
    Streaming,
    Over,
}

/// What happened.
#[derive(Debug)]
pub enum Event {
    /// The engine session is open.
    Opened,
    OpenFailed(String),
    /// The engine answered the request for the stream with this status.
    Answered(u16),
    Unreachable(String),
    /// The socket is handed over.
    Registered,
    /// Nobody wants the stream any more.
    Gone,
    /// The engine closed the stream.
    Closed,
    ReadFailed(String),
    /// ffprobe has run.
    Probed(Result<Probe, String>),
}

pub enum EventView {
    Opened,
    OpenFailed(Seq<char>),
    Answered(u16),
    Unreachable(Seq<char>),
    Registered,
    Gone,
    Closed,
    ReadFailed(Seq<char>),
    Probed(Result<ts::ProgramView, Seq<char>>),
}

impl View for Event {
    type V = EventView;

    open spec fn view(&self) -> EventView {
        match self {
            Event::Opened => EventView::Opened,
            Event::OpenFailed(e) => EventView::OpenFailed(e@),
            Event::Answered(status) => EventView::Answered(*status),
            Event::Unreachable(e) => EventView::Unreachable(e@),
            Event::Registered => EventView::Registered,
            Event::Gone => EventView::Gone,
            Event::Closed => EventView::Closed,
            Event::ReadFailed(e) => EventView::ReadFailed(e@),
            Event::Probed(r) => EventView::Probed(probe::outcome(*r)),
        }
    }
}

/// What to do next.
#[derive(Debug)]
pub enum Next {
    /// Ask the engine for the stream.
    Connect,
    /// Hand over the socket.
    Register,
    /// Read from the engine.
    Read,
    /// Run ffprobe over what was read.
    RunProbe,
    /// The source is identified, and how: publish that, then read on.
    Ready(Probe, String),
    /// Hand the chunk to the encoders, then read on.
    Deliver,
    /// Stop: publish the failure, if there is one to publish, and stop the
    /// engine session, if there is one to stop.
    Over(Option<String>, bool),
}

#[verifier::ext_equal]
pub enum NextView {
    Connect,
    Register,
    Read,
    RunProbe,
    Ready(ts::ProgramView, Seq<char>),
    Deliver,
    Over(Option<Seq<char>>, bool),
}

impl View for Next {
    type V = NextView;

    open spec fn view(&self) -> NextView {
        match self {
            Next::Connect => NextView::Connect,
            Next::Register => NextView::Register,
            Next::Read => NextView::Read,
            Next::RunProbe => NextView::RunProbe,
            Next::Ready(p, how) => NextView::Ready(p@, how@),
            Next::Deliver => NextView::Deliver,
            Next::Over(e, stop) => NextView::Over(probe::name_of(*e), *stop),
        }
    }
}

/// The state of a puller.
#[verifier::ext_equal]
pub struct PullerView {
    pub stage: Stage,
    /// What was read before the source was identified.
    pub preroll: Seq<u8>,
}

impl PullerView {
    pub open spec fn at(self, stage: Stage) -> PullerView {
        PullerView { stage, ..self }
    }

    /// The puller stopped for a failure that requests wait to hear of.
    pub open spec fn failed(self, why: Seq<char>) -> (PullerView, NextView) {
        (self.at(Stage::Over), NextView::Over(Some(why), true))
    }

    /// Whether an engine session is open.
    pub open spec fn opened(self) -> bool {
        self.stage != Stage::Opening && self.stage != Stage::Over
    }

    /// The puller stopped with nobody to tell.
    pub open spec fn stopped(self) -> (PullerView, NextView) {
        (self.at(Stage::Over), NextView::Over(None, self.opened()))
    }

    /// What an event leads to.
    pub open spec fn on(self, event: EventView) -> (PullerView, NextView) {
        match (self.stage, event) {
            (Stage::Opening, EventView::Opened) => (
                self.at(Stage::Connecting),
                NextView::Connect,
            ),
            // There is no session to stop.
            (Stage::Opening, EventView::OpenFailed(e)) => (
                self.at(Stage::Over),
                NextView::Over(Some(e), false),
            ),
            (Stage::Connecting, EventView::Answered(status)) => if status == 200 {
                (self.at(Stage::Registering), NextView::Register)
            } else {
                self.failed("engine returned http "@ + text::decimal(status as nat))
            },
            (Stage::Connecting, EventView::Unreachable(e)) => self.failed(
                "could not open engine stream: "@ + e,
            ),
            (Stage::Registering, EventView::Registered) => (
                self.at(Stage::Identifying),
                NextView::Read,
            ),
            (Stage::Identifying, EventView::Gone) => self.failed(
                "stream torn down during startup"@,
            ),
            (Stage::Identifying, EventView::Closed) => if self.preroll.len() == 0 {
                self.failed("engine stream ended before sending anything"@)
            } else {
                (self.at(Stage::Probing), NextView::RunProbe)
            },
            (Stage::Identifying, EventView::ReadFailed(e)) => self.failed(
                "engine stream failed during preroll: "@ + e,
            ),
            (Stage::Probing, EventView::Probed(Ok(p))) => (
                self.at(Stage::Streaming),
                NextView::Ready(
                    p,
                    "ffprobe over "@ + text::decimal(self.preroll.len()) + " bytes"@,
                ),
            ),
            (Stage::Probing, EventView::Probed(Err(e))) => self.failed(
                "could not probe stream: "@ + e,
            ),
            _ => self.stopped(),
        }
    }

    /// The preroll with a chunk more, unless there is enough of it.
    pub open spec fn with(self, data: Seq<u8>) -> PullerView {
        if self.preroll.len() < PREROLL {
            PullerView { preroll: self.preroll + data, ..self }
        } else {
            self
        }
    }

    /// What a chunk leads to, given what the stream is now known to carry.
    pub open spec fn on_data(self, data: Seq<u8>, program: Option<ts::ProgramView>) -> (
        PullerView,
        NextView,
    ) {
        match self.stage {
            Stage::Identifying => {
                let next = self.with(data);
                match program {
                    Some(p) => (
                        next.at(Stage::Streaming),
                        NextView::Ready(
                            p,
                            "from the PMT, "@ + text::decimal(next.preroll.len()) + " bytes in"@,
                        ),
                    ),
                    None => if next.preroll.len() >= PREROLL {
                        (next.at(Stage::Probing), NextView::RunProbe)
                    } else {
                        (next, NextView::Read)
                    },
                }
            },
            Stage::Streaming => (self, NextView::Deliver),
            _ => self.stopped(),
        }
    }
}

#[derive(Debug)]
pub struct Puller {
    stage: Stage,
    preroll: Vec<u8>,
}

impl View for Puller {
    type V = PullerView;

    closed spec fn view(&self) -> PullerView {
        PullerView { stage: self.stage, preroll: self.preroll@ }
    }
}

impl Puller {
    pub fn new() -> (r: Puller)
        ensures
            r@ == (PullerView { stage: Stage::Opening, preroll: Seq::empty() }),
    {
        let r = Puller { stage: Stage::Opening, preroll: Vec::new() };
        assert(r@ =~= PullerView { stage: Stage::Opening, preroll: Seq::empty() });
        r
    }

    /// What was read before the source was identified.
    pub fn preroll(&self) -> (r: &[u8])
        ensures
            r@ == self@.preroll,
    {
        self.preroll.as_slice()
    }

    /// Whether the stream is up.
    pub fn streaming(&self) -> (r: bool)
        ensures
            r == (self@.stage == Stage::Streaming),
    {
        matches!(self.stage, Stage::Streaming)
    }

    fn failed(&mut self, what: &str, why: &str) -> (r: Next)
        ensures
            (final(self)@, r@) == old(self)@.failed(what@ + why@),
    {
        let ghost v = self@;
        self.stage = Stage::Over;
        let mut m = what.to_owned();
        m.append(why);
        assert(self@ =~= v.at(Stage::Over));
        Next::Over(Some(m), true)
    }

    fn stopped(&mut self) -> (r: Next)
        ensures
            (final(self)@, r@) == old(self)@.stopped(),
    {
        let opened: bool = self.stage != Stage::Opening && self.stage != Stage::Over;
        self.go(Stage::Over);
        Next::Over(None, opened)
    }

    fn go(&mut self, stage: Stage)
        ensures
            final(self)@ == old(self)@.at(stage),
    {
        let ghost v = self@;
        self.stage = stage;
        assert(self@ =~= v.at(stage));
    }

    /// What an event leads to.
    pub fn on(&mut self, event: Event) -> (r: Next)
        ensures
            (final(self)@, r@) == old(self)@.on(event@),
    {
        let ghost v = self@;
        match (self.stage, event) {
            (Stage::Opening, Event::Opened) => {
                self.go(Stage::Connecting);
                Next::Connect
            },
            (Stage::Opening, Event::OpenFailed(e)) => {
                self.go(Stage::Over);
                Next::Over(Some(e), false)
            },
            (Stage::Connecting, Event::Answered(status)) => {
                if status == 200 {
                    self.go(Stage::Registering);
                    Next::Register
                } else {
                    self.failed(
                        "engine returned http ",
                        text::decimal_text(status as u64).as_str(),
                    )
                }
            },
            (Stage::Connecting, Event::Unreachable(e)) => {
                self.failed("could not open engine stream: ", e.as_str())
            },
            (Stage::Registering, Event::Registered) => {
                self.go(Stage::Identifying);
                Next::Read
            },
            (Stage::Identifying, Event::Gone) => {
                proof {
                    reveal_strlit("");
                    assert("stream torn down during startup"@ + ""@
                        =~= "stream torn down during startup"@);
                }
                self.failed("stream torn down during startup", "")
            },
            (Stage::Identifying, Event::Closed) => {
                if self.preroll.len() == 0 {
                    proof {
                        reveal_strlit("");
                        assert("engine stream ended before sending anything"@ + ""@
                            =~= "engine stream ended before sending anything"@);
                    }
                    self.failed("engine stream ended before sending anything", "")
                } else {
                    self.go(Stage::Probing);
                    Next::RunProbe
                }
            },
            (Stage::Identifying, Event::ReadFailed(e)) => {
                self.failed("engine stream failed during preroll: ", e.as_str())
            },
            (Stage::Probing, Event::Probed(Ok(p))) => {
                let mut how = "ffprobe over ".to_owned();
                how.append(text::decimal_text(self.preroll.len() as u64).as_str());
                how.append(" bytes");
                self.go(Stage::Streaming);
                Next::Ready(p, how)
            },
            (Stage::Probing, Event::Probed(Err(e))) => {
                self.failed("could not probe stream: ", e.as_str())
            },
            _ => self.stopped(),
        }
    }

    /// Take in a chunk from the engine, feeding the replay window so nothing
    /// read here is lost to the encoders.
    ///
    /// The PMT settles what the source is within the first packets. If it has
    /// not by [`PREROLL`] bytes, for a first audio stream the scanner cannot
    /// name, ffprobe gets what was read so far.
    pub fn on_data<H>(&mut self, stream: &mut EngineStream<H>, data: Bytes) -> (r: Next)
        requires
            old(stream).wf(),
            old(stream)@.replay.has_room(chunk::contents(data).len() as int),
        ensures
            final(stream).wf(),
            exists|now: Nanos|
                old(stream)@.replay.follows(now) && final(stream)@
                    == #[trigger] old(stream)@.fed(now, chunk::contents(data)),
            (final(self)@, r@) == old(self)@.on_data(
                chunk::contents(data),
                ts::program_of(final(stream)@.replay.scanner.known),
            ),
    {
        let ghost v = self@;
        let ghost bytes = chunk::contents(data);
        let known: Bytes = data.clone();
        stream.feed(data);
        match self.stage {
            Stage::Identifying => {
                if self.preroll.len() < PREROLL {
                    self.preroll.extend_from_slice(chunk::as_slice(&known));
                    assert(self.preroll@ =~= v.preroll + bytes);
                }
                assert(self@ =~= v.with(bytes));
                match stream.replay().program() {
                    Some(p) => {
                        let mut how = "from the PMT, ".to_owned();
                        how.append(text::decimal_text(self.preroll.len() as u64).as_str());
                        how.append(" bytes in");
                        self.go(Stage::Streaming);
                        Next::Ready(Probe::from(p), how)
                    },
                    None => {
                        if self.preroll.len() >= PREROLL {
                            self.go(Stage::Probing);
                            Next::RunProbe
                        } else {
                            Next::Read
                        }
                    },
                }
            },
            Stage::Streaming => Next::Deliver,
            _ => self.stopped(),
        }
    }
}

/// The engine session is stopped when the puller ends, exactly if one is open.
pub proof fn law_an_opened_session_is_stopped(
    v: PullerView,
    event: EventView,
    data: Seq<u8>,
    program: Option<ts::ProgramView>,
)
    ensures
        v.on(event).1 matches NextView::Over(_, stop) ==> stop == v.opened(),
        v.on_data(data, program).1 matches NextView::Over(_, stop) ==> stop == v.opened(),
        v.on(event).0.stage == Stage::Over <==> v.on(event).1 is Over,
        v.on_data(data, program).0.stage == Stage::Over <==> v.on_data(data, program).1 is Over,
{
}

/// Once the stream is up no failure is published: the requests that waited
/// have been told it is up.
pub proof fn law_an_up_stream_publishes_no_failure(v: PullerView, event: EventView)
    requires
        v.stage == Stage::Streaming,
    ensures
        v.on(event).1 == NextView::Over(None, true),
{
}

/// The preroll never grows by more than one chunk beyond what ffprobe is
/// given, and what is in it is what was read.
pub proof fn law_the_preroll_is_what_was_read(
    v: PullerView,
    data: Seq<u8>,
    program: Option<ts::ProgramView>,
)
    requires
        v.stage == Stage::Identifying,
        v.preroll.len() < PREROLL,
    ensures
        v.on_data(data, program).0.preroll == v.preroll + data,
        v.on_data(data, program).1 is Read ==> v.on_data(data, program).0.preroll.len() < PREROLL,
        program is Some ==> v.on_data(data, program).1 is Ready,
{
}

/// What came of handing a chunk to an encoder's queue.
#[derive(Debug, Clone, Copy, PartialEq, Eq, Structural)]
pub enum Attempt {
    Sent,
    /// ffmpeg exited and its feeder went with it.
    Gone,
    /// The queue is full.
    Full,
}

/// The wait for room in an encoder's queue.
///
/// This is the opposite policy from `Encoder::fan_out`, deliberately. Evicting
/// a *listener* costs that listener alone and it can reconnect; dropping an
/// *encoder* kills every listener on it and restarts ffmpeg. So here the puller
/// blocks, which is also the only way to signal the engine to slow down, and
/// only gives up once the encoder has made no progress at all for [`TS_STALL`].
#[derive(Debug)]
pub struct Backpressure {
    seen: u64,
    since: Nanos,
}

#[verifier::ext_equal]
pub struct BackpressureView {
    /// How much the encoder had consumed when it last made progress.
    pub seen: u64,
    /// When that was.
    pub since: Nanos,
}

impl View for Backpressure {
    type V = BackpressureView;

    closed spec fn view(&self) -> BackpressureView {
        BackpressureView { seen: self.seen, since: self.since }
    }
}

impl BackpressureView {
    /// The wait after an attempt, with so much consumed by then.
    pub open spec fn after(self, attempt: Attempt, fed: u64, now: Nanos) -> BackpressureView {
        if attempt == Attempt::Full && fed != self.seen {
            BackpressureView { seen: fed, since: now }
        } else {
            self
        }
    }

    /// How an attempt ends the wait, if it does.
    pub open spec fn verdict(self, attempt: Attempt, fed: u64, now: Nanos) -> Option<
        Result<(), Seq<char>>,
    > {
        match attempt {
            Attempt::Sent => Some(Ok(())),
            Attempt::Gone => Some(Err("gone"@)),
            Attempt::Full => if fed == self.seen && clock::age(now, self.since) >= TS_STALL {
                Some(Err("stopped consuming input"@))
            } else {
                None
            },
        }
    }
}

pub open spec fn verdict_view(r: Option<Result<(), &'static str>>) -> Option<
    Result<(), Seq<char>>,
> {
    match r {
        None => None,
        Some(Ok(_)) => Some(Ok(())),
        Some(Err(e)) => Some(Err(e@)),
    }
}

impl Backpressure {
    pub fn new(fed: u64, now: Nanos) -> (r: Backpressure)
        ensures
            r@ == (BackpressureView { seen: fed, since: now }),
    {
        Backpressure { seen: fed, since: now }
    }

    /// How an attempt ends the wait, if it does; `None` asks for another.
    pub fn on(&mut self, attempt: Attempt, fed: u64, now: Nanos) -> (r: Option<
        Result<(), &'static str>,
    >)
        ensures
            final(self)@ == old(self)@.after(attempt, fed, now),
            verdict_view(r) == old(self)@.verdict(attempt, fed, now),
    {
        match attempt {
            Attempt::Sent => Some(Ok(())),
            Attempt::Gone => Some(Err("gone")),
            Attempt::Full => {
                if fed != self.seen {
                    self.seen = fed;
                    self.since = now;
                    None
                } else if clock::age_of(now, self.since) >= TS_STALL {
                    Some(Err("stopped consuming input"))
                } else {
                    None
                }
            },
        }
    }
}

/// An encoder that is draining, however slowly, is never given up: a full
/// queue ends the wait only where nothing was consumed since the last
/// progress, and that was too long ago.
pub proof fn law_progress_is_never_given_up(b: BackpressureView, fed: u64, now: Nanos)
    ensures
        fed != b.seen ==> b.verdict(Attempt::Full, fed, now) is None,
        b.verdict(Attempt::Full, fed, now) is Some ==> clock::age(now, b.since) >= TS_STALL,
        fed != b.seen ==> b.after(Attempt::Full, fed, now).since == now,
{
}

} // verus!
