//! One engine pull per content id, and what it feeds.
use bytes::Bytes;
use serde_json::Value;

use super::encoder;
use super::encoder::Encoder;
use super::limits::{
    AUDIO_TAIL, BURST_SAMPLE, PRIME_CONTENT, PRIME_WAIT, REPLAY_MAX_AGE, REPLAY_MAX_BYTES,
    START_TIMEOUT,
};
use super::listener;
use super::slots::Slots;
use crate::chunk;
use crate::probe::Probe;
use crate::replay;
use crate::replay::model::ReplayView;
use crate::replay::{Nanos, Policy, Primed, Replay};
use crate::text;
use crate::ts;
use crate::format::{FragDurationMs, OutputFormat, Plan};
use vstd::prelude::*;

verus! {

/// How far a pull has come.
#[derive(Debug)]
pub enum Start {
    Pending,
    Ready,
    Failed(String),
}

#[verifier::ext_equal]
pub enum StartView {
    Pending,
    Ready,
    Failed(Seq<char>),
}

impl View for Start {
    type V = StartView;

    open spec fn view(&self) -> StartView {
        match self {
            Start::Pending => StartView::Pending,
            Start::Ready => StartView::Ready,
            Start::Failed(e) => StartView::Failed(e@),
        }
    }
}

/// What a request that waits for a pull is told.
#[derive(Debug)]
pub enum Ready {
    Up,
    Failed(String),
    /// Ask again after at most so long, or when something changes.
    Wait(Nanos),
}

#[verifier::ext_equal]
pub enum ReadyView {
    Up,
    Failed(Seq<char>),
    Wait(Nanos),
}

impl View for Ready {
    type V = ReadyView;

    open spec fn view(&self) -> ReadyView {
        match self {
            Ready::Up => ReadyView::Up,
            Ready::Failed(e) => ReadyView::Failed(e@),
            Ready::Wait(d) => ReadyView::Wait(*d),
        }
    }
}

/// What a request that has waited so long is told.
pub open spec fn ready_after(start: StartView, waited: Nanos) -> ReadyView {
    match start {
        StartView::Ready => ReadyView::Up,
        StartView::Failed(e) => ReadyView::Failed(e),
        StartView::Pending => if waited >= START_TIMEOUT {
            ReadyView::Failed("timed out waiting for the engine stream to start"@)
        } else {
            ReadyView::Wait((START_TIMEOUT - waited) as u128)
        },
    }
}

/// The state of a pull.
#[verifier::ext_equal]
pub struct StreamView<H> {
    pub content_id: Seq<char>,
    pub started: Nanos,
    pub bytes_in: u64,
    pub start: StartView,
    pub probe: Option<ts::ProgramView>,
    pub stats: Option<Value>,
    pub replay: ReplayView,
    pub encoders: Slots<H>,
}

/// How far a pull has come once its start went well or failed.
pub open spec fn published(failure: Option<Seq<char>>) -> StartView {
    match failure {
        None => StartView::Ready,
        Some(e) => StartView::Failed(e),
    }
}

/// The window of a pull that is about to be opened.
pub open spec fn new_window(epoch: std::time::Instant) -> ReplayView {
    replay::model::fresh(REPLAY_MAX_AGE, REPLAY_MAX_BYTES as int, epoch)
}

/// What a request is told when ffmpeg could not be started.
pub open spec fn start_error(why: Seq<char>) -> Seq<char> {
    "could not start ffmpeg: "@ + why
}

/// Whether tearing down an encoder is worth reporting: it was there, and did
/// not simply exit.
pub open spec fn notable(had: bool, reason: Seq<char>) -> bool {
    had && reason != "gone"@
}

/// Whether a new encoder has to be started, given whether the output of the one
/// that is there, if any, has ended.
pub open spec fn must_start(finished: Option<bool>) -> bool {
    finished is None || finished->0
}

/// How a new encoder of a format is primed: video from a keyframe, audio from
/// the last moments.
pub open spec fn policy_for(fmt: OutputFormat) -> Policy {
    if fmt == OutputFormat::Fmp4 {
        Policy::FromKeyframe(PRIME_CONTENT)
    } else {
        Policy::Tail(AUDIO_TAIL)
    }
}

impl<H> StreamView<H> {
    /// The pull with a chunk from the engine taken in at `now`.
    pub open spec fn fed(self, now: Nanos, data: Seq<u8>) -> StreamView<H> {
        StreamView {
            bytes_in: listener::counted(self.bytes_in, data.len() as int),
            replay: self.replay.pushed(now, data),
            ..self
        }
    }

    /// What an encoder of a format is started with, once the source is
    /// identified: what it is fed first, how ffmpeg is called, and what happens
    /// to the video and to the audio.
    pub open spec fn startup(self, fmt: OutputFormat, frag_ms: FragDurationMs) -> (
        replay::model::PrimedView,
        Seq<Seq<char>>,
        (crate::format::TrackMode, crate::format::TrackMode),
    ) {
        let primed = replay::primed(self.replay, policy_for(fmt));
        let audio = self.probe->0.audio;
        (
            primed,
            crate::format::argv(fmt, audio, frag_ms, primed.from_keyframe),
            crate::format::modes_of(fmt, audio),
        )
    }

    /// Whether a video encoder should wait at all for content to start from:
    /// only the first on the pull, and only where there is video.
    pub open spec fn waits_for_prime(self, fmt: OutputFormat) -> bool {
        &&& fmt == OutputFormat::Fmp4
        &&& self.encoders.at(fmt) is None
        &&& self.replay.scanner.known.video is Some
    }

    /// Where the content clock stands, if a new encoder of a format should
    /// wait for content.
    pub open spec fn prime_base(self, fmt: OutputFormat) -> Option<Option<u64>> {
        if self.waits_for_prime(fmt) {
            Some(self.replay.scanner.known.latest_pts)
        } else {
            None
        }
    }

    /// Whether the window holds enough after a keyframe to start from.
    pub open spec fn primeable(self) -> bool {
        replay::model::newest_with(
            self.replay.keyframes,
            self.replay.scanner.known.latest_pts,
            PRIME_CONTENT,
        ) is Some
    }

    /// How much longer such an encoder that has waited so long, since the
    /// content clock stood at `base`, should wait: not once it can start from
    /// buffered content, nor once the time is up, nor once the source proves
    /// to arrive no faster than real time, so that waiting cannot help.
    pub open spec fn prime_wait(self, base: Option<u64>, waited: Nanos) -> Option<Nanos> {
        if self.primeable() || waited >= PRIME_WAIT || (waited >= BURST_SAMPLE
            && self.replay.growth(base) <= waited) {
            None
        } else if PRIME_WAIT - waited <= BURST_SAMPLE {
            Some((PRIME_WAIT - waited) as u128)
        } else {
            Some(BURST_SAMPLE)
        }
    }
}

/// What a new encoder is started with.
pub struct Started {
    pub encoder: Encoder,
    /// What ffmpeg is fed before live data.
    pub primed: Primed,
    pub plan: Plan,
}

pub struct EngineStream<H> {
    content_id: String,
    started: Nanos,
    bytes_in: u64,
    start: Start,
    probe: Option<Probe>,
    stats: Option<Value>,
    /// Trailing raw TS, from which each new encoder is primed.
    replay: Replay,
    encoders: Slots<H>,
}

spec fn probe_view(p: Option<Probe>) -> Option<ts::ProgramView> {
    match p {
        Some(p) => Some(p@),
        None => None,
    }
}

impl<H> View for EngineStream<H> {
    type V = StreamView<H>;

    closed spec fn view(&self) -> StreamView<H> {
        StreamView {
            content_id: self.content_id@,
            started: self.started,
            bytes_in: self.bytes_in,
            start: self.start@,
            probe: probe_view(self.probe),
            stats: self.stats,
            replay: self.replay@,
            encoders: self.encoders,
        }
    }
}

impl<H> EngineStream<H> {
    /// What holds of every pull: its replay window is sound, and what it holds
    /// is in the order of arrival.
    pub closed spec fn wf(self) -> bool {
        &&& self.replay.wf()
        &&& self.replay@.ordered()
    }

    /// The window of every pull is sound, and in the order of arrival.
    pub proof fn lemma_wf(self)
        requires
            self.wf(),
        ensures
            self@.replay.wf(),
            self@.replay.ordered(),
    {
        self.replay.lemma_wf();
    }

    /// A pull that is about to be opened.
    pub fn new(content_id: String, started: Nanos) -> (r: Self)
        ensures
            r.wf(),
            r@.content_id == content_id@,
            r@.started == started,
            r@.bytes_in == 0,
            r@.start is Pending,
            r@.probe is None,
            r@.stats is None,
            r@.replay == replay::model::fresh(
                REPLAY_MAX_AGE,
                REPLAY_MAX_BYTES as int,
                r@.replay.epoch,
            ),
            r@.replay == new_window(r@.replay.epoch),
            r@.encoders.vacant(),
    {
        EngineStream {
            content_id,
            started,
            bytes_in: 0,
            start: Start::Pending,
            probe: None,
            stats: None,
            replay: Replay::new(REPLAY_MAX_AGE, REPLAY_MAX_BYTES),
            encoders: Slots::new(),
        }
    }

    pub fn content_id(&self) -> (r: &String)
        ensures
            r@ == self@.content_id,
    {
        &self.content_id
    }

    /// When the pull was started.
    pub fn started(&self) -> (r: Nanos)
        ensures
            r == self@.started,
    {
        self.started
    }

    /// How many bytes have come from the engine.
    pub fn bytes_in(&self) -> (r: u64)
        ensures
            r == self@.bytes_in,
    {
        self.bytes_in
    }

    /// What the source carries, once it has been identified.
    pub fn probe(&self) -> (r: Option<&Probe>)
        ensures
            r is Some <==> self@.probe is Some,
            r matches Some(p) ==> self@.probe == Some(p@),
    {
        match &self.probe {
            Some(p) => Some(p),
            None => None,
        }
    }

    /// What the engine last reported about the swarm.
    pub fn stats(&self) -> (r: Option<&Value>)
        ensures
            r is Some <==> self@.stats is Some,
            r matches Some(v) ==> self@.stats == Some(*v),
    {
        match &self.stats {
            Some(v) => Some(v),
            None => None,
        }
    }

    /// Keep what the engine reports about the swarm.
    pub fn set_stats(&mut self, stats: Value)
        requires
            old(self).wf(),
        ensures
            final(self).wf(),
            final(self)@ == (StreamView { stats: Some(stats), ..old(self)@ }),
    {
        let ghost v = self@;
        self.stats = Some(stats);
        assert(self@ =~= StreamView { stats: Some(stats), ..v });
    }

    /// What the window holds.
    pub fn replay(&self) -> (r: &Replay)
        requires
            self.wf(),
        ensures
            r.wf(),
            r@ == self@.replay,
    {
        &self.replay
    }

    /// The encoders on this pull.
    pub fn encoders(&self) -> (r: &Slots<H>)
        ensures
            *r == self@.encoders,
    {
        &self.encoders
    }

    /// True while the pull is being kept alive with no encoder on it.
    pub fn lingering(&self) -> (r: bool)
        ensures
            r == self@.encoders.vacant(),
    {
        self.encoders.is_empty()
    }

    /// Take in a chunk from the engine.
    pub fn feed(&mut self, data: Bytes)
        requires
            old(self).wf(),
            old(self)@.replay.has_room(chunk::contents(data).len() as int),
        ensures
            final(self).wf(),
            exists|now: Nanos|
                old(self)@.replay.follows(now) && final(self)@ == #[trigger] old(self)@.fed(
                    now,
                    chunk::contents(data),
                ),
    {
        let ghost v = self@;
        let ghost bytes = chunk::contents(data);
        let ghost r0 = self.replay@;
        self.bytes_in = self.bytes_in.wrapping_add(data.len() as u64);
        self.replay.push(data);
        proof {
            let now = choose|now: Nanos|
                r0.follows(now) && self.replay@ == #[trigger] r0.pushed(now, bytes);
            assert(self@ =~= v.fed(now, bytes));
        }
    }

    /// Record how the start went, for the requests that wait for it.
    pub fn publish(&mut self, outcome: Result<(), String>)
        requires
            old(self).wf(),
        ensures
            final(self).wf(),
            final(self)@ == (StreamView {
                start: match outcome {
                    Ok(_) => StartView::Ready,
                    Err(e) => StartView::Failed(e@),
                },
                ..old(self)@
            }),
            final(self)@.start == published(
                match outcome {
                    Ok(_) => None,
                    Err(e) => Some(e@),
                },
            ),
    {
        let ghost v = self@;
        self.start = match outcome {
            Ok(_) => Start::Ready,
            Err(e) => Start::Failed(e),
        };
        assert(self@ =~= StreamView { start: self.start@, ..v });
    }

    /// The source has been identified: the pull is up.
    pub fn ready(&mut self, probed: Probe)
        requires
            old(self).wf(),
        ensures
            final(self).wf(),
            final(self)@ == (StreamView {
                start: StartView::Ready,
                probe: Some(probed@),
                ..old(self)@
            }),
    {
        let ghost v = self@;
        self.probe = Some(probed);
        self.start = Start::Ready;
        assert(self@ =~= StreamView { start: StartView::Ready, probe: Some(probed@), ..v });
    }

    /// What a request that has waited so long for the pull is told.
    pub fn wait_ready(&self, waited: Nanos) -> (r: Ready)
        ensures
            r@ == ready_after(self@.start, waited),
    {
        match &self.start {
            Start::Ready => Ready::Up,
            Start::Failed(e) => Ready::Failed(e.clone()),
            Start::Pending => {
                if waited >= START_TIMEOUT {
                    Ready::Failed("timed out waiting for the engine stream to start".to_owned())
                } else {
                    Ready::Wait(START_TIMEOUT - waited)
                }
            },
        }
    }

    /// Whether a new encoder should give a start-up burst a brief chance to
    /// fill the window, so that it starts from buffered content instead of
    /// waiting on live data. A warm encoder, an audio format, or a source with
    /// no video track skip it entirely.
    ///
    /// If so, where the content clock stands.
    pub fn wait_video_prime(&self, fmt: OutputFormat) -> (r: Option<Option<u64>>)
        requires
            self.wf(),
        ensures
            r == (if self@.waits_for_prime(fmt) {
                Some(self@.replay.scanner.known.latest_pts)
            } else {
                None
            }),
            r == self@.prime_base(fmt),
    {
        if !fmt.has_video() || self.encoders.serial(fmt).is_some() {
            return None;
        }
        if !self.replay.has_video() {
            return None;  // nothing to align to; audio-only inside an fMP4 request
        }
        Some(self.replay.latest_video_pts())
    }

    /// How much longer to wait for such a burst, having waited so long since
    /// the content clock stood at `base`. `None` ends the wait.
    pub fn video_prime_left(&self, base: Option<u64>, waited: Nanos) -> (r: Option<Nanos>)
        requires
            self.wf(),
        ensures
            r == self@.prime_wait(base, waited),
    {
        if self.replay.video_prime_ready(PRIME_CONTENT) {
            return None;
        }
        if waited >= PRIME_WAIT {
            return None;
        }
        // Keep waiting only while content is arriving faster than it plays:
        // that burst is what lets the window reach PRIME_CONTENT in a
        // fraction of the wall time. A real-time source gains nothing.
        if waited >= BURST_SAMPLE && self.replay.content_growth(base) <= waited {
            return None;
        }
        let left: Nanos = PRIME_WAIT - waited;
        if left <= BURST_SAMPLE {
            Some(left)
        } else {
            Some(BURST_SAMPLE)
        }
    }

    /// Start an encoder: take the replay snapshot and register in one step.
    ///
    /// The puller takes in a chunk before handing it to registered encoders,
    /// so doing these separately could duplicate a chunk (in the window and
    /// again live) or drop one. Registered before ffmpeg is spawned, since the
    /// analysis window depends on what the snapshot starts with.
    pub fn start_encoder(
        &mut self,
        fmt: OutputFormat,
        serial: u64,
        handle: H,
        now: Nanos,
        frag_ms: FragDurationMs,
    ) -> (r: Result<Started, String>)
        requires
            old(self).wf(),
        ensures
            final(self).wf(),
            ({
                let v = old(self)@;
                let audio = v.probe->0.audio;
                let (video_mode, audio_mode) = crate::format::modes_of(fmt, audio);
                match v.probe {
                    None => {
                        &&& r matches Err(e) && e@ == "engine stream has no probe result"@
                        &&& final(self)@ == v
                    },
                    Some(_) => {
                        &&& r matches Ok(s) && {
                            &&& s.encoder.wf()
                            &&& s.encoder@ == encoder::fresh(
                                v.content_id,
                                fmt,
                                now,
                                video_mode,
                                audio_mode,
                            )
                            &&& s.primed@ == replay::primed(v.replay, policy_for(fmt))
                            &&& crate::format::texts(s.plan.args@) == crate::format::argv(
                                fmt,
                                audio,
                                frag_ms,
                                s.primed.from_keyframe,
                            )
                            &&& (s.plan.video, s.plan.audio) == (video_mode, audio_mode)
                        }
                        &&& final(self)@ == (StreamView {
                            encoders: final(self)@.encoders,
                            ..v
                        })
                        &&& final(self)@.encoders.at(fmt) == Some((serial, handle))
                        &&& final(self)@.encoders.same_but(v.encoders, fmt)
                    },
                }
            }),
            r is Ok <==> old(self)@.probe is Some,
            r matches Ok(s) ==> {
                &&& (
                    s.primed@,
                    crate::format::texts(s.plan.args@),
                    (s.plan.video, s.plan.audio),
                ) == old(self)@.startup(fmt, frag_ms)
                &&& (s.encoder@.video, s.encoder@.audio) == old(self)@.startup(fmt, frag_ms).2
            },
    {
        let ghost v = self@;
        let codec: Option<&str> = match &self.probe {
            Some(p) => p.audio_codec(),
            None => {
                return Err("engine stream has no probe result".to_owned());
            },
        };
        let policy: Policy = if fmt.has_video() {
            Policy::FromKeyframe(PRIME_CONTENT)
        } else {
            Policy::Tail(AUDIO_TAIL)
        };
        let primed: Primed = self.replay.snapshot(policy);
        let plan: Plan = crate::format::plan(fmt, codec, frag_ms, primed.from_keyframe);
        let encoder = Encoder::new(self.content_id.clone(), fmt, now, plan.video, plan.audio);
        self.encoders.register(fmt, serial, handle);
        assert(self@ =~= StreamView { encoders: self.encoders, ..v });
        Ok(Started { encoder, primed, plan })
    }

    /// ffmpeg could not be started: undo the registration, and say why.
    pub fn start_failed(&mut self, fmt: OutputFormat, why: &str) -> (r: String)
        requires
            old(self).wf(),
        ensures
            final(self).wf(),
            r@ == "could not start ffmpeg: "@ + why@,
            r@ == start_error(why@),
            final(self)@ == (StreamView { encoders: final(self)@.encoders, ..old(self)@ }),
            final(self)@.encoders.at(fmt) is None,
            final(self)@.encoders.same_but(old(self)@.encoders, fmt),
    {
        let ghost v = self@;
        let _ = self.encoders.remove(fmt);
        let mut m = "could not start ffmpeg: ".to_owned();
        m.append(why);
        assert(self@ =~= StreamView { encoders: self.encoders, ..v });
        m
    }

    /// An encoder has stopped: give up its own slot, and no other. True if it
    /// was the last, so that the pull starts to linger.
    pub fn release_encoder(&mut self, fmt: OutputFormat, serial: u64) -> (r: bool)
        requires
            old(self).wf(),
        ensures
            final(self).wf(),
            final(self)@ == (StreamView { encoders: final(self)@.encoders, ..old(self)@ }),
            ({
                let ours = old(self)@.encoders.at(fmt) matches Some((s, _)) && s == serial;
                &&& ours ==> final(self)@.encoders.at(fmt) is None
                &&& !ours ==> final(self)@.encoders.at(fmt) == old(self)@.encoders.at(fmt)
            }),
            final(self)@.encoders.same_but(old(self)@.encoders, fmt),
            r == final(self)@.encoders.vacant(),
    {
        let ghost v = self@;
        let r: bool = self.encoders.release(fmt, serial);
        assert(self@ =~= StreamView { encoders: self.encoders, ..v });
        r
    }

    /// An encoder did not take a chunk: tear it down. True if that is worth
    /// reporting, that is if it was there and did not simply exit.
    pub fn tear_down(&mut self, fmt: OutputFormat, reason: &str) -> (r: bool)
        requires
            old(self).wf(),
        ensures
            final(self).wf(),
            final(self)@ == (StreamView { encoders: final(self)@.encoders, ..old(self)@ }),
            final(self)@.encoders.at(fmt) is None,
            final(self)@.encoders.same_but(old(self)@.encoders, fmt),
            r == (old(self)@.encoders.at(fmt) is Some && reason@ != "gone"@),
            r == notable(old(self)@.encoders.at(fmt) is Some, reason@),
    {
        let ghost v = self@;
        let had: bool = self.encoders.remove(fmt);
        assert(self@ =~= StreamView { encoders: self.encoders, ..v });
        had && !text::same(reason, "gone")
    }
}

/// Whether a new encoder has to be started, given whether there is one already
/// and whether its output has ended. A finished encoder is still registered
/// while its last listener drains; a replacement is started rather than
/// joining a dead one.
pub fn needs_start(finished: Option<bool>) -> (r: bool)
    ensures
        r == (finished != Some(false)),
        r == must_start(finished),
{
    match finished {
        Some(f) => f,
        None => true,
    }
}

/// Waiting for a burst ends, at the latest when the time is up, and a source
/// that is no faster than real time is never delayed beyond one sample.
pub proof fn law_the_prime_wait_is_bounded<H>(v: StreamView<H>, base: Option<u64>, waited: Nanos)
    ensures
        v.prime_wait(base, waited) matches Some(d) ==> {
            &&& 0 < d <= BURST_SAMPLE
            &&& waited + d <= PRIME_WAIT
        },
        waited >= PRIME_WAIT ==> v.prime_wait(base, waited) is None,
        waited >= BURST_SAMPLE && v.replay.growth(base) <= waited ==> v.prime_wait(
            base,
            waited,
        ) is None,
        v.primeable() ==> v.prime_wait(base, waited) is None,
{
}

/// What a new encoder is primed with and what it is fed from then on are one
/// run of the stream: the chunk that arrives next begins where the window
/// that the encoder was primed from ends.
pub proof fn law_priming_joins_the_live_stream<H>(v: StreamView<H>, now: Nanos, data: Seq<u8>)
    requires
        v.replay.wf(),
        v.replay.has_room(data.len() as int),
    ensures
        v.fed(now, data).replay.chunks.last().start == v.replay.head,
        v.fed(now, data).replay.chunks.last().data == data,
        v.replay.floor() + v.replay.window().len() == v.replay.head,
{
    replay::laws::law_the_caps_hold(v.replay, now, data);
    replay::lemma_span(v.replay);
}

} // verus!
