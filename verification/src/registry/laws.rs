//! What can be relied on of listeners, encoders and pulls, in plain numbers.
use super::encoder;
use super::encoder::{EncoderView, InitView, Taking};
use super::listener;
use super::listener::{ListenerView, Step};
use super::pull::{Attempt, BackpressureView, EventView, NextView, PullerView, Stage};
use super::stream::{ReadyView, StartView, StreamView};
use crate::format::OutputFormat;
use crate::mp4::model::PieceView;
use crate::replay::{Nanos, Policy};
use crate::ts;
use vstd::prelude::*;

verus! {

/// A listener that took, within the last eight seconds, a chunk that had just
/// arrived is not cut off for lag, whatever still waits for it; nor is one
/// whose oldest unread chunk arrived within them. What it is said to be behind
/// is no more than the age of either.
pub proof fn law_a_listener_that_reads_is_kept(l: ListenerView, n: int, now: u64)
    requires
        n >= 0,
        listener::flat(l.queue).len() + n <= 16_777_216,
    ensures
        now - l.consumed_at <= 8_000_000_000 ==> !l.falls_behind(n, now),
        now - l.oldest_unread <= 8_000_000_000 ==> !l.falls_behind(n, now),
        now >= l.consumed_at ==> l.behind(now) <= now - l.consumed_at,
        now < l.consumed_at ==> l.behind(now) == 0,
{
    listener::lemma_backlog(l.queue);
}

/// A listener with something unread that is more than eight seconds behind
/// both what it last took and the oldest it has not read is cut off, and so is
/// one that would have more than sixteen mebibytes unread.
pub proof fn law_a_listener_that_does_not_read_is_cut_off(l: ListenerView, n: int, now: u64)
    ensures
        listener::flat(l.queue).len() > 0 && now - l.consumed_at > 8_000_000_000 && now
            - l.oldest_unread > 8_000_000_000 ==> l.falls_behind(n, now),
        listener::flat(l.queue).len() + n > 16_777_216 ==> l.falls_behind(n, now),
        l.falls_behind(n, now) && listener::flat(l.queue).len() + n <= 16_777_216 ==> l.behind(now)
            > 8_000_000_000,
{
    listener::lemma_backlog(l.queue);
}

/// Whether a listener's times are what they stand for: chunks wait in the
/// order of their arrival, none later than `now`, none earlier than what was
/// last taken, and none with anything in it earlier than the oldest unread.
pub open spec fn timely(l: ListenerView, now: u64) -> bool {
    &&& l.consumed_at <= now
    &&& forall|i: int, j: int|
        #![trigger l.queue[i], l.queue[j]]
        0 <= i <= j < l.queue.len() ==> l.queue[i].0 <= l.queue[j].0
    &&& forall|i: int|
        #![trigger l.queue[i]]
        0 <= i < l.queue.len() ==> {
            &&& l.consumed_at <= l.queue[i].0 <= now
            &&& l.queue[i].1.len() > 0 ==> l.oldest_unread <= l.queue[i].0
        }
}

/// The latest time among some steps, from `t` on, if they come in order.
pub open spec fn in_time(steps: Seq<Step>, t: u64) -> Option<u64>
    decreases steps.len(),
{
    if steps.len() == 0 {
        Some(t)
    } else {
        match (in_time(steps.drop_last(), t), steps.last()) {
            (Some(before), Step::Piece(_, _, now)) => if before <= now {
                Some(now)
            } else {
                None
            },
            (before, Step::Take) => before,
            _ => None,
        }
    }
}

proof fn lemma_empty_backlog(queue: Seq<(u64, Seq<u8>)>, i: int)
    requires
        0 <= i < queue.len(),
        listener::backlog(queue) == 0,
    ensures
        queue[i].1.len() == 0,
    decreases i,
{
    listener::lemma_backlog(queue.skip(1));
    if i > 0 {
        assert(queue[i] == queue.skip(1)[i - 1]);
        lemma_empty_backlog(queue.skip(1), i - 1);
    }
}

/// As long as pieces are delivered in the order of time, the times that a
/// listener keeps are what they stand for.
pub proof fn law_a_listeners_times_are_kept(l: ListenerView, steps: Seq<Step>, t: u64)
    requires
        timely(l, t),
        in_time(steps, t) is Some,
    ensures
        listener::run(l, steps) matches Some((m, _)) ==> timely(m, in_time(steps, t)->0),
    decreases steps.len(),
{
    if steps.len() > 0 {
        law_a_listeners_times_are_kept(l, steps.drop_last(), t);
        if let Some((m, _)) = listener::run(l, steps.drop_last()) {
            match steps.last() {
                Step::Piece(data, attach, now) => {
                    let k = m.sent(data, now);
                    let last = m.queue.len() as int;
                    assert(forall|i: int| 0 <= i < last ==> k.queue[i] == m.queue[i]);
                    assert(k.queue[last] == (now, data));
                    if listener::backlog(m.queue) == 0 {
                        assert forall|i: int| 0 <= i < last implies m.queue[i].1.len() == 0 by {
                            lemma_empty_backlog(m.queue, i);
                        }
                    } else {
                        listener::lemma_backlog(m.queue);
                        assert(exists|i: int|
                            0 <= i < last && (#[trigger] m.queue[i]).1.len() > 0) by {
                            lemma_full_backlog(m.queue);
                        }
                    }
                },
                Step::Take => {
                    if m.queue.len() > 0 {
                        let k = m.taken();
                        assert(forall|i: int|
                            0 <= i < k.queue.len() ==> k.queue[i] == m.queue[i + 1]);
                        assert(m.queue[0].0 == k.consumed_at);
                    }
                },
            }
        }
    }
}

proof fn lemma_full_backlog(queue: Seq<(u64, Seq<u8>)>)
    requires
        listener::backlog(queue) > 0,
    ensures
        exists|i: int| 0 <= i < queue.len() && (#[trigger] queue[i]).1.len() > 0,
    decreases queue.len(),
{
    if queue[0].1.len() > 0 {
        assert(queue[0].1.len() > 0);
    } else {
        let rest = queue.skip(1);
        lemma_full_backlog(rest);
        let i = choose|i: int| 0 <= i < rest.len() && (#[trigger] rest[i]).1.len() > 0;
        assert(queue[i + 1] == rest[i]);
    }
}

/// A listener whose oldest unread chunk arrived more than eight seconds ago is
/// cut off at the next piece that it would be sent.
pub proof fn law_a_stale_listener_is_cut_off(l: ListenerView, t: u64, n: int, now: u64, i: int)
    requires
        timely(l, t),
        0 <= i < l.queue.len(),
        l.queue[i].1.len() > 0,
        l.queue[i].0 + 8_000_000_000 < now,
    ensures
        l.falls_behind(n, now),
{
    assert(listener::backlog(l.queue) > 0) by {
        if listener::backlog(l.queue) == 0 {
            lemma_empty_backlog(l.queue, i);
        }
        listener::lemma_backlog(l.queue);
    }
    assert(l.consumed_at <= l.queue[i].0);
    assert(l.oldest_unread <= l.queue[i].0);
}

/// A new listener's times are what they stand for.
pub proof fn law_a_joiner_begins_in_time(
    v: EncoderView,
    peer: Seq<char>,
    now: u64,
    init: Option<Seq<u8>>,
)
    ensures
        timely(v.joined(peer, now, init).listeners.last(), now),
{
}

/// A piece is added behind what waits, with the time of its arrival, and
/// counted; what was taken last does not change. Taking gives the oldest
/// chunk and remembers when it arrived, and nothing else.
pub proof fn law_a_queue_is_first_in_first_out(l: ListenerView, data: Seq<u8>, now: u64)
    ensures
        ({
            let m = l.sent(data, now);
            &&& m.queue == l.queue.push((now, data))
            &&& m.consumed_at == l.consumed_at
            &&& !m.awaiting
            &&& m.bytes as int == (l.bytes + data.len()) % 0x1_0000_0000_0000_0000
            &&& (m.id, m.peer, m.joined) == (l.id, l.peer, l.joined)
        }),
        l.queue.len() > 0 ==> {
            let m = l.taken();
            &&& m.queue == l.queue.drop_first()
            &&& m.consumed_at == l.queue.first().0
            &&& (m.oldest_unread, m.awaiting, m.bytes) == (l.oldest_unread, l.awaiting, l.bytes)
            &&& (m.id, m.peer, m.joined) == (l.id, l.peer, l.joined)
        },
        ({
            let m = l.cut(now);
            &&& m.queue == l.queue
            &&& (m.id, m.peer, m.joined, m.bytes) == (l.id, l.peer, l.joined, l.bytes)
        }),
        now >= l.joined ==> {
            let (peer, secs, bytes) = l.info(now);
            &&& peer == l.peer && bytes == l.bytes
            &&& secs * 1_000_000_000 <= now - l.joined < secs * 1_000_000_000 + 1_000_000_000
        },
        now < l.joined ==> l.info(now) == (l.peer, 0u64, l.bytes),
{
    assert(l.queue.skip(1) =~= l.queue.drop_first());
}

/// A listener that has had the init segment alone is sent nothing but a piece
/// that begins a fragment which begins on a keyframe; one that is past that,
/// and keeps up, is sent every piece.
pub proof fn law_joiners_attach_at_keyframes_only(
    v: EncoderView,
    l: ListenerView,
    data: Seq<u8>,
    fragment_start: bool,
    keyframe: bool,
    now: u64,
)
    requires
        v.listeners == seq![l],
        !l.falls_behind(data.len() as int, now),
    ensures
        ({
            let piece = PieceView::Media { data, fragment_start, keyframe };
            let after = v.fanned(piece, now);
            &&& after.leaving == v.leaving
            &&& after.listeners == seq![
                if l.awaiting && !(fragment_start && keyframe) {
                    l
                } else {
                    l.sent(data, now)
                },
            ]
        }),
        v.fanned(PieceView::Init(data), now).listeners == seq![
            if l.awaiting {
                l
            } else {
                l.sent(data, now)
            },
        ],
{
    assert(v.listeners.drop_last() =~= Seq::empty());
    assert(v.listeners.last() == l);
    reveal_with_fuel(encoder::fan, 2);
    let piece = PieceView::Media { data, fragment_start, keyframe };
    assert(v.fanned(piece, now).listeners =~= seq![
        if l.awaiting && !(fragment_start && keyframe) {
            l
        } else {
            l.sent(data, now)
        },
    ]);
    assert(v.fanned(piece, now).leaving =~= v.leaving);
    assert(v.fanned(PieceView::Init(data), now).listeners =~= seq![
        if l.awaiting {
            l
        } else {
            l.sent(data, now)
        },
    ]);
}

/// A listener that is cut off keeps what waits for it, and is reported with
/// how far behind it was and how much that is.
pub proof fn law_an_eviction_is_reported(
    v: EncoderView,
    l: ListenerView,
    p: PieceView,
    now: u64,
)
    requires
        v.listeners == seq![l],
        !l.awaiting,
        l.falls_behind(p.data().len() as int, now),
    ensures
        v.fanned(p, now).listeners.len() == 0,
        v.fanned(p, now).leaving.len() == v.leaving.len() + 1,
        v.fanned(p, now).leaving.last().queue == l.queue,
        v.fanned(p, now).leaving.last().id == l.id,
        encoder::fan(v.listeners, p.data(), encoder::joinable(p), now).report == seq![
            encoder::EvictedView {
                id: l.id,
                peer: l.peer,
                behind: l.behind(now),
                queued: listener::flat(l.queue).len() as int,
            },
        ],
{
    assert(v.listeners.drop_last() =~= Seq::empty());
    assert(v.listeners.last() == l);
    reveal_with_fuel(encoder::fan, 2);
    listener::lemma_backlog(l.queue);
}

/// What an fMP4 joiner is told: that the output is no fragmented MP4, if that
/// has shown, else the init segment, if it is there, else that it never will
/// be, once the output has ended or thirty seconds are over; else to wait, for
/// no longer than is left of them.
pub proof fn law_a_joiner_is_told_the_init_segment(v: EncoderView, waited: Nanos)
    ensures
        v.unjoinable ==> v.init_for(waited) == InitView::Refused(
            "stream is not valid fragmented mp4"@,
        ),
        !v.unjoinable && v.init is Some ==> v.init_for(waited) == InitView::Ready(v.init->0),
        !v.unjoinable && v.init is None && v.finished ==> v.init_for(waited) is Refused,
        !v.unjoinable && v.init is None && !v.finished && waited >= 30_000_000_000 ==> v.init_for(
            waited,
        ) is Refused,
        !v.unjoinable && v.init is None && !v.finished && waited < 30_000_000_000 ==> {
            v.init_for(waited) matches InitView::Wait(d) && waited + d == 30_000_000_000
        },
{
}

/// A new listener has the next id, a time of joining, and, of what was put out,
/// the init segment alone, which it must then be aligned behind; without one
/// it is aligned from the start. The other listeners stay as they are.
pub proof fn law_a_joiner_comes_last(
    v: EncoderView,
    peer: Seq<char>,
    now: u64,
    init: Option<Seq<u8>>,
)
    requires
        v.next_id < u64::MAX,
    ensures
        ({
            let w = v.joined(peer, now, init);
            let l = w.listeners.last();
            &&& w.listeners.drop_last() == v.listeners
            &&& w.next_id == v.next_id + 1
            &&& (l.id, l.peer, l.joined, l.bytes) == (v.next_id, peer, now, 0u64)
            &&& init matches Some(b) ==> l.queue == seq![(now, b)] && l.awaiting
            &&& init is None ==> l.queue.len() == 0 && !l.awaiting
            &&& (w.init, w.leaving, w.scan, w.bytes_out, w.finished) == (
                v.init,
                v.leaving,
                v.scan,
                v.bytes_out,
                v.finished,
            )
        }),
{
    assert(v.joined(peer, now, init).listeners.drop_last() =~= v.listeners);
}

proof fn lemma_place(ls: Seq<ListenerView>, id: u64, i: int)
    requires
        0 <= i < ls.len(),
        ls[i].id == id,
        forall|j: int| 0 <= j < i ==> (#[trigger] ls[j]).id != id,
    ensures
        encoder::place(ls, id) == i,
    decreases i,
{
    if i > 0 {
        let rest = ls.skip(1);
        assert(ls[0].id != id);
        assert(forall|j: int| 0 <= j < rest.len() ==> rest[j] == ls[j + 1]);
        lemma_place(rest, id, i - 1);
    }
}

proof fn lemma_no_place(ls: Seq<ListenerView>, id: u64)
    requires
        forall|j: int| 0 <= j < ls.len() ==> (#[trigger] ls[j]).id != id,
    ensures
        encoder::place(ls, id) == ls.len(),
    decreases ls.len(),
{
    if ls.len() > 0 {
        let rest = ls.skip(1);
        assert(ls[0].id != id);
        assert(forall|j: int| 0 <= j < rest.len() ==> rest[j] == ls[j + 1]);
        lemma_no_place(rest, id);
    }
}

/// A listener takes the oldest chunk of its own queue, and waits while there is
/// none; no other listener changes.
pub proof fn law_a_listener_takes_from_its_own_queue(v: EncoderView, i: int)
    requires
        0 <= i < v.listeners.len(),
        forall|j: int| 0 <= j < i ==> (#[trigger] v.listeners[j]).id != v.listeners[i].id,
    ensures
        ({
            let l = v.listeners[i];
            let (w, took) = v.taking(l.id);
            &&& l.queue.len() == 0 ==> took is Wait && w == v
            &&& l.queue.len() > 0 ==> took == Taking::Chunk(l.queue[0].1) && w == (EncoderView {
                listeners: v.listeners.update(i, l.taken()),
                ..v
            })
            &&& v.sent_to(l.id) == Some(l.bytes)
        }),
{
    lemma_place(v.listeners, v.listeners[i].id, i);
}

/// A listener that was cut off still takes what it had been sent, and then its
/// response ends; so does that of one that is not there.
pub proof fn law_a_listener_that_was_cut_off_drains(v: EncoderView, id: u64, j: int)
    requires
        forall|k: int| 0 <= k < v.listeners.len() ==> (#[trigger] v.listeners[k]).id != id,
        0 <= j <= v.leaving.len(),
        forall|k: int| 0 <= k < j ==> (#[trigger] v.leaving[k]).id != id,
        j < v.leaving.len() ==> v.leaving[j].id == id,
    ensures
        ({
            let (w, took) = v.taking(id);
            if j < v.leaving.len() && v.leaving[j].queue.len() > 0 {
                let l = v.leaving[j];
                &&& took == Taking::Chunk(l.queue[0].1)
                &&& w == (EncoderView { leaving: v.leaving.update(j, l.taken()), ..v })
            } else {
                took is End && w == v
            }
        }),
        v.sent_to(id) == if j < v.leaving.len() {
            Some(v.leaving[j].bytes)
        } else {
            None
        },
{
    lemma_no_place(v.listeners, id);
    if j < v.leaving.len() {
        lemma_place(v.leaving, id, j);
    } else {
        lemma_no_place(v.leaving, id);
    }
}

/// An audio encoder's output goes out as it comes: every listener that keeps up
/// is sent each chunk whole, wherever it joined.
pub proof fn law_audio_goes_out_as_it_comes(v: EncoderView, data: Seq<u8>, now: u64)
    requires
        v.scan is None,
    ensures
        v.drained(data, now).0 == (EncoderView {
            bytes_out: ((v.bytes_out + data.len()) % 0x1_0000_0000_0000_0000) as u64,
            ..v
        }).fanned(
            PieceView::Media { data, fragment_start: true, keyframe: true },
            now,
        ),
{
    let w = EncoderView {
        bytes_out: ((v.bytes_out + data.len()) % 0x1_0000_0000_0000_0000) as u64,
        ..v
    };
    let ps = v.pieces(data);
    assert(ps.drop_last() =~= Seq::empty());
    reveal_with_fuel(EncoderView::fanned_all, 2);
    assert(v.drained(data, now).0 =~= w.fanned(ps[0], now));
}

/// An encoder has a scanner, and so an init segment to wait for, exactly if it
/// puts out fragmented MP4.
pub proof fn law_only_mp4_has_an_init_segment(
    content_id: Seq<char>,
    fmt: OutputFormat,
    started: Nanos,
    video: crate::format::TrackMode,
    audio: crate::format::TrackMode,
)
    ensures
        ({
            let v = encoder::fresh(content_id, fmt, started, video, audio);
            &&& fmt == OutputFormat::Fmp4 <==> v.scan is Some
            &&& v.scan matches Some(s) ==> s.held().len() == 0 && s.init_segment() is None
            &&& (v.fmt, v.started, v.video, v.audio) == (fmt, started, video, audio)
            &&& v.content_id == content_id
            &&& v.init is None && !v.unjoinable && !v.finished
            &&& v.listeners.len() == 0 && v.leaving.len() == 0 && v.bytes_out == 0
        }),
{
}

/// A full queue ends the wait exactly if nothing was consumed since the last
/// progress and that was at least eight seconds ago; a chunk that was taken, or
/// an encoder that is gone, always ends it.
pub proof fn law_only_a_stalled_encoder_is_given_up(b: BackpressureView, fed: u64, now: Nanos)
    ensures
        b.verdict(Attempt::Sent, fed, now) == Some(Ok::<(), Seq<char>>(())),
        b.verdict(Attempt::Gone, fed, now) == Some(Err::<(), Seq<char>>("gone"@)),
        b.verdict(Attempt::Full, fed, now) == if fed == b.seen && now - b.since >= 8_000_000_000 {
            Some(Err::<(), Seq<char>>("stopped consuming input"@))
        } else {
            None
        },
        b.after(Attempt::Full, fed, now) == if fed == b.seen {
            b
        } else {
            BackpressureView { seen: fed, since: now }
        },
        b.after(Attempt::Sent, fed, now) == b,
{
}

/// A request waits for a pull until it is up, or has failed, or forty-five
/// seconds are over.
pub proof fn law_a_request_waits_for_the_start(start: StartView, waited: Nanos)
    ensures
        start is Ready ==> super::stream::ready_after(start, waited) is Up,
        start matches StartView::Failed(e) ==> super::stream::ready_after(start, waited)
            == ReadyView::Failed(e),
        start is Pending && waited >= 45_000_000_000 ==> super::stream::ready_after(start, waited)
            == ReadyView::Failed("timed out waiting for the engine stream to start"@),
        start is Pending && waited < 45_000_000_000 ==> {
            super::stream::ready_after(start, waited) matches ReadyView::Wait(d) && waited + d
                == 45_000_000_000
        },
{
}

/// A video encoder is primed from a keyframe with two and a half seconds of
/// content behind it, an audio encoder from the last second and a half.
pub proof fn law_video_is_primed_from_a_keyframe()
    ensures
        super::stream::policy_for(OutputFormat::Fmp4) == Policy::FromKeyframe(2_500_000_000),
        super::stream::policy_for(OutputFormat::Adts) == Policy::Tail(1_500_000_000),
        super::stream::policy_for(OutputFormat::Mp3) == Policy::Tail(1_500_000_000),
{
}

/// The first video encoder on a pull waits for content to start from for at
/// most three seconds, looking again every hundred and fifty milliseconds; not
/// at all once there is enough, and not once a source has had that long to
/// show that it is faster than real time and has not.
pub proof fn law_the_wait_for_content_pays_off<H>(
    v: StreamView<H>,
    base: Option<u64>,
    waited: Nanos,
)
    ensures
        v.prime_wait(base, waited) is Some <==> {
            &&& !v.primeable()
            &&& waited < 3_000_000_000
            &&& waited < 150_000_000 || v.replay.growth(base) > waited
        },
        v.prime_wait(base, waited) matches Some(d) ==> d == if waited + 150_000_000
            <= 3_000_000_000 {
            150_000_000
        } else {
            3_000_000_000 - waited
        },
        v.waits_for_prime(OutputFormat::Adts) == false,
        v.waits_for_prime(OutputFormat::Mp3) == false,
        v.waits_for_prime(OutputFormat::Fmp4) <==> v.encoders.at(OutputFormat::Fmp4) is None
            && v.replay.scanner.known.video is Some,
{
}

/// A chunk from the engine goes into the window and is counted; nothing else
/// of a pull changes.
pub proof fn law_a_chunk_is_counted<H>(v: StreamView<H>, now: Nanos, data: Seq<u8>)
    ensures
        ({
            let w = v.fed(now, data);
            &&& w.bytes_in as int == (v.bytes_in + data.len()) % 0x1_0000_0000_0000_0000
            &&& w.replay == v.replay.pushed(now, data)
            &&& (w.content_id, w.started, w.start) == (v.content_id, v.started, v.start)
            &&& (w.probe, w.stats, w.encoders) == (v.probe, v.stats, v.encoders)
        }),
{
}

/// A pull that meets no trouble opens a session, asks for the stream, hands
/// over the socket and reads; any answer but 200 ends it.
pub proof fn law_a_pull_goes_step_by_step(preroll: Seq<u8>, status: u16)
    ensures
        ({
            let at = |stage: Stage| PullerView { stage, preroll };
            &&& at(Stage::Opening).on(EventView::Opened) == (
                at(Stage::Connecting),
                NextView::Connect,
            )
            &&& at(Stage::Connecting).on(EventView::Answered(200)) == (
                at(Stage::Registering),
                NextView::Register,
            )
            &&& status != 200 ==> {
                &&& at(Stage::Connecting).on(EventView::Answered(status)).0.stage == Stage::Over
                &&& at(Stage::Connecting).on(EventView::Answered(status)).1 matches NextView::Over(
                    Some(_),
                    true,
                )
            }
            &&& at(Stage::Registering).on(EventView::Registered) == (
                at(Stage::Identifying),
                NextView::Read,
            )
            &&& at(Stage::Identifying).on(EventView::Closed).1 is RunProbe <==> preroll.len() > 0
        }),
{
}

/// A failure before the stream is up is published, with why; the session that
/// was opened is stopped.
pub proof fn law_a_failure_to_start_is_published(preroll: Seq<u8>, why: Seq<char>)
    ensures
        ({
            let at = |stage: Stage| PullerView { stage, preroll };
            &&& at(Stage::Opening).on(EventView::OpenFailed(why)).1 == NextView::Over(
                Some(why),
                false,
            )
            &&& at(Stage::Connecting).on(EventView::Unreachable(why)).1 == NextView::Over(
                Some("could not open engine stream: "@ + why),
                true,
            )
            &&& at(Stage::Identifying).on(EventView::ReadFailed(why)).1 == NextView::Over(
                Some("engine stream failed during preroll: "@ + why),
                true,
            )
            &&& at(Stage::Identifying).on(EventView::Gone).1 == NextView::Over(
                Some("stream torn down during startup"@),
                true,
            )
            &&& at(Stage::Probing).on(EventView::Probed(Err(why))).1 == NextView::Over(
                Some("could not probe stream: "@ + why),
                true,
            )
        }),
{
}

/// A chunk read while the source is not identified is kept until there are 256
/// KiB; a program that the tables name makes the stream ready, and ffprobe runs
/// over what was read once there is enough of it and they have not. Once it is
/// ready every chunk is delivered.
pub proof fn law_a_source_is_identified_while_reading(
    preroll: Seq<u8>,
    data: Seq<u8>,
    program: ts::ProgramView,
)
    ensures
        ({
            let v = PullerView { stage: Stage::Identifying, preroll };
            let kept = if preroll.len() < 262_144 {
                preroll + data
            } else {
                preroll
            };
            &&& v.on_data(data, Some(program)).0 == (PullerView {
                stage: Stage::Streaming,
                preroll: kept,
            })
            &&& v.on_data(data, Some(program)).1 matches NextView::Ready(p, _) && p == program
            &&& v.on_data(data, None) == if kept.len() >= 262_144 {
                (PullerView { stage: Stage::Probing, preroll: kept }, NextView::RunProbe)
            } else {
                (PullerView { stage: Stage::Identifying, preroll: kept }, NextView::Read)
            }
        }),
        ({
            let v = PullerView { stage: Stage::Streaming, preroll };
            v.on_data(data, Some(program)) == (v, NextView::Deliver)
        }),
        ({
            let v = PullerView { stage: Stage::Probing, preroll };
            &&& v.on(EventView::Probed(Ok(program))).0.stage == Stage::Streaming
            &&& v.on(EventView::Probed(Ok(program))).1 matches NextView::Ready(p, _) && p
                == program
        }),
{
}

/// What a pull keeps for new encoders is bounded by twelve seconds and sixteen
/// mebibytes: a push leaves every chunk within both, or the newest alone.
pub proof fn law_the_window_of_a_pull_is_bounded(
    v: crate::replay::model::ReplayView,
    now: Nanos,
    data: Seq<u8>,
)
    requires
        v.wf(),
        v.max_age == super::limits::REPLAY_MAX_AGE,
        v.max_bytes == super::limits::REPLAY_MAX_BYTES,
    ensures
        v.max_age == 12_000_000_000,
        v.max_bytes == 16_777_216,
        ({
            let p = v.pushed(now, data);
            p.chunks.len() > 1 ==> p.window().len() <= 16_777_216 && now - p.chunks[0].at
                <= 12_000_000_000
        }),
{
    crate::replay::laws::law_the_caps_hold(v, now, data);
}

/// The last user starts a linger of the given period, unless that is zero; no
/// other does.
pub proof fn law_the_last_user_starts_a_linger(period: Nanos, last: bool)
    ensures
        super::kept_for(period, false) is None,
        super::kept_for(0, last) is None,
        period > 0 ==> super::kept_for(period, true) == Some(period),
{
}

/// The sixteen digits.
pub open spec fn hex_digits() -> Seq<char> {
    seq![
        '0', '1', '2', '3', '4', '5', '6', '7', '8', '9', 'a', 'b', 'c', 'd', 'e', 'f',
    ]
}

/// A session is named after the time, in lower-case hexadecimal, digit by
/// digit.
pub proof fn law_a_session_is_named_after_the_time(n: nat, d: int)
    requires
        0 <= d < 16,
    ensures
        super::session_name(n) == "proxy-"@ + super::hex(n),
        super::hex(d as nat) == seq![hex_digits()[d]],
        n > 0 ==> super::hex(n * 16 + d as nat) == super::hex(n).push(hex_digits()[d]),
{
    assert(super::hex_digit(d) == hex_digits()[d]);
    if n > 0 {
        let m = n * 16 + d as nat;
        assert(m / 16 == n && m % 16 == d);
    }
}

/// A pull is found by its content id: where one is listed, the first that is,
/// and where none is, none.
pub proof fn law_a_pull_is_found_by_its_id<H>(es: Seq<(Seq<char>, H)>, id: Seq<char>, i: int)
    requires
        0 <= i <= es.len(),
        forall|j: int| 0 <= j < i ==> (#[trigger] es[j]).0 != id,
        i < es.len() ==> es[i].0 == id,
    ensures
        super::place(es, id) == i,
    decreases i,
{
    if i > 0 {
        let rest = es.skip(1);
        assert(es[0].0 != id);
        assert(forall|j: int| 0 <= j < rest.len() ==> rest[j] == es[j + 1]);
        law_a_pull_is_found_by_its_id(rest, id, i - 1);
    }
}

/// A new encoder is started where there is none, and in place of one whose
/// output has ended; one that runs is joined.
pub proof fn law_an_encoder_that_runs_is_joined()
    ensures
        super::stream::must_start(None),
        super::stream::must_start(Some(true)),
        !super::stream::must_start(Some(false)),
{
}

/// Tearing down an encoder that was there is reported, unless it had exited.
pub proof fn law_a_stalled_encoder_is_reported(
    had: bool,
    fed: u64,
    b: BackpressureView,
    now: Nanos,
)
    ensures
        b.verdict(Attempt::Full, fed, now) matches Some(Err(why)) ==> super::stream::notable(
            true,
            why,
        ),
        b.verdict(Attempt::Gone, fed, now) matches Some(Err(why)) ==> !super::stream::notable(
            had,
            why,
        ),
        forall|why: Seq<char>| !#[trigger] super::stream::notable(false, why),
{
    reveal_strlit("gone");
    reveal_strlit("stopped consuming input");
    assert("gone"@.len() != "stopped consuming input"@.len());
}

/// What is published of a start is what requests that wait are told.
pub proof fn law_requests_are_told_what_was_published(e: Seq<char>, waited: Nanos)
    ensures
        super::stream::ready_after(super::stream::published(None), waited) is Up,
        super::stream::ready_after(super::stream::published(Some(e)), waited) == ReadyView::Failed(
            e,
        ),
{
}

/// What is read at a time is at most so much, and what is read and what is left
/// are the chunk, to the byte.
pub proof fn law_reading_loses_nothing(b: Seq<u8>, max: int)
    requires
        max >= 0,
    ensures
        ({
            let (out, left) = encoder::handed_out(b, max);
            &&& out + left == b
            &&& out.len() <= max
            &&& left.len() > 0 ==> out.len() == max
        }),
{
    let (out, left) = encoder::handed_out(b, max);
    assert(out + left =~= b);
}

/// A subscription reads what it has left before it takes another chunk, and
/// takes none while it has something left.
pub proof fn law_what_is_left_is_read_first(v: EncoderView, id: u64, left: Seq<u8>)
    ensures
        left.len() > 0 ==> v.read_from(id, left) == (v, Some(left)),
        left.len() == 0 ==> v.read_from(id, left).0 == v.taking(id).0,
        left.len() == 0 ==> (v.taking(id).1 matches Taking::Chunk(b) ==> v.read_from(id, left).1
            == Some(b)),
        left.len() == 0 && !(v.taking(id).1 is Chunk) ==> v.read_from(id, left).1 is None,
{
}

/// A listener of audio is let in at once, with nothing to begin with; one of
/// fragmented MP4 with the init segment, once that is there, and until then it
/// waits or is refused and nothing changes.
pub proof fn law_a_joiner_is_let_in_with_the_init_segment(
    v: EncoderView,
    peer: Seq<char>,
    now: u64,
    waited: Nanos,
)
    ensures
        ({
            let (w, r) = v.admitted(peer, now, waited);
            &&& v.fmt != OutputFormat::Fmp4 ==> r == encoder::Admission::Joined(v.next_id) && w
                == v.joined(peer, now, None)
            &&& v.fmt == OutputFormat::Fmp4 && !v.unjoinable && v.init is Some ==> r
                == encoder::Admission::Joined(v.next_id) && w == v.joined(peer, now, v.init)
            &&& v.fmt == OutputFormat::Fmp4 && (v.unjoinable || v.init is None) ==> w == v && !(
            r is Joined)
            &&& r matches encoder::Admission::Wait(d) ==> waited + d == 30_000_000_000
        }),
{
}

/// Pieces are delivered one after the other, in order.
pub proof fn law_pieces_are_delivered_in_order(
    v: EncoderView,
    ps: Seq<PieceView>,
    p: PieceView,
    now: u64,
)
    ensures
        v.fanned_all(Seq::empty(), now).0 == v,
        v.fanned_all(ps.push(p), now).0 == v.fanned_all(ps, now).0.fanned(p, now),
        v.fanned_all(ps.push(p), now).1 == v.fanned_all(ps, now).1 + encoder::fan(
            v.fanned_all(ps, now).0.listeners,
            p.data(),
            encoder::joinable(p),
            now,
        ).report,
{
    assert(ps.push(p).drop_last() =~= ps);
}

/// The output of a video encoder goes out in the pieces that its bytes free,
/// and is counted; once it no longer makes sense it goes out as it comes, to
/// those that are attached.
pub proof fn law_video_goes_out_piece_by_piece(
    v: EncoderView,
    s: crate::mp4::model::Scan,
    data: Seq<u8>,
    now: u64,
)
    requires
        v.scan == Some(s),
    ensures
        ({
            let w = EncoderView {
                bytes_out: ((v.bytes_out + data.len()) % 0x1_0000_0000_0000_0000) as u64,
                scan: Some(s.run(data).0),
                ..v
            };
            let ps = if s is Dead {
                seq![PieceView::Media { data, fragment_start: false, keyframe: false }]
            } else {
                crate::mp4::model::group(s.run(data).1)
            };
            let (after, report) = v.drained(data, now);
            let (fanned, evicted) = w.fanned_all(ps, now);
            &&& after.listeners == fanned.listeners
            &&& after.leaving == fanned.leaving
            &&& after.bytes_out == w.bytes_out
            &&& after.scan == w.scan
            &&& report == evicted
        }),
{
    let w = EncoderView {
        bytes_out: ((v.bytes_out + data.len()) % 0x1_0000_0000_0000_0000) as u64,
        scan: Some(s.run(data).0),
        ..v
    };
    encoder::lemma_fanned_all_frame(w, v.pieces(data), now);
}

/// An encoder that stops gives up its own slot, and never that of the one that
/// has replaced it.
pub proof fn law_a_replacement_keeps_its_slot<H>(serial: u64, other: u64, h: H)
    ensures
        super::slots::released(Some((serial, h)), serial) is None,
        other != serial ==> super::slots::released(Some((other, h)), serial) == Some((other, h)),
        super::slots::released(None::<(u64, H)>, serial) is None,
{
}

/// A thread is named after the beginning of the content id.
pub proof fn law_a_thread_is_named_after_its_stream(name: Seq<u8>)
    ensures
        super::first_eight(name).len() <= 8,
        super::first_eight(name).len() < 8 ==> super::first_eight(name) == name,
        super::first_eight(name).is_prefix_of(name),
{
}

/// Joiners look again whenever what they would be told may have changed.
pub proof fn law_joiners_look_again_when_it_matters(
    v: EncoderView,
    w: EncoderView,
    waited: Nanos,
)
    requires
        v.finished == w.finished,
        v.init_for(waited) != w.init_for(waited),
    ensures
        v.stirs(w),
{
}

/// Where nothing changed for joiners they do not look again.
pub proof fn law_joiners_are_left_alone(v: EncoderView)
    ensures
        !v.stirs(v),
{
}

/// A listener that was removed is gone, whether it was served or leaving.
pub proof fn law_a_removed_listener_is_gone(v: EncoderView, id: u64)
    ensures
        v.removed(id).taking(id).1 is End,
        v.removed(id).sent_to(id) is None,
        v.removed(id).next_id == v.next_id,
        v.removed(id).init == v.init,
{
    encoder::lemma_without(v.listeners, id);
    encoder::lemma_without(v.leaving, id);
    lemma_no_place(v.removed(id).listeners, id);
    lemma_no_place(v.removed(id).leaving, id);
}

/// A pull that was added is found alive for as long as it lives, so that no
/// second one is added; none runs for an id of which no entry is alive.
pub proof fn law_a_living_pull_is_not_doubled<H>(
    es: Seq<(Seq<char>, H)>,
    alive: Seq<bool>,
    id: Seq<char>,
    handle: H,
)
    requires
        alive.len() == es.len(),
    ensures
        super::runs(es.push((id, handle)), alive.push(true), id),
        super::runs(es, alive, id) ==> super::runs(
            es.push((id, handle)),
            alive.push(false),
            id,
        ),
        (forall|i: int| 0 <= i < es.len() && (#[trigger] es[i]).0 == id ==> !alive[i]) ==> !super::runs(
            es,
            alive,
            id,
        ),
{
    let more = es.push((id, handle));
    assert(more[es.len() as int] == (id, handle));
    if super::runs(es, alive, id) {
        let i = choose|i: int| 0 <= i < es.len() && alive[i] && (#[trigger] es[i]).0 == id;
        assert(more[i] == es[i]);
        assert(alive.push(false)[i] == alive[i]);
    }
}

/// A video encoder that is primed from a keyframe analyses two seconds of its
/// input, one that is not three, and one of audio alone one second, whatever
/// it is primed with; its tracks go by the audio that the source was found to
/// have.
pub proof fn law_an_encoder_is_called_for_what_it_is_fed<H>(
    v: StreamView<H>,
    fmt: OutputFormat,
    frag_ms: crate::format::FragDurationMs,
)
    ensures
        ({
            let (primed, args, modes) = v.startup(fmt, frag_ms);
            &&& args[5] == "-analyzeduration"@
            &&& args[6] == if fmt != OutputFormat::Fmp4 {
                "1000000"@
            } else if primed.from_keyframe {
                "2000000"@
            } else {
                "3000000"@
            }
            &&& primed == if fmt == OutputFormat::Fmp4 {
                v.replay.from_keyframe(2_500_000_000)
            } else {
                v.replay.tail(1_500_000_000)
            }
            &&& modes == crate::format::modes_of(fmt, v.probe->0.audio)
            &&& args.skip(13) == crate::format::laws::output_side(
                fmt,
                v.probe->0.audio,
                frag_ms,
                primed.from_keyframe,
            )
        }),
{
    let primed = v.startup(fmt, frag_ms).0;
    crate::format::laws::law_the_input_is_examined_for_so_long(
        fmt,
        v.probe->0.audio,
        frag_ms,
        primed.from_keyframe,
    );
    let args = crate::format::argv(fmt, v.probe->0.audio, frag_ms, primed.from_keyframe);
    crate::format::laws::law_the_output_goes_to_the_muxer_of_its_format(
        fmt,
        v.probe->0.audio,
        frag_ms,
        primed.from_keyframe,
    );
    assert(args[5] == args.take(13)[5]);
    assert(args[6] == args.take(13)[6]);
}

/// How a source was identified is said together with how much had been read.
pub proof fn law_it_is_said_how_a_source_was_identified(
    preroll: Seq<u8>,
    data: Seq<u8>,
    program: ts::ProgramView,
)
    requires
        preroll.len() < 262_144,
    ensures
        (PullerView { stage: Stage::Identifying, preroll }).on_data(data, Some(program)).1
            == NextView::Ready(
            program,
            "from the PMT, "@ + crate::text::decimal((preroll + data).len()) + " bytes in"@,
        ),
        (PullerView { stage: Stage::Probing, preroll }).on(EventView::Probed(Ok(program))).1
            == NextView::Ready(
            program,
            "ffprobe over "@ + crate::text::decimal(preroll.len()) + " bytes"@,
        ),
{
}

/// Reads are of at most 64 KiB, an encoder's queue holds 64 chunks, and the
/// engine is asked for statistics every five seconds.
pub proof fn law_what_is_read_and_queued_is_bounded()
    ensures
        super::limits::CHUNK == 65_536,
        super::limits::TS_QUEUE == 64,
        super::limits::STATS_INTERVAL == 5_000_000_000,
{
}

/// A wait for content that begins now has seen none come; what comes is counted
/// from where the content clock stands.
pub proof fn law_a_wait_for_content_begins_at_the_clock<H>(v: StreamView<H>, fmt: OutputFormat)
    requires
        v.waits_for_prime(fmt),
    ensures
        v.prime_base(fmt) == Some(v.replay.scanner.known.latest_pts),
        v.prime_base(fmt) matches Some(base) && v.replay.growth(base) == 0,
{
    if let Some(p) = v.replay.scanner.known.latest_pts {
        assert((p - p) % 0x2_0000_0000 == 0);
    }
}

/// An encoder that need not wait for content is not made to.
pub proof fn law_only_the_first_video_encoder_waits<H>(v: StreamView<H>, fmt: OutputFormat)
    requires
        fmt != OutputFormat::Fmp4 || v.encoders.at(fmt) is Some
            || v.replay.scanner.known.video is None,
    ensures
        v.prime_base(fmt) is None,
{
}

/// A new pull keeps a window of twelve seconds, of sixteen mebibytes at most,
/// in which nothing has been read yet; a failure to start ffmpeg says why.
pub proof fn law_a_new_pull_has_read_nothing(epoch: std::time::Instant, why: Seq<char>)
    ensures
        ({
            let v = super::stream::new_window(epoch);
            &&& v.max_age == 12_000_000_000
            &&& v.max_bytes == 16_777_216
            &&& v.chunks.len() == 0 && v.keyframes.len() == 0 && v.head == 0
            &&& v.scanner.total() == 0
            &&& v.scanner.known.video is None && !v.scanner.known.pmt_seen
            &&& v.epoch == epoch
        }),
        super::stream::start_error(why) == "could not start ffmpeg: "@ + why,
{
}

/// An encoder is idle from its start until a listener joins, and again once the
/// last one is gone, by leaving or by being cut off.
pub proof fn law_an_encoder_is_idle_without_listeners(
    v: EncoderView,
    peer: Seq<char>,
    now: u64,
    init: Option<Seq<u8>>,
    id: u64,
)
    ensures
        !v.joined(peer, now, init).idle(),
        v.idle() && v.wf() ==> v.joined(peer, now, init).removed(v.next_id).idle(),
        v.idle() ==> v.removed(id).idle(),
        v.listeners.len() > 0 ==> !v.idle(),
{
    let w = v.joined(peer, now, init);
    assert(w.listeners.drop_last() =~= v.listeners);
    reveal_with_fuel(encoder::without, 2);
}

/// A pull has no encoder exactly if none of the three formats has one.
pub proof fn law_a_pull_without_encoders_has_none_of_any_format<H>(s: super::slots::Slots<H>)
    ensures
        s.vacant() <==> {
            &&& s.at(OutputFormat::Adts) is None
            &&& s.at(OutputFormat::Mp3) is None
            &&& s.at(OutputFormat::Fmp4) is None
        },
{
    if s.at(OutputFormat::Adts) is None && s.at(OutputFormat::Mp3) is None && s.at(
        OutputFormat::Fmp4,
    ) is None {
        assert forall|fmt: OutputFormat| (#[trigger] s.at(fmt)) is None by {
            match fmt {
                OutputFormat::Adts => {},
                OutputFormat::Mp3 => {},
                OutputFormat::Fmp4 => {},
            }
        }
    }
}

} // verus!
