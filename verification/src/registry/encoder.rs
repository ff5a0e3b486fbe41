//! One ffmpeg's output, fanned out to its listeners.
use bytes::Bytes;

use super::limits::INIT_TIMEOUT;
use super::listener::{Delivery, Listener, ListenerView};
use super::listener;
use crate::chunk;
use crate::mp4;
use crate::replay::Nanos;
use crate::format::{OutputFormat, TrackMode};
use vstd::prelude::*;

verus! {

/// A listener that was cut off for not keeping up.
#[derive(Debug)]
pub struct Evicted {
    pub id: u64,
    pub peer: String,
    /// How far behind it was, in nanoseconds.
    pub behind: u64,
    /// How many bytes it had yet to take.
    pub queued: usize,
}

#[verifier::ext_equal]
pub struct EvictedView {
    pub id: u64,
    pub peer: Seq<char>,
    pub behind: u64,
    pub queued: int,
}

impl View for Evicted {
    type V = EvictedView;

    open spec fn view(&self) -> EvictedView {
        EvictedView {
            id: self.id,
            peer: self.peer@,
            behind: self.behind,
            queued: self.queued as int,
        }
    }
}

pub open spec fn evicted_views(s: Seq<Evicted>) -> Seq<EvictedView> {
    s.map_values(|e: Evicted| e@)
}

/// What a delivery does to a run of listeners: those kept, those cut off, and
/// how it is reported.
#[verifier::ext_equal]
pub struct Fan {
    pub kept: Seq<ListenerView>,
    pub cut: Seq<ListenerView>,
    pub report: Seq<EvictedView>,
}

/// Deliver a piece to a run of listeners, each by its own state alone.
pub open spec fn fan(ls: Seq<ListenerView>, data: Seq<u8>, attach: bool, now: u64) -> Fan
    decreases ls.len(),
{
    if ls.len() == 0 {
        Fan { kept: Seq::empty(), cut: Seq::empty(), report: Seq::empty() }
    } else {
        let before = fan(ls.drop_last(), data, attach, now);
        let l = ls.last();
        if l.skips(attach) {
            Fan { kept: before.kept.push(l), ..before }
        } else if l.falls_behind(data.len() as int, now) {
            Fan {
                cut: before.cut.push(l.cut(now)),
                report: before.report.push(
                    EvictedView {
                        id: l.id,
                        peer: l.peer,
                        behind: l.behind(now),
                        queued: listener::backlog(l.queue),
                    },
                ),
                ..before
            }
        } else {
            Fan { kept: before.kept.push(l.sent(data, now)), ..before }
        }
    }
}

/// Whether a late joiner may be attached at a piece: it begins a fragment
/// whose video begins on a keyframe.
pub open spec fn joinable(p: mp4::model::PieceView) -> bool {
    p matches mp4::model::PieceView::Media { fragment_start: true, keyframe: true, .. }
}

/// The listeners without the one of the given id.
pub open spec fn without(ls: Seq<ListenerView>, id: u64) -> Seq<ListenerView>
    decreases ls.len(),
{
    if ls.len() == 0 {
        Seq::empty()
    } else if ls.last().id == id {
        without(ls.drop_last(), id)
    } else {
        without(ls.drop_last(), id).push(ls.last())
    }
}

/// Where the listener of the given id stands; the length if there is none.
pub open spec fn place(ls: Seq<ListenerView>, id: u64) -> int
    decreases ls.len(),
{
    if ls.len() == 0 || ls[0].id == id {
        0
    } else {
        1 + place(ls.skip(1), id)
    }
}

/// The state of an encoder.
#[verifier::ext_equal]
pub struct EncoderView {
    pub content_id: Seq<char>,
    pub fmt: OutputFormat,
    pub started: Nanos,
    pub bytes_out: u64,
    pub video: TrackMode,
    pub audio: TrackMode,
    /// The init segment, once the first `moof` has been written.
    pub init: Option<Seq<u8>>,
    /// Set if the output did not parse as fragmented MP4.
    pub unjoinable: bool,
    /// Set when the output ended.
    pub finished: bool,
    pub listeners: Seq<ListenerView>,
    /// Listeners that were cut off and have yet to take what they were sent.
    pub leaving: Seq<ListenerView>,
    pub next_id: u64,
    /// The scanner over the output, where it has an init segment.
    pub scan: Option<mp4::model::Scan>,
}

/// What an fMP4 joiner is told.
pub enum InitView {
    Ready(Seq<u8>),
    Refused(Seq<char>),
    Wait(Nanos),
}

/// What a subscription can take.
pub enum Taking {
    Chunk(Seq<u8>),
    /// Nothing yet.
    Wait,
    /// Nothing any more.
    End,
}

/// A chunk read at most so many bytes at a time: what is handed out now, and
/// what is left for later.
pub open spec fn handed_out(b: Seq<u8>, max: int) -> (Seq<u8>, Seq<u8>) {
    let n: int = if b.len() <= max {
        b.len() as int
    } else {
        max
    };
    (b.take(n), b.skip(n))
}

/// What came of a request to join.
pub enum Admission {
    Joined(u64),
    Refused(Seq<char>),
    Wait(Nanos),
}

/// An encoder that has put out nothing yet.
pub open spec fn fresh(
    content_id: Seq<char>,
    fmt: OutputFormat,
    started: Nanos,
    video: TrackMode,
    audio: TrackMode,
) -> EncoderView {
    EncoderView {
        content_id,
        fmt,
        started,
        bytes_out: 0,
        video,
        audio,
        init: None,
        unjoinable: false,
        finished: false,
        listeners: Seq::empty(),
        leaving: Seq::empty(),
        next_id: 0,
        scan: if fmt == OutputFormat::Fmp4 {
            Some(mp4::model::fresh())
        } else {
            None
        },
    }
}

impl EncoderView {
    /// What holds of every encoder: ids are given out once, and the scanner is
    /// one that a stream can lead to.
    pub open spec fn wf(self) -> bool {
        &&& forall|i: int|
            0 <= i < self.listeners.len() ==> (#[trigger] self.listeners[i]).id < self.next_id
        &&& forall|i: int|
            0 <= i < self.leaving.len() ==> (#[trigger] self.leaving[i]).id < self.next_id
        &&& self.scan matches Some(s) ==> s.wf()
    }

    /// The encoder with a piece delivered.
    pub open spec fn fanned(self, p: mp4::model::PieceView, now: u64) -> EncoderView {
        let f = fan(self.listeners, p.data(), joinable(p), now);
        EncoderView { listeners: f.kept, leaving: self.leaving + f.cut, ..self }
    }

    /// The encoder with pieces delivered one after the other, and the
    /// evictions reported.
    pub open spec fn fanned_all(self, ps: Seq<mp4::model::PieceView>, now: u64) -> (
        EncoderView,
        Seq<EvictedView>,
    )
        decreases ps.len(),
    {
        if ps.len() == 0 {
            (self, Seq::empty())
        } else {
            let (before, report) = self.fanned_all(ps.drop_last(), now);
            let p = ps.last();
            (
                before.fanned(p, now),
                report + fan(before.listeners, p.data(), joinable(p), now).report,
            )
        }
    }

    /// The pieces that a chunk of output makes. Without an init segment every
    /// chunk may be joined at.
    pub open spec fn pieces(self, data: Seq<u8>) -> Seq<mp4::model::PieceView> {
        match self.scan {
            None => seq![
                mp4::model::PieceView::Media { data, fragment_start: true, keyframe: true },
            ],
            Some(mp4::model::Scan::Dead) => seq![
                mp4::model::PieceView::Media { data, fragment_start: false, keyframe: false },
            ],
            Some(s) => mp4::model::group(s.run(data).1),
        }
    }

    /// The encoder after a chunk of output, and the evictions reported.
    pub open spec fn drained(self, data: Seq<u8>, now: u64) -> (EncoderView, Seq<EvictedView>) {
        let counted = EncoderView {
            bytes_out: listener::counted(self.bytes_out, data.len() as int),
            scan: match self.scan {
                Some(s) => Some(s.run(data).0),
                None => None,
            },
            ..self
        };
        let (after, report) = counted.fanned_all(self.pieces(data), now);
        match after.scan {
            None => (after, report),
            Some(s) => if s is Dead && !after.unjoinable {
                (EncoderView { unjoinable: true, ..after }, report)
            } else if after.init is None {
                (EncoderView { init: s.init_segment(), ..after }, report)
            } else {
                (after, report)
            },
        }
    }

    /// Whether it has no listener.
    pub open spec fn idle(self) -> bool {
        self.listeners.len() == 0
    }

    /// Whether joiners that wait should look again once the encoder has become
    /// `next`.
    pub open spec fn stirs(self, next: EncoderView) -> bool {
        self.unjoinable != next.unjoinable || self.init != next.init
    }

    /// What an fMP4 joiner that has waited so long is told.
    pub open spec fn init_for(self, waited: Nanos) -> InitView {
        if self.unjoinable {
            InitView::Refused("stream is not valid fragmented mp4"@)
        } else if self.init is Some {
            InitView::Ready(self.init->0)
        } else if self.finished {
            InitView::Refused("encoder stopped before producing a fragment"@)
        } else if waited >= INIT_TIMEOUT {
            InitView::Refused("no fragment within 30s; the source keyframe interval may exceed it"@)
        } else {
            InitView::Wait((INIT_TIMEOUT - waited) as u128)
        }
    }

    /// The encoder with a listener more, which begins with the init segment
    /// if there is one to begin with.
    pub open spec fn joined(self, peer: Seq<char>, now: u64, init: Option<Seq<u8>>) -> EncoderView {
        EncoderView {
            listeners: self.listeners.push(
                ListenerView {
                    id: self.next_id,
                    queue: match init {
                        Some(b) => seq![(now, b)],
                        None => Seq::empty(),
                    },
                    consumed_at: now,
                    oldest_unread: now,
                    awaiting: init is Some,
                    peer,
                    joined: now,
                    bytes: 0,
                },
            ),
            next_id: (self.next_id + 1) as u64,
            ..self
        }
    }

    /// What comes of a request to join, having waited so long: at once where
    /// there is no init segment to wait for.
    pub open spec fn admitted(self, peer: Seq<char>, now: u64, waited: Nanos) -> (
        EncoderView,
        Admission,
    ) {
        if self.fmt == OutputFormat::Fmp4 {
            match self.init_for(waited) {
                InitView::Ready(b) => (
                    self.joined(peer, now, Some(b)),
                    Admission::Joined(self.next_id),
                ),
                InitView::Refused(e) => (self, Admission::Refused(e)),
                InitView::Wait(d) => (self, Admission::Wait(d)),
            }
        } else {
            (self.joined(peer, now, None), Admission::Joined(self.next_id))
        }
    }

    /// What a subscription with so much left reads from, and the encoder with
    /// that taken: what is left first, then the next chunk.
    pub open spec fn read_from(self, id: u64, left: Seq<u8>) -> (EncoderView, Option<Seq<u8>>) {
        if left.len() > 0 {
            (self, Some(left))
        } else {
            match self.taking(id) {
                (after, Taking::Chunk(b)) => (after, Some(b)),
                (after, _) => (after, None),
            }
        }
    }

    /// What a subscription can take, and the encoder with that taken.
    pub open spec fn taking(self, id: u64) -> (EncoderView, Taking) {
        let i = place(self.listeners, id);
        let j = place(self.leaving, id);
        if i < self.listeners.len() {
            let l = self.listeners[i];
            if l.queue.len() == 0 {
                (self, Taking::Wait)
            } else {
                (
                    EncoderView { listeners: self.listeners.update(i, l.taken()), ..self },
                    Taking::Chunk(l.queue[0].1),
                )
            }
        } else if j < self.leaving.len() && self.leaving[j].queue.len() > 0 {
            let l = self.leaving[j];
            (
                EncoderView { leaving: self.leaving.update(j, l.taken()), ..self },
                Taking::Chunk(l.queue[0].1),
            )
        } else {
            (self, Taking::End)
        }
    }

    /// How many bytes a listener has been sent, while it is there.
    pub open spec fn sent_to(self, id: u64) -> Option<u64> {
        let i = place(self.listeners, id);
        let j = place(self.leaving, id);
        if i < self.listeners.len() {
            Some(self.listeners[i].bytes)
        } else if j < self.leaving.len() {
            Some(self.leaving[j].bytes)
        } else {
            None
        }
    }

    /// The encoder with a listener gone.
    pub open spec fn removed(self, id: u64) -> EncoderView {
        EncoderView {
            listeners: without(self.listeners, id),
            leaving: without(self.leaving, id),
            ..self
        }
    }
}

pub struct Encoder {
    content_id: String,
    fmt: OutputFormat,
    started: Nanos,
    bytes_out: u64,
    video: TrackMode,
    audio: TrackMode,
    /// Cached fMP4 init segment, replayed to every late joiner. Joiners wait
    /// until the first `moof` has been written.
    init: Option<Bytes>,
    /// Set if the fMP4 byte stream did not parse; late joiners are refused
    /// rather than served something they cannot decode.
    unjoinable: bool,
    /// Set when ffmpeg's output ends, so joiners stop waiting on an init
    /// segment that will never arrive.
    finished: bool,
    listeners: Vec<Listener>,
    leaving: Vec<Listener>,
    next_id: u64,
    scanner: Option<mp4::Scanner>,
}

spec fn listener_views(s: Seq<Listener>) -> Seq<ListenerView> {
    s.map_values(|l: Listener| l@)
}

spec fn chunk_view(b: Option<Bytes>) -> Option<Seq<u8>> {
    match b {
        Some(b) => Some(chunk::contents(b)),
        None => None,
    }
}

spec fn scan_view(s: Option<mp4::Scanner>) -> Option<mp4::model::Scan> {
    match s {
        Some(s) => Some(s@),
        None => None,
    }
}

impl View for Encoder {
    type V = EncoderView;

    closed spec fn view(&self) -> EncoderView {
        EncoderView {
            content_id: self.content_id@,
            fmt: self.fmt,
            started: self.started,
            bytes_out: self.bytes_out,
            video: self.video,
            audio: self.audio,
            init: chunk_view(self.init),
            unjoinable: self.unjoinable,
            finished: self.finished,
            listeners: listener_views(self.listeners@),
            leaving: listener_views(self.leaving@),
            next_id: self.next_id,
            scan: scan_view(self.scanner),
        }
    }
}

/// What an fMP4 joiner is told.
#[derive(Debug)]
pub enum Init {
    Ready(Bytes),
    Refused(String),
    /// Ask again after at most so long, or when something changes.
    Wait(Nanos),
}

impl View for Init {
    type V = InitView;

    open spec fn view(&self) -> InitView {
        match self {
            Init::Ready(b) => InitView::Ready(chunk::contents(*b)),
            Init::Refused(e) => InitView::Refused(e@),
            Init::Wait(d) => InitView::Wait(*d),
        }
    }
}

/// What a chunk of output led to.
#[derive(Debug)]
pub struct Drained {
    /// Listeners that were cut off; their sockets are to be shut, which
    /// unblocks request threads stuck in a write.
    pub evicted: Vec<Evicted>,
    /// Whether joiners waiting for the init segment should look again.
    pub changed: bool,
}

/// What came of a request to join.
#[derive(Debug)]
pub enum Join {
    Joined(Subscription),
    Refused(String),
    /// Ask again after at most so long, or when something changes.
    Wait(Nanos),
}

/// What a read came to.
#[derive(Debug)]
pub enum Reading {
    Data(Bytes),
    /// Nothing yet.
    Wait,
    /// Encoder gone or listener evicted: a clean end of response.
    End,
}

/// A listener's handle on an encoder. Giving it up deregisters the listener
/// and, if it was the last one, starts the encoder's linger.
#[derive(Debug)]
pub struct Subscription {
    id: u64,
    leftover: Bytes,
}

impl Subscription {
    /// The listener it stands for.
    pub closed spec fn listener(self) -> u64 {
        self.id
    }

    /// Bytes taken from the encoder but not yet read.
    pub closed spec fn left(self) -> Seq<u8> {
        chunk::contents(self.leftover)
    }

    pub fn id(&self) -> (r: u64)
        ensures
            r == self.listener(),
    {
        self.id
    }

    /// Read at most `max` bytes. A chunk larger than that is handed out across
    /// successive reads.
    pub fn read(&mut self, enc: &mut Encoder, max: usize) -> (r: Reading)
        requires
            old(enc).wf(),
        ensures
            final(enc).wf(),
            final(self).listener() == old(self).listener(),
            ({
                let (after, took) = old(enc)@.taking(old(self).listener());
                let (enc_after, chunk) = if old(self).left().len() > 0 {
                    (old(enc)@, Some(old(self).left()))
                } else {
                    match took {
                        Taking::Chunk(b) => (after, Some(b)),
                        _ => (after, None),
                    }
                };
                &&& final(enc)@ == enc_after
                &&& match chunk {
                    Some(b) => {
                        let n: int = if b.len() <= max {
                            b.len() as int
                        } else {
                            max as int
                        };
                        &&& r matches Reading::Data(d) && chunk::contents(d) == b.take(n)
                        &&& final(self).left() == b.skip(n)
                    },
                    None => {
                        &&& r is Wait <==> took is Wait
                        &&& r is End <==> took is End
                        &&& final(self).left() == old(self).left()
                    },
                }
            }),
            ({
                let (after, source) = old(enc)@.read_from(old(self).listener(), old(self).left());
                &&& final(enc)@ == after
                &&& r is Data <==> source is Some
                &&& r matches Reading::Data(d) ==> (chunk::contents(d), final(self).left())
                    == handed_out(source->0, max as int)
            }),
    {
        if self.leftover.len() == 0 {
            match enc.take(self.id) {
                Reading::Data(b) => {
                    self.leftover = b;
                },
                Reading::Wait => {
                    return Reading::Wait;
                },
                Reading::End => {
                    return Reading::End;
                },
            }
        }
        let have: usize = self.leftover.len();
        let n: usize = if have <= max {
            have
        } else {
            max
        };
        let ghost b = chunk::contents(self.leftover);
        let data = chunk::slice(&self.leftover, 0, n);
        self.leftover = chunk::slice(&self.leftover, n, have);
        assert(chunk::contents(data) =~= b.take(n as int));
        assert(chunk::contents(self.leftover) =~= b.skip(n as int));
        Reading::Data(data)
    }
}

impl Encoder {
    /// What holds of every encoder: see [`EncoderView::wf`].
    pub closed spec fn wf(self) -> bool {
        &&& self@.wf()
        &&& forall|i: int| 0 <= i < self.listeners@.len() ==> (#[trigger] self.listeners@[i]).wf()
        &&& forall|i: int| 0 <= i < self.leaving@.len() ==> (#[trigger] self.leaving@[i]).wf()
        &&& self.scanner matches Some(s) ==> s.wf()
    }

    /// What holds of every encoder holds of what this one is.
    pub proof fn lemma_wf(self)
        requires
            self.wf(),
        ensures
            self@.wf(),
    {
    }

    /// An encoder that has put out nothing yet.
    pub fn new(
        content_id: String,
        fmt: OutputFormat,
        started: Nanos,
        video: TrackMode,
        audio: TrackMode,
    ) -> (r: Encoder)
        ensures
            r.wf(),
            r@ == fresh(content_id@, fmt, started, video, audio),
    {
        let scanner: Option<mp4::Scanner> = if fmt.needs_init_segment() {
            Some(mp4::Scanner::new())
        } else {
            None
        };
        let r = Encoder {
            content_id,
            fmt,
            started,
            bytes_out: 0,
            video,
            audio,
            init: None,
            unjoinable: false,
            finished: false,
            listeners: Vec::new(),
            leaving: Vec::new(),
            next_id: 0,
            scanner,
        };
        assert(r@ =~= fresh(content_id@, fmt, started, video, audio));
        r
    }

    /// Cache the init segment, which late joiners wait for.
    pub fn publish_init(&mut self, init: Bytes)
        requires
            old(self).wf(),
        ensures
            final(self).wf(),
            final(self)@ == (EncoderView { init: Some(chunk::contents(init)), ..old(self)@ }),
    {
        let ghost v = self@;
        self.init = Some(init);
        assert(self@ =~= EncoderView { init: Some(chunk::contents(init)), ..v });
    }

    /// Refuse late joiners from now on: the output is not fragmented MP4.
    pub fn refuse_joiners(&mut self)
        requires
            old(self).wf(),
        ensures
            final(self).wf(),
            final(self)@ == (EncoderView { unjoinable: true, ..old(self)@ }),
    {
        let ghost v = self@;
        self.unjoinable = true;
        assert(self@ =~= EncoderView { unjoinable: true, ..v });
    }

    /// ffmpeg's output has ended.
    pub fn finish(&mut self)
        requires
            old(self).wf(),
        ensures
            final(self).wf(),
            final(self)@ == (EncoderView { finished: true, ..old(self)@ }),
    {
        let ghost v = self@;
        self.finished = true;
        assert(self@ =~= EncoderView { finished: true, ..v });
    }

    /// Whether ffmpeg's output has ended.
    pub fn finished(&self) -> (r: bool)
        ensures
            r == self@.finished,
    {
        self.finished
    }

    /// Deliver one scanned piece to every listener.
    ///
    /// A listener that is not keeping up is disconnected rather than allowed
    /// to accumulate a backlog: a shared producer cannot block on its slowest
    /// consumer, and for a live stream a viewer several seconds behind is
    /// better served by a reconnect at the live edge (cheap, thanks to the
    /// linger) than by catching up through stale data. For fMP4 a dropped
    /// chunk would be unrecoverable anyway.
    pub fn fan_out(&mut self, piece: &mp4::Piece, now: u64) -> (r: Vec<Evicted>)
        requires
            old(self).wf(),
        ensures
            final(self).wf(),
            final(self)@ == old(self)@.fanned(piece@, now),
            evicted_views(r@) == fan(
                old(self)@.listeners,
                piece@.data(),
                joinable(piece@),
                now,
            ).report,
    {
        let data: &Bytes = piece.data();
        let attach: bool = piece.fragment_start() && piece.keyframe();
        assert(attach == joinable(piece@));
        let ghost v = self@;
        let ghost all = v.listeners;
        let ghost bytes = chunk::contents(*data);
        let ghost mut done: int = 0;
        let mut report: Vec<Evicted> = Vec::new();
        let mut i: usize = 0;
        proof {
            assert(all.take(0) =~= Seq::empty());
            assert(all.skip(0) =~= all);
            let f = fan(all.take(0), bytes, attach, now);
            assert(f.kept + all.skip(0) =~= all);
            assert(v.leaving + f.cut =~= v.leaving);
            assert(evicted_views(report@) =~= f.report);
        }
        while i < self.listeners.len()
            invariant
                self.wf(),
                0 <= done <= all.len(),
                v == old(self)@,
                all == v.listeners,
                bytes == chunk::contents(*data),
                ({
                    let f = fan(all.take(done), bytes, attach, now);
                    &&& f.kept.len() == i
                    &&& self@ == (EncoderView {
                        listeners: f.kept + all.skip(done),
                        leaving: v.leaving + f.cut,
                        ..v
                    })
                    &&& evicted_views(report@) == f.report
                }),
            decreases self.listeners@.len() - i,
        {
            let ghost here = self@;
            let ghost f = fan(all.take(done), bytes, attach, now);
            let ghost l = all[done];
            let ghost before = self.listeners@;
            proof {
                assert(done < all.len());
                assert(here.listeners[i as int] == l);
                assert(before[i as int]@ == l);
                assert(all.take(done + 1).drop_last() =~= all.take(done));
                assert(all.take(done + 1).last() == l);
            }
            let outcome: Delivery = self.listeners[i].deliver(data, attach, now);
            let ghost after = self.listeners@;
            proof {
                assert(after.len() == before.len());
                assert forall|j: int| 0 <= j < after.len() implies (#[trigger] after[j]).wf() by {
                    if j != i {
                        assert(after[j] == before[j]);
                    }
                }
            }
            match outcome {
                Delivery::Behind(behind) => {
                    let l1 = self.listeners.remove(i);
                    let (peer, _, _) = l1.info(now);
                    let e = Evicted { id: l1.id(), peer, behind, queued: l1.queued() };
                    let ghost report0 = report@;
                    report.push(e);
                    let ghost leaving0 = self.leaving@;
                    self.leaving.push(l1);
                    proof {
                        let g = fan(all.take(done + 1), bytes, attach, now);
                        assert(evicted_views(report@) =~= evicted_views(report0).push(e@));
                        assert(listener_views(self.leaving@) =~= listener_views(leaving0).push(
                            l.cut(now),
                        ));
                        assert(v.leaving + g.cut =~= (v.leaving + f.cut).push(l.cut(now)));
                        assert(listener_views(self.listeners@) =~= here.listeners.remove(i as int));
                        assert((f.kept + all.skip(done)).remove(f.kept.len() as int) =~= f.kept
                            + all.skip(done + 1));
                        assert(listener_views(self.listeners@) =~= g.kept + all.skip(done + 1));
                        assert(self@ =~= EncoderView {
                            listeners: g.kept + all.skip(done + 1),
                            leaving: v.leaving + g.cut,
                            ..v
                        });
                        assert forall|j: int| 0 <= j < self.listeners@.len() implies (
                        #[trigger] self.listeners@[j]).wf() by {
                            if j < i {
                                assert(self.listeners@[j] == after[j]);
                            } else {
                                assert(self.listeners@[j] == after[j + 1]);
                            }
                        }
                        assert forall|j: int| 0 <= j < self.leaving@.len() implies (
                        #[trigger] self.leaving@[j]).wf() by {
                            if j < leaving0.len() {
                                assert(self.leaving@[j] == leaving0[j]);
                            }
                        }
                        assert forall|j: int| 0 <= j < self@.leaving.len() implies (
                        #[trigger] self@.leaving[j]).id < self@.next_id by {
                            if j < leaving0.len() {
                                assert(self@.leaving[j] == here.leaving[j]);
                            } else {
                                assert(self@.leaving[j].id == l.id);
                            }
                        }
                        assert forall|j: int| 0 <= j < self@.listeners.len() implies (
                        #[trigger] self@.listeners[j]).id < self@.next_id by {
                            if j < i {
                                assert(self@.listeners[j] == here.listeners[j]);
                            } else {
                                assert(self@.listeners[j] == here.listeners[j + 1]);
                            }
                        }
                    }
                },
                _ => {
                    proof {
                        let g = fan(all.take(done + 1), bytes, attach, now);
                        let l1 = after[i as int]@;
                        assert(listener_views(after) =~= here.listeners.update(i as int, l1));
                        assert((f.kept + all.skip(done)).update(f.kept.len() as int, l1)
                            =~= f.kept.push(l1) + all.skip(done + 1));
                        assert(g.kept =~= f.kept.push(l1));
                        assert(listener_views(self.listeners@) =~= g.kept + all.skip(done + 1));
                        assert(self@ =~= EncoderView {
                            listeners: g.kept + all.skip(done + 1),
                            leaving: v.leaving + g.cut,
                            ..v
                        });
                        assert forall|j: int| 0 <= j < self@.listeners.len() implies (
                        #[trigger] self@.listeners[j]).id < self@.next_id by {
                            assert(here.listeners[j].id < here.next_id);
                        }
                        assert(self@.leaving == here.leaving);
                    }
                    i = i + 1;
                },
            }
            proof {
                done = done + 1;
            }
        }
        proof {
            let f = fan(all.take(done), bytes, attach, now);
            assert(self@.listeners.len() == f.kept.len() + (all.len() - done));
            assert(done == all.len());
            assert(all.take(done) =~= all);
            assert(f.kept + all.skip(done) =~= f.kept);
        }
        report
    }

    /// Deliver pieces one after the other.
    fn fan_out_all(&mut self, pieces: &Vec<mp4::Piece>, now: u64) -> (r: Vec<Evicted>)
        requires
            old(self).wf(),
        ensures
            final(self).wf(),
            final(self)@ == old(self)@.fanned_all(mp4::piece_views(pieces@), now).0,
            evicted_views(r@) == old(self)@.fanned_all(mp4::piece_views(pieces@), now).1,
    {
        let ghost v = self@;
        let ghost all = mp4::piece_views(pieces@);
        let mut report: Vec<Evicted> = Vec::new();
        let mut i: usize = 0;
        proof {
            assert(all.take(0) =~= Seq::empty());
            assert(evicted_views(report@) =~= Seq::empty());
        }
        while i < pieces.len()
            invariant
                i <= pieces@.len(),
                all == mp4::piece_views(pieces@),
                self.wf(),
                self@ == v.fanned_all(all.take(i as int), now).0,
                evicted_views(report@) == v.fanned_all(all.take(i as int), now).1,
            decreases pieces.len() - i,
        {
            proof {
                assert(all.take(i + 1).drop_last() =~= all.take(i as int));
                assert(all.take(i + 1).last() == pieces@[i as int]@);
            }
            let mut more = self.fan_out(&pieces[i], now);
            let ghost before = report@;
            let ghost added = more@;
            report.append(&mut more);
            assert(evicted_views(report@) =~= evicted_views(before) + evicted_views(added));
            i = i + 1;
        }
        assert(all.take(i as int) =~= all);
        report
    }

    /// Take in a chunk of ffmpeg's output: track fMP4 structure, and fan out
    /// to the listeners.
    pub fn drain(&mut self, data: Bytes, now: u64) -> (r: Drained)
        requires
            old(self).wf(),
        ensures
            final(self).wf(),
            final(self)@ == old(self)@.drained(chunk::contents(data), now).0,
            evicted_views(r.evicted@) == old(self)@.drained(chunk::contents(data), now).1,
            r.changed == (final(self)@.unjoinable != old(self)@.unjoinable || final(self)@.init
                != old(self)@.init),
            r.changed == old(self)@.stirs(final(self)@),
    {
        let ghost v = self@;
        let ghost bytes = chunk::contents(data);
        self.bytes_out = self.bytes_out.wrapping_add(data.len() as u64);
        let ghost counted = EncoderView {
            bytes_out: listener::counted(v.bytes_out, bytes.len() as int),
            ..v
        };
        match self.scanner.take() {
            None => {
                assert(self@ =~= counted);
                let piece = mp4::Piece::Media {
                    data,
                    fragment_start: true,
                    keyframe: true,
                };
                let mut pieces: Vec<mp4::Piece> = Vec::new();
                pieces.push(piece);
                assert(mp4::piece_views(pieces@) =~= v.pieces(bytes));
                proof {
                    lemma_fanned_all_frame(counted, v.pieces(bytes), now);
                }
                let evicted = self.fan_out_all(&pieces, now);
                Drained { evicted, changed: false }
            },
            Some(s) => {
                let mut s = s;
                let pieces = s.push(data);
                let failed: bool = s.failed();
                self.scanner = Some(s);
                let ghost scanned = EncoderView { scan: Some(v.scan->0.run(bytes).0), ..counted };
                proof {
                    mp4::model::lemma_run_wf(v.scan->0, bytes);
                    assert(self@ =~= scanned);
                    assert(mp4::piece_views(pieces@) =~= v.pieces(bytes));
                    lemma_fanned_all_frame(scanned, v.pieces(bytes), now);
                }
                let evicted = self.fan_out_all(&pieces, now);
                let ghost after = self@;
                assert(self.scanner is Some && self.scanner->0@ == v.scan->0.run(bytes).0);
                let mut changed: bool = false;
                if failed && !self.unjoinable {
                    self.unjoinable = true;
                    changed = true;
                    assert(self@ =~= EncoderView { unjoinable: true, ..after });
                } else if self.init.is_none() {
                    match &self.scanner {
                        Some(s) => {
                            let segment: Option<Bytes> = s.init_segment();
                            changed = segment.is_some();
                            self.init = segment;
                        },
                        None => {},
                    }
                    assert(self@ =~= EncoderView {
                        init: v.scan->0.run(bytes).0.init_segment(),
                        ..after
                    });
                }
                Drained { evicted, changed }
            },
        }
    }

    /// How many listeners there are.
    pub fn listener_count(&self) -> (r: usize)
        ensures
            r == self@.listeners.len(),
    {
        self.listeners.len()
    }

    /// Each listener, for how many seconds it has been there, and how many
    /// bytes it has been sent.
    pub fn listener_info(&self, now: u64) -> (r: Vec<(String, u64, u64)>)
        ensures
            info_views(r@) == infos(self@.listeners, now),
    {
        let ghost all = self@.listeners;
        let mut out: Vec<(String, u64, u64)> = Vec::new();
        let mut i: usize = 0;
        assert(info_views(out@) =~= infos(all.take(0), now));
        while i < self.listeners.len()
            invariant
                i <= self.listeners@.len(),
                all == self@.listeners,
                info_views(out@) == infos(all.take(i as int), now),
            decreases self.listeners.len() - i,
        {
            let ghost before = out@;
            let info: (String, u64, u64) = self.listeners[i].info(now);
            out.push(info);
            proof {
                assert(all[i as int] == self.listeners@[i as int]@);
                assert(info_views(out@) =~= info_views(before).push(info_view(info)));
                assert(infos(all.take(i + 1), now) =~= infos(all.take(i as int), now).push(
                    all[i as int].info(now),
                ));
            }
            i = i + 1;
        }
        assert(all.take(i as int) =~= all);
        out
    }

    /// True while ffmpeg is being kept alive with no listener on it.
    pub fn lingering(&self) -> (r: bool)
        ensures
            r == (self@.listeners.len() == 0),
            r == self@.idle(),
    {
        self.listeners.len() == 0
    }

    /// How many bytes a listener has been sent, while it is there.
    pub fn bytes_sent(&self, id: u64) -> (r: Option<u64>)
        ensures
            r == self@.sent_to(id),
    {
        let i: usize = find_by_id(&self.listeners, id);
        if i < self.listeners.len() {
            assert(self@.listeners[i as int] == self.listeners@[i as int]@);
            let (_, _, bytes) = self.listeners[i].info(0);
            return Some(bytes);
        }
        let j: usize = find_by_id(&self.leaving, id);
        if j < self.leaving.len() {
            assert(self@.leaving[j as int] == self.leaving@[j as int]@);
            let (_, _, bytes) = self.leaving[j].info(0);
            return Some(bytes);
        }
        None
    }

    pub fn content_id(&self) -> (r: &String)
        ensures
            r@ == self@.content_id,
    {
        &self.content_id
    }

    pub fn fmt(&self) -> (r: OutputFormat)
        ensures
            r == self@.fmt,
    {
        self.fmt
    }

    /// When it was started.
    pub fn started(&self) -> (r: Nanos)
        ensures
            r == self@.started,
    {
        self.started
    }

    /// How many bytes it has put out.
    pub fn bytes_out(&self) -> (r: u64)
        ensures
            r == self@.bytes_out,
    {
        self.bytes_out
    }

    /// What happens to the video and to the audio.
    pub fn modes(&self) -> (r: (TrackMode, TrackMode))
        ensures
            r == (self@.video, self@.audio),
    {
        (self.video, self.audio)
    }

    /// What an fMP4 joiner that has waited so long is told: the init segment,
    /// once the first `moof` has been written.
    ///
    /// The caller keeps the encoder alive throughout, which is what makes this
    /// correct: tearing down and retrying would restart ffmpeg each time and
    /// never converge, since the fragment clock restarts with it.
    pub fn await_init_segment(&self, waited: Nanos) -> (r: Init)
        ensures
            r@ == self@.init_for(waited),
    {
        // Checked before the cached segment: once the box structure has
        // broken, fragment boundaries are no longer reliable, so a joiner
        // would take the init segment and then never attach.
        if self.unjoinable {
            return Init::Refused("stream is not valid fragmented mp4".to_owned());
        }
        match &self.init {
            Some(b) => {
                return Init::Ready(b.clone());
            },
            None => {},
        }
        if self.finished {
            return Init::Refused("encoder stopped before producing a fragment".to_owned());
        }
        if waited >= INIT_TIMEOUT {
            return Init::Refused(
                "no fragment within 30s; the source keyframe interval may exceed it".to_owned(),
            );
        }
        Init::Wait(INIT_TIMEOUT - waited)
    }

    /// Whether there are ids left to give out. They run out only at the limits
    /// of the machine.
    pub fn has_room(&self) -> (r: bool)
        ensures
            r == (self@.next_id < u64::MAX),
    {
        self.next_id < u64::MAX
    }

    /// Join as a listener, having waited so long for an init segment.
    pub fn subscribe(&mut self, peer: String, now: u64, waited: Nanos) -> (r: Join)
        requires
            old(self).wf(),
            old(self)@.next_id < u64::MAX,
        ensures
            final(self).wf(),
            ({
                let v = old(self)@;
                if v.fmt == OutputFormat::Fmp4 {
                    match v.init_for(waited) {
                        InitView::Ready(b) => {
                            &&& r matches Join::Joined(s) && s.listener() == v.next_id
                                && s.left().len() == 0
                            &&& final(self)@ == v.joined(peer@, now, Some(b))
                        },
                        InitView::Refused(e) => {
                            &&& r matches Join::Refused(m) && m@ == e
                            &&& final(self)@ == v
                        },
                        InitView::Wait(d) => {
                            &&& r matches Join::Wait(w) && w == d
                            &&& final(self)@ == v
                        },
                    }
                } else {
                    &&& r matches Join::Joined(s) && s.listener() == v.next_id && s.left().len()
                        == 0
                    &&& final(self)@ == v.joined(peer@, now, None)
                }
            }),
            final(self)@ == old(self)@.admitted(peer@, now, waited).0,
            match (r, old(self)@.admitted(peer@, now, waited).1) {
                (Join::Joined(s), Admission::Joined(id)) => s.listener() == id,
                (Join::Refused(m), Admission::Refused(e)) => m@ == e,
                (Join::Wait(w), Admission::Wait(d)) => w == d,
                _ => false,
            },
    {
        let ghost v = self@;
        let init: Option<Bytes> = if self.fmt.needs_init_segment() {
            match self.await_init_segment(waited) {
                Init::Ready(b) => Some(b),
                Init::Refused(e) => {
                    return Join::Refused(e);
                },
                Init::Wait(d) => {
                    return Join::Wait(d);
                },
            }
        } else {
            None
        };
        let ghost first = chunk_view(init);
        let id: u64 = self.next_id;
        self.next_id = id + 1;
        let ghost before = self.listeners@;
        let l = Listener::new(id, peer, now, init);
        self.listeners.push(l);
        proof {
            let w = v.joined(peer@, now, first);
            assert(l@ =~= w.listeners.last());
            assert(listener_views(self.listeners@) =~= v.listeners.push(l@));
            assert(self@ =~= w);
            assert forall|j: int| 0 <= j < self@.listeners.len() implies (
            #[trigger] self@.listeners[j]).id < self@.next_id by {
                if j < before.len() {
                    assert(self@.listeners[j] == v.listeners[j]);
                }
            }
        }
        Join::Joined(Subscription { id, leftover: Bytes::new() })
    }

    /// Deregister a listener; true if it was the last one.
    pub fn remove_listener(&mut self, id: u64) -> (r: bool)
        requires
            old(self).wf(),
        ensures
            final(self).wf(),
            final(self)@ == old(self)@.removed(id),
            r == (final(self)@.listeners.len() == 0),
            r == final(self)@.idle(),
    {
        let ghost v = self@;
        remove_by_id(&mut self.listeners, id);
        remove_by_id(&mut self.leaving, id);
        proof {
            assert(self@ =~= v.removed(id));
            lemma_without(v.listeners, id);
            lemma_without(v.leaving, id);
            assert forall|j: int| 0 <= j < self@.listeners.len() implies (
            #[trigger] self@.listeners[j]).id < self@.next_id by {
                assert(v.listeners.contains(self@.listeners[j]));
            }
            assert forall|j: int| 0 <= j < self@.leaving.len() implies (
            #[trigger] self@.leaving[j]).id < self@.next_id by {
                assert(v.leaving.contains(self@.leaving[j]));
            }
        }
        self.listeners.len() == 0
    }

    /// Take the oldest chunk that waits for a listener.
    fn take(&mut self, id: u64) -> (r: Reading)
        requires
            old(self).wf(),
        ensures
            final(self).wf(),
            final(self)@ == old(self)@.taking(id).0,
            match old(self)@.taking(id).1 {
                Taking::Chunk(b) => r matches Reading::Data(d) && chunk::contents(d) == b,
                Taking::Wait => r is Wait,
                Taking::End => r is End,
            },
    {
        let ghost v = self@;
        let i: usize = find_by_id(&self.listeners, id);
        if i < self.listeners.len() {
            let ghost before = self.listeners@;
            assert(v.listeners[i as int] == before[i as int]@);
            let got: Option<Bytes> = self.listeners[i].take();
            proof {
                let l = v.listeners[i as int];
                assert(listener_views(self.listeners@) =~= v.listeners.update(
                    i as int,
                    self.listeners@[i as int]@,
                ));
                if l.queue.len() == 0 {
                    assert(listener_views(self.listeners@) =~= v.listeners);
                }
                assert(self@ =~= v.taking(id).0);
                assert forall|j: int| 0 <= j < self@.listeners.len() implies (
                #[trigger] self@.listeners[j]).id < self@.next_id by {
                    assert(v.listeners[j].id < v.next_id);
                }
            }
            return match got {
                Some(b) => Reading::Data(b),
                None => Reading::Wait,
            };
        }
        let j: usize = find_by_id(&self.leaving, id);
        if j < self.leaving.len() {
            let ghost before = self.leaving@;
            assert(v.leaving[j as int] == before[j as int]@);
            let got: Option<Bytes> = self.leaving[j].take();
            proof {
                let l = v.leaving[j as int];
                assert(listener_views(self.leaving@) =~= v.leaving.update(
                    j as int,
                    self.leaving@[j as int]@,
                ));
                if l.queue.len() == 0 {
                    assert(listener_views(self.leaving@) =~= v.leaving);
                }
                assert(self@ =~= v.taking(id).0);
                assert forall|k: int| 0 <= k < self@.leaving.len() implies (
                #[trigger] self@.leaving[k]).id < self@.next_id by {
                    assert(v.leaving[k].id < v.next_id);
                }
            }
            return match got {
                Some(b) => Reading::Data(b),
                None => Reading::End,
            };
        }
        Reading::End
    }
}

/// What is known of each listener.
pub open spec fn infos(ls: Seq<ListenerView>, now: u64) -> Seq<(Seq<char>, u64, u64)> {
    ls.map_values(|l: ListenerView| l.info(now))
}

pub open spec fn info_view(i: (String, u64, u64)) -> (Seq<char>, u64, u64) {
    (i.0@, i.1, i.2)
}

pub open spec fn info_views(s: Seq<(String, u64, u64)>) -> Seq<(Seq<char>, u64, u64)> {
    s.map_values(|i: (String, u64, u64)| info_view(i))
}

/// Delivering pieces touches the listeners and nothing else.
pub(crate) proof fn lemma_fanned_all_frame(v: EncoderView, ps: Seq<mp4::model::PieceView>, now: u64)
    ensures
        ({
            let w = v.fanned_all(ps, now).0;
            w == (EncoderView { listeners: w.listeners, leaving: w.leaving, ..v })
        }),
    decreases ps.len(),
{
    if ps.len() > 0 {
        lemma_fanned_all_frame(v, ps.drop_last(), now);
    }
}

/// Listeners do not affect one another: what a delivery does to a run of
/// listeners is what it does to its parts. One that is cut off for not keeping
/// up costs the others nothing.
pub proof fn law_listeners_are_independent(
    a: Seq<ListenerView>,
    b: Seq<ListenerView>,
    data: Seq<u8>,
    attach: bool,
    now: u64,
)
    ensures
        fan(a + b, data, attach, now).kept == fan(a, data, attach, now).kept + fan(
            b,
            data,
            attach,
            now,
        ).kept,
        fan(a + b, data, attach, now).cut == fan(a, data, attach, now).cut + fan(
            b,
            data,
            attach,
            now,
        ).cut,
    decreases b.len(),
{
    let fa = fan(a, data, attach, now);
    if b.len() == 0 {
        assert(a + b =~= a);
        assert(fa.kept + fan(b, data, attach, now).kept =~= fa.kept);
        assert(fa.cut + fan(b, data, attach, now).cut =~= fa.cut);
    } else {
        assert((a + b).drop_last() =~= a + b.drop_last());
        law_listeners_are_independent(a, b.drop_last(), data, attach, now);
        let fb = fan(b.drop_last(), data, attach, now);
        let l = b.last();
        assert((fa.kept + fb.kept).push(l) =~= fa.kept + fb.kept.push(l));
        assert((fa.kept + fb.kept).push(l.sent(data, now)) =~= fa.kept + fb.kept.push(
            l.sent(data, now),
        ));
        assert((fa.cut + fb.cut).push(l.cut(now)) =~= fa.cut + fb.cut.push(l.cut(now)));
    }
}

/// A delivery does to each listener what one step does to it alone, wherever
/// it stands among the others: it goes on as that step leaves it, or it is cut
/// off.
pub proof fn law_a_delivery_is_a_step_of_each_listener(
    a: Seq<ListenerView>,
    l: ListenerView,
    b: Seq<ListenerView>,
    data: Seq<u8>,
    attach: bool,
    now: u64,
)
    ensures
        ({
            let f = fan(a.push(l) + b, data, attach, now);
            let fa = fan(a, data, attach, now);
            let fb = fan(b, data, attach, now);
            match listener::run(l, seq![listener::Step::Piece(data, attach, now)]) {
                Some((m, got)) => {
                    &&& got.len() == 0
                    &&& f.kept == fa.kept.push(m) + fb.kept
                    &&& f.cut == fa.cut + fb.cut
                },
                None => {
                    &&& f.kept == fa.kept + fb.kept
                    &&& f.cut == fa.cut.push(l.cut(now)) + fb.cut
                },
            }
        }),
{
    let steps = seq![listener::Step::Piece(data, attach, now)];
    reveal_with_fuel(listener::run, 2);
    assert(steps.drop_last() =~= Seq::empty());
    assert(a.push(l).drop_last() =~= a);
    law_listeners_are_independent(a.push(l), b, data, attach, now);
}

/// What a late joiner of an fMP4 stream gets is a stream of its own: the init
/// segment, then every piece from the first keyframe fragment on, to the byte,
/// in order, for as long as it is not cut off.
pub proof fn law_a_joiner_gets_the_init_segment_and_then_whole_fragments(
    v: EncoderView,
    peer: Seq<char>,
    now: u64,
    init: Seq<u8>,
    steps: Seq<listener::Step>,
)
    ensures
        listener::run(v.joined(peer, now, Some(init)).listeners.last(), steps) matches Some(
            (m, got),
        ) ==> got + listener::flat(m.queue) == init + listener::from_join(steps, false).0,
{
    let l = v.joined(peer, now, Some(init)).listeners.last();
    listener::law_a_listener_misses_nothing(l, steps);
    reveal_with_fuel(listener::flat, 2);
    assert(l.queue.skip(1) =~= Seq::empty());
    assert(listener::flat(l.queue) =~= init);
}

/// What is cached for late joiners is the init segment of the output for as
/// long as the output makes sense, and joiners are refused once it does not.
pub proof fn law_joiners_get_the_init_segment_of_the_output(
    v: EncoderView,
    data: Seq<u8>,
    now: u64,
)
    requires
        v.wf(),
        v.scan matches Some(s) && (s is Live ==> v.init == s.init_segment()) && (s is Dead
            ==> v.unjoinable),
    ensures
        v.drained(data, now).0.scan matches Some(s) && (s is Live ==> v.drained(data, now).0.init
            == s.init_segment()) && (s is Dead ==> v.drained(data, now).0.unjoinable),
        v.drained(data, now).0.scan matches Some(s) && s is Dead ==> v.drained(
            data,
            now,
        ).0.init_for(0) is Refused,
{
    let s = v.scan->0;
    let scanned = EncoderView {
        bytes_out: listener::counted(v.bytes_out, data.len() as int),
        scan: Some(s.run(data).0),
        ..v
    };
    lemma_fanned_all_frame(scanned, v.pieces(data), now);
    mp4::model::lemma_run_wf(s, data);
    if s is Dead {
        mp4::laws::law_failure_is_final(data);
    } else if s.init_segment() is Some {
        mp4::laws::law_init_segment_is_kept(s, data);
    }
}

/// A listener that leaves takes no other with it.
pub proof fn law_leaving_is_ones_own(ls: Seq<ListenerView>, id: u64, other: u64)
    requires
        other != id,
    ensures
        without(ls, id).filter(|l: ListenerView| l.id == other) == ls.filter(
            |l: ListenerView| l.id == other,
        ),
        without(ls, id).filter(|l: ListenerView| l.id == id).len() == 0,
    decreases ls.len(),
{
    reveal(Seq::filter);
    if ls.len() > 0 {
        let front = ls.drop_last();
        law_leaving_is_ones_own(front, id, other);
        let kept = without(front, id);
        assert(kept.push(ls.last()).drop_last() =~= kept);
    }
}

/// What is left without one listener comes from what was there.
pub(crate) proof fn lemma_without(ls: Seq<ListenerView>, id: u64)
    ensures
        forall|j: int|
            0 <= j < without(ls, id).len() ==> ls.contains(#[trigger] without(ls, id)[j])
                && without(ls, id)[j].id != id,
    decreases ls.len(),
{
    if ls.len() > 0 {
        let front = ls.drop_last();
        lemma_without(front, id);
        let out = without(ls, id);
        assert forall|j: int| 0 <= j < out.len() implies ls.contains(#[trigger] out[j])
            && out[j].id != id by {
            if j < without(front, id).len() {
                assert(out[j] == without(front, id)[j]);
                let k = choose|k: int| 0 <= k < front.len() && front[k] == out[j];
                assert(ls[k] == out[j]);
            } else {
                assert(ls[ls.len() - 1] == out[j]);
            }
        }
    }
}

fn remove_by_id(list: &mut Vec<Listener>, id: u64)
    requires
        forall|i: int| 0 <= i < old(list)@.len() ==> (#[trigger] old(list)@[i]).wf(),
    ensures
        forall|i: int| 0 <= i < final(list)@.len() ==> (#[trigger] final(list)@[i]).wf(),
        listener_views(final(list)@) == without(listener_views(old(list)@), id),
{
    let ghost all = listener_views(list@);
    let ghost mut done: int = 0;
    let mut i: usize = 0;
    proof {
        assert(all.take(0) =~= Seq::empty());
        assert(without(all.take(0), id) + all.skip(0) =~= all);
    }
    while i < list.len()
        invariant
            0 <= done <= all.len(),
            without(all.take(done), id).len() == i,
            listener_views(list@) == without(all.take(done), id) + all.skip(done),
            forall|j: int| 0 <= j < list@.len() ==> (#[trigger] list@[j]).wf(),
        decreases list@.len() - i,
    {
        let ghost before = list@;
        proof {
            assert(done < all.len());
            assert(listener_views(before)[i as int] == all[done]);
            assert(all.take(done + 1).drop_last() =~= all.take(done));
            assert(all.take(done + 1).last() == all[done]);
        }
        if list[i].id() == id {
            let _ = list.remove(i);
            proof {
                let k = without(all.take(done), id);
                assert(listener_views(list@) =~= listener_views(before).remove(i as int));
                assert((k + all.skip(done)).remove(k.len() as int) =~= k + all.skip(done + 1));
            }
        } else {
            proof {
                let k = without(all.take(done), id);
                assert(k + all.skip(done) =~= k.push(all[done]) + all.skip(done + 1));
            }
            i = i + 1;
        }
        proof {
            done = done + 1;
        }
    }
    proof {
        assert(done == all.len());
        assert(all.take(done) =~= all);
        assert(without(all, id) + all.skip(done) =~= without(all, id));
    }
}

fn find_by_id(list: &Vec<Listener>, id: u64) -> (r: usize)
    ensures
        r == place(listener_views(list@), id),
        r <= list@.len(),
{
    let ghost all = listener_views(list@);
    let mut i: usize = 0;
    assert(all.skip(0) =~= all);
    while i < list.len() && list[i].id() != id
        invariant
            i <= list@.len(),
            all == listener_views(list@),
            place(all, id) == i + place(all.skip(i as int), id),
        decreases list.len() - i,
    {
        assert(all.skip(i as int)[0] == list@[i as int]@);
        assert(all.skip(i as int).skip(1) =~= all.skip(i + 1));
        i = i + 1;
    }
    assert(i < list@.len() ==> all.skip(i as int)[0] == list@[i as int]@);
    i
}

} // verus!
