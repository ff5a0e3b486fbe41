//! The replay window: the trailing seconds of raw TS from one engine pull,
//! used to prime each new encoder.
//!
//! An encoder started on live bytes alone attaches at an arbitrary mid-GOP
//! point, and ffmpeg then has to wait for the next keyframe to recover the
//! H.264 parameters it needs; on a real 720p broadcast stream that takes
//! anything from many seconds to forever. Priming it with recent data fixes
//! that. But every replayed byte is content the encoder's listeners watch late
//! for as long as it runs, because ffmpeg in copy mode cannot skip ahead. So
//! the window is never replayed whole: a video encoder starts from the newest
//! keyframe ([`Policy::FromKeyframe`]), which bounds its lag by one GOP, and
//! an audio encoder from the last second or so ([`Policy::Tail`]), which needs
//! no keyframe at all.
use std::collections::VecDeque;
use std::time::Instant;

use bytes::Bytes;

use crate::chunk;
use crate::ts;
use clock::pts_gap;
use model::{ChunkView, PrimedView, ReplayView};
use vstd::prelude::*;

pub use clock::Nanos;

pub mod bounds;
pub mod clock;
pub mod laws;
pub mod model;

verus! {

#[derive(Debug, Clone, Copy, PartialEq, Eq, Structural)]
pub enum Policy {
    /// From a video keyframe to the end of the window. Picks the *newest*
    /// keyframe that still has at least the given content duration after it,
    /// so ffmpeg's stream analysis completes from the buffer while the
    /// encoder's lag behind live stays near that duration. Falls back to the
    /// newest keyframe, then to the whole window, when the content clock or a
    /// keyframe is missing.
    FromKeyframe(Nanos),
    /// The last so many nanoseconds of the window.
    Tail(Nanos),
}

/// What a new encoder is fed before live data.
#[derive(Debug, PartialEq, Eq)]
pub struct Primed {
    pub data: Vec<u8>,
    /// True when `data` begins on a video keyframe, so ffmpeg's stream
    /// analysis can be short.
    pub from_keyframe: bool,
}

impl View for Primed {
    type V = PrimedView;

    open spec fn view(&self) -> PrimedView {
        PrimedView { data: self.data@, from_keyframe: self.from_keyframe }
    }
}

/// What a policy primes an encoder with.
pub open spec fn primed(v: ReplayView, policy: Policy) -> PrimedView {
    match policy {
        Policy::FromKeyframe(min) => v.from_keyframe(min),
        Policy::Tail(d) => v.tail(d),
    }
}

struct Chunk {
    at: Nanos,
    /// Absolute offset of `data[0]`, counted from the first byte ever pushed.
    start: u64,
    data: Bytes,
}

impl View for Chunk {
    type V = ChunkView;

    closed spec fn view(&self) -> ChunkView {
        ChunkView { at: self.at, start: self.start as int, data: chunk::contents(self.data) }
    }
}

spec fn chunk_views(chunks: Seq<Chunk>) -> Seq<ChunkView> {
    chunks.map_values(|c: Chunk| c@)
}

pub struct Replay {
    chunks: VecDeque<Chunk>,
    bytes: usize,
    /// Absolute offset of the next byte to be pushed.
    head: u64,
    /// Keyframe packets still inside the window, oldest first, each tagged
    /// with its presentation timestamp.
    keyframes: VecDeque<ts::Keyframe>,
    scanner: ts::Scanner,
    max_age: Nanos,
    max_bytes: usize,
    /// The moment that arrival times are counted from.
    epoch: Instant,
}

impl View for Replay {
    type V = ReplayView;

    closed spec fn view(&self) -> ReplayView {
        ReplayView {
            chunks: chunk_views(self.chunks@),
            head: self.head as int,
            keyframes: self.keyframes@,
            scanner: self.scanner@,
            max_age: self.max_age,
            max_bytes: self.max_bytes as int,
            epoch: self.epoch,
        }
    }
}

impl Replay {
    /// The window's invariant: see [`ReplayView::wf`].
    pub closed spec fn wf(self) -> bool {
        &&& self@.wf()
        &&& self.bytes == self@.window().len()
    }

    /// What holds of every window holds of what this one is.
    pub proof fn lemma_wf(self)
        requires
            self.wf(),
        ensures
            self@.wf(),
    {
    }

    /// A window holding at most `max_age` of arrival time and `max_bytes`,
    /// whichever bound is hit first. The byte cap is a memory guard; the age
    /// cap is what keeps a low-bitrate stream from accumulating a long window.
    pub fn new(max_age: Nanos, max_bytes: usize) -> (r: Self)
        ensures
            r.wf(),
            r@ == model::fresh(max_age, max_bytes as int, r@.epoch),
    {
        let r = Replay {
            chunks: VecDeque::new(),
            bytes: 0,
            head: 0,
            keyframes: VecDeque::new(),
            scanner: ts::Scanner::new(),
            max_age,
            max_bytes,
            epoch: clock::now(),
        };
        assert(r@ =~= model::fresh(max_age, max_bytes as int, r.epoch));
        r
    }

    /// Whether the counters have room for `n` more bytes. They run out only
    /// at the limits of the machine.
    pub fn has_room(&self, n: usize) -> (r: bool)
        requires
            self.wf(),
        ensures
            r == self@.has_room(n as int),
    {
        n as u64 <= u64::MAX - self.head && n <= usize::MAX - self.bytes && n <= usize::MAX
            - ts::PACKET
    }

    /// Take in data that arrives now. It counts as arriving no earlier than
    /// what is held already, so the chunks stay in the order of their arrival.
    pub fn push(&mut self, data: Bytes)
        requires
            old(self).wf(),
            old(self)@.has_room(chunk::contents(data).len() as int),
        ensures
            final(self).wf(),
            exists|now: Nanos|
                old(self)@.follows(now) && final(self)@ == #[trigger] old(self)@.pushed(
                    now,
                    chunk::contents(data),
                ),
            old(self)@.ordered() ==> final(self)@.ordered(),
    {
        let read: Nanos = clock::since(&self.epoch);
        let held: usize = self.chunks.len();
        let now: Nanos = if held > 0 && self.chunks[held - 1].at > read {
            self.chunks[held - 1].at
        } else {
            read
        };
        proof {
            assert(held > 0 ==> self@.chunks.last() == self.chunks@[held - 1]@);
            laws::law_the_caps_hold(self@, now, chunk::contents(data));
        }
        self.push_at(now, data);
    }

    /// Take in data that arrives at `now`.
    pub fn push_at(&mut self, now: Nanos, data: Bytes)
        requires
            old(self).wf(),
            old(self)@.has_room(chunk::contents(data).len() as int),
        ensures
            final(self).wf(),
            final(self)@ == old(self)@.pushed(now, chunk::contents(data)),
    {
        let ghost v = self@;
        let ghost bytes = chunk::contents(data);
        proof {
            model::lemma_total(v.chunks);
            laws::law_push_keeps_the_window_sound(v, now, bytes);
        }
        let found: Vec<ts::Keyframe> = self.scanner.feed(chunk::as_slice(&data));
        let ghost ks0 = self.keyframes@;
        let mut i: usize = 0;
        while i < found.len()
            invariant
                i <= found@.len(),
                self.keyframes@ == ks0 + found@.take(i as int),
                self.chunks@ == old(self).chunks@,
                self.bytes == old(self).bytes,
                self.head == old(self).head,
                self.max_age == old(self).max_age,
                self.max_bytes == old(self).max_bytes,
                self.epoch == old(self).epoch,
                self.scanner@ == v.scanner.fed(bytes),
            decreases found.len() - i,
        {
            self.keyframes.push_back(found[i]);
            assert(ks0 + found@.take(i + 1) =~= (ks0 + found@.take(i as int)).push(
                found@[i as int],
            ));
            i = i + 1;
        }
        assert(found@.take(i as int) =~= found@);
        let len: usize = data.len();
        let c = Chunk { at: now, start: self.head, data };
        let ghost before = self.chunks@;
        self.chunks.push_back(c);
        proof {
            assert(chunk_views(self.chunks@) =~= chunk_views(before).push(c@));
            model::lemma_push(v.chunks, c@);
        }
        self.bytes = self.bytes + len;
        self.head = self.head + len as u64;
        self.trim(now);
        assert(self@ =~= v.pushed(now, bytes));
        proof {
            model::lemma_total(self@.chunks);
        }
    }

    fn trim(&mut self, now: Nanos)
        requires
            old(self).chunks@.len() > 0,
            old(self).bytes == model::total(old(self)@.chunks),
        ensures
            final(self)@.chunks == model::trimmed(
                old(self)@.chunks,
                now,
                old(self).max_age,
                old(self).max_bytes as int,
            ),
            final(self).bytes == model::total(final(self)@.chunks),
            final(self)@.keyframes == model::from_floor(
                old(self)@.keyframes,
                final(self)@.chunks[0].start,
            ),
            final(self)@.head == old(self)@.head,
            final(self)@.scanner == old(self)@.scanner,
            final(self)@.max_age == old(self)@.max_age,
            final(self)@.max_bytes == old(self)@.max_bytes,
            final(self)@.epoch == old(self)@.epoch,
    {
        let ghost all = self@.chunks;
        let ghost ks = self@.keyframes;
        let ghost goal = model::trimmed(all, now, self.max_age, self.max_bytes as int);
        while self.chunks.len() > 1 && (self.bytes > self.max_bytes || clock::age_of(
            now,
            self.chunks[0].at,
        ) > self.max_age)
            invariant
                self.chunks@.len() > 0,
                self.bytes == model::total(self@.chunks),
                goal == model::trimmed(self@.chunks, now, self.max_age, self.max_bytes as int),
                self@.keyframes == ks,
                self.head == old(self).head,
                self@.scanner == old(self)@.scanner,
                self.max_age == old(self).max_age,
                self.max_bytes == old(self).max_bytes,
                self.epoch == old(self).epoch,
            decreases self.chunks@.len(),
        {
            let ghost before = self.chunks@;
            assert(chunk_views(before)[0] == before[0]@);
            proof {
                model::lemma_total(chunk_views(before).skip(1));
            }
            self.bytes = self.bytes - self.chunks[0].data.len();
            let _ = self.chunks.pop_front();
            assert(chunk_views(self.chunks@) =~= chunk_views(before).skip(1));
        }
        assert(self@.chunks[0] == self.chunks@[0]@);
        let floor: u64 = self.chunks[0].start;
        while self.keyframes.len() > 0 && self.keyframes[0].at < floor
            invariant
                self.chunks@.len() > 0,
                floor == self@.chunks[0].start,
                self.bytes == model::total(self@.chunks),
                self@.chunks == goal,
                model::from_floor(self.keyframes@, floor as int) == model::from_floor(
                    ks,
                    floor as int,
                ),
                self.head == old(self).head,
                self@.scanner == old(self)@.scanner,
                self.max_age == old(self).max_age,
                self.max_bytes == old(self).max_bytes,
                self.epoch == old(self).epoch,
            decreases self.keyframes@.len(),
        {
            let ghost before = self.keyframes@;
            let _ = self.keyframes.pop_front();
            assert(self.keyframes@ =~= before.skip(1));
        }
    }

    /// Absolute offset of the oldest byte still held.
    fn floor(&self) -> (r: u64)
        ensures
            r == self@.floor(),
    {
        if self.chunks.len() == 0 {
            self.head
        } else {
            assert(self@.chunks[0] == self.chunks@[0]@);
            self.chunks[0].start
        }
    }

    /// What the stream carries, once the scanner has settled it. See
    /// `ts::Scanner::program`.
    pub fn program(&self) -> (r: Option<ts::Program>)
        ensures
            r is Some <==> ts::program_of(self@.scanner.known) is Some,
            r matches Some(p) ==> ts::program_of(self@.scanner.known) == Some(p@),
    {
        self.scanner.program()
    }

    /// Whether the source has a video track (once the PMT is known).
    pub fn has_video(&self) -> (r: bool)
        ensures
            r == self@.scanner.known.video is Some,
    {
        self.scanner.has_video()
    }

    /// The content clock at the live edge, for measuring how fast the window
    /// is filling.
    pub fn latest_video_pts(&self) -> (r: Option<u64>)
        ensures
            r == self@.scanner.known.latest_pts,
    {
        self.scanner.latest_video_pts()
    }

    /// Content that has arrived on the video PID since `since`: larger than
    /// the wall-clock elapsed when the engine is bursting.
    pub fn content_growth(&self, since: Option<u64>) -> (r: Nanos)
        ensures
            r == self@.growth(since),
    {
        match (self.scanner.latest_video_pts(), since) {
            (Some(now), Some(then)) => match pts_gap(then, now) {
                Some(d) => d,
                None => 0,
            },
            _ => 0,
        }
    }

    /// The newest keyframe with at least `min` of content buffered after it,
    /// measured on the presentation clock.
    fn keyframe_with_trailing(&self, min: Nanos) -> (r: Option<ts::Keyframe>)
        ensures
            r == model::newest_with(self@.keyframes, self@.scanner.known.latest_pts, min),
    {
        let latest: Option<u64> = self.scanner.latest_video_pts();
        let ghost ks = self.keyframes@;
        let mut i: usize = self.keyframes.len();
        assert(ks.take(i as int) =~= ks);
        while i > 0
            invariant
                i <= self.keyframes@.len(),
                ks == self.keyframes@,
                latest == self@.scanner.known.latest_pts,
                model::newest_with(ks.take(i as int), latest, min) == model::newest_with(
                    ks,
                    latest,
                    min,
                ),
            decreases i,
        {
            let kf: ts::Keyframe = self.keyframes[i - 1];
            proof {
                assert(ks.take(i as int).last() == kf);
                assert(ks.take(i as int).drop_last() =~= ks.take(i - 1));
            }
            let gap: Option<Nanos> = match (kf.pts, latest) {
                (Some(pts), Some(edge)) => pts_gap(pts, edge),
                _ => None,
            };
            match gap {
                Some(t) => {
                    if t >= min {
                        return Some(kf);
                    }
                },
                None => {},
            }
            i = i - 1;
        }
        None
    }

    /// Whether a video encoder could start now from a keyframe with `min` of
    /// content already buffered after it, so its analysis needs no live data.
    pub fn video_prime_ready(&self, min: Nanos) -> (r: bool)
        ensures
            r == model::newest_with(
                self@.keyframes,
                self@.scanner.known.latest_pts,
                min,
            ) is Some,
    {
        self.keyframe_with_trailing(min).is_some()
    }

    /// How many bytes are held.
    pub fn len(&self) -> (r: usize)
        requires
            self.wf(),
        ensures
            r == self@.window().len(),
    {
        self.bytes
    }

    pub fn is_empty(&self) -> (r: bool)
        requires
            self.wf(),
        ensures
            r == (self@.window().len() == 0),
    {
        self.bytes == 0
    }

    /// Assemble what a new encoder should be primed with.
    pub fn snapshot(&self, policy: Policy) -> (r: Primed)
        requires
            self.wf(),
        ensures
            r@ == primed(self@, policy),
    {
        let ghost v = self@;
        proof {
            lemma_span(v);
        }
        match policy {
            Policy::FromKeyframe(min) => {
                proof {
                    laws::law_a_keyframe_prime_starts_on_a_packet(v, min);
                }
                let with: Option<ts::Keyframe> = self.keyframe_with_trailing(min);
                let start: Option<ts::Keyframe> = if with.is_some() {
                    with
                } else if self.keyframes.len() > 0 {
                    Some(self.keyframes[self.keyframes.len() - 1])
                } else {
                    None
                };
                assert(start == v.start_keyframe(min));
                match start {
                    Some(kf) => {
                        proof {
                            lemma_start_inside(v, min);
                        }
                        Primed { data: self.bytes_from(kf.at), from_keyframe: true }
                    },
                    None => {
                        let all = self.bytes_from(self.floor());
                        assert(all@ =~= v.window());
                        Primed { data: sync_trim(all), from_keyframe: false }
                    },
                }
            },
            Policy::Tail(d) => {
                if self.chunks.len() == 0 {
                    let all = self.bytes_from(self.floor());
                    assert(all@ =~= v.window());
                    return Primed { data: sync_trim(all), from_keyframe: false };
                }
                let last: usize = self.chunks.len() - 1;
                let newest: Nanos = self.chunks[last].at;
                let mut i: usize = 0;
                assert(v.chunks.skip(0) =~= v.chunks);
                while i < last && clock::age_of(newest, self.chunks[i].at) > d
                    invariant
                        last == self.chunks@.len() - 1,
                        i <= last,
                        v == self@,
                        newest == v.chunks[last as int].at,
                        model::recent(v.chunks.skip(i as int), newest, d) == model::recent(
                            v.chunks,
                            newest,
                            d,
                        ),
                    decreases last - i,
                {
                    assert(v.chunks.skip(i as int)[0] == v.chunks[i as int]);
                    assert(v.chunks.skip(i as int).skip(1) =~= v.chunks.skip(i + 1));
                    i = i + 1;
                }
                let start: u64 = self.chunks[i].start;
                proof {
                    assert(v.chunks.skip(i as int)[0] == v.chunks[i as int]);
                    model::lemma_skip(v.chunks, v.head, i as int);
                    model::lemma_total(v.chunks.skip(i as int));
                }
                let data = self.bytes_from(start);
                assert(data@ =~= model::joined(v.chunks.skip(i as int)));
                Primed { data: sync_trim(data), from_keyframe: false }
            },
        }
    }

    /// Everything from absolute offset `off` to the head, as one buffer.
    fn bytes_from(&self, off: u64) -> (r: Vec<u8>)
        requires
            self.wf(),
            self@.floor() <= off <= self@.head,
        ensures
            r@ == self@.bytes_from(off as int),
    {
        let ghost v = self@;
        let mut out: Vec<u8> = Vec::new();
        let mut i: usize = 0;
        proof {
            lemma_span(v);
            assert(v.chunks.skip(0) =~= v.chunks);
            assert(out@ + model::joined(v.chunks).skip(off - v.floor()) =~= v.bytes_from(
                off as int,
            ));
        }
        while i < self.chunks.len()
            invariant
                i <= self.chunks@.len(),
                v == self@,
                v.wf(),
                off <= v.head,
                ({
                    let left = model::joined(v.chunks.skip(i as int));
                    let at = v.head - model::total(v.chunks.skip(i as int));
                    v.bytes_from(off as int) == out@ + if at <= off {
                        left.skip(off - at)
                    } else {
                        left
                    }
                }),
            decreases self.chunks.len() - i,
        {
            let ghost left = v.chunks.skip(i as int);
            let ghost rest = v.chunks.skip(i + 1);
            proof {
                model::lemma_skip(v.chunks, v.head, i as int);
                model::lemma_total(left);
                model::lemma_total(rest);
                assert(left.skip(1) =~= rest);
                assert(left[0] == self.chunks@[i as int]@);
            }
            let c = &self.chunks[i];
            let len: usize = c.data.len();
            let ghost before = out@;
            if c.start >= off || off - c.start < len as u64 {
                let skip: usize = if c.start >= off {
                    0
                } else {
                    (off - c.start) as usize
                };
                let part = &chunk::as_slice(&c.data)[skip..len];
                out.extend_from_slice(part);
                assert(out@ =~= before + left[0].data.skip(skip as int));
                assert(v.bytes_from(off as int) =~= out@ + model::joined(rest));
                assert(c.start + len == v.head - model::total(rest));
                assert(model::joined(rest).skip(0) =~= model::joined(rest));
            } else {
                assert(model::joined(left).skip(off - c.start) =~= model::joined(rest).skip(
                    off - c.start - len,
                ));
            }
            i = i + 1;
        }
        proof {
            assert(v.chunks.skip(i as int) =~= Seq::empty());
            assert(model::joined(v.chunks.skip(i as int)) =~= Seq::empty());
            assert(v.bytes_from(off as int) =~= out@);
        }
        out
    }
}

/// The floor and the bytes held reach to the head.
pub(crate) proof fn lemma_span(v: ReplayView)
    requires
        v.wf(),
    ensures
        v.floor() + v.window().len() == v.head,
{
    model::lemma_total(v.chunks);
    reveal_with_fuel(model::contiguous, 2);
}

/// The keyframe that an encoder starts from lies inside the window.
proof fn lemma_start_inside(v: ReplayView, min: Nanos)
    requires
        v.wf(),
        v.start_keyframe(min) is Some,
    ensures
        v.floor() <= v.start_keyframe(min)->0.at <= v.head,
{
    laws::lemma_start_is_kept(v, min);
    let k = v.start_keyframe(min)->0;
    let n = choose|n: int| 0 <= n < v.keyframes.len() && v.keyframes[n] == k;
    assert(v.floor() <= v.keyframes[n].at < v.head);
}

/// Trim to the first TS packet boundary. Handing ffmpeg a partial packet only
/// costs it a resync, but starting clean keeps the "could not find codec
/// parameters" failure mode off the table for the sake of a few bytes.
///
/// A sync byte is only convincing if the next packet has one too.
pub fn sync_trim(bytes: Vec<u8>) -> (r: Vec<u8>)
    ensures
        r@ == model::synced_from(bytes@, 0),
{
    let mut buf = bytes;
    let ghost all = buf@;
    let mut i: usize = 0;
    while i < ts::PACKET && i < buf.len()
        invariant
            buf@ == all,
            all == bytes@,
            i <= ts::PACKET,
            model::synced_from(all, i as int) == model::synced_from(all, 0),
        decreases ts::PACKET - i,
    {
        let clean: bool = buf[i] == ts::SYNC && (buf.len() - i <= ts::PACKET || buf[i
            + ts::PACKET] == ts::SYNC);
        if clean {
            let r = buf.split_off(i);
            assert(r@ =~= all.skip(i as int));
            return r;
        }
        i = i + 1;
    }
    buf
}

} // verus!
