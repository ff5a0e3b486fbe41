//! What the window holds and what it hands out.
use std::time::Instant;

use super::clock;
use super::clock::Nanos;
use crate::ts;
use crate::ts::{Keyframe, ScannerView};
use vstd::prelude::*;

verus! {

/// A run of bytes that arrived together.
#[verifier::ext_equal]
pub struct ChunkView {
    /// When it arrived.
    pub at: Nanos,
    /// Absolute offset of its first byte, counted from the first ever pushed.
    pub start: int,
    pub data: Seq<u8>,
}

/// How many bytes a run of chunks holds.
pub open spec fn total(chunks: Seq<ChunkView>) -> int
    decreases chunks.len(),
{
    if chunks.len() == 0 {
        0
    } else {
        chunks[0].data.len() + total(chunks.skip(1))
    }
}

/// The bytes of a run of chunks, one after the other.
pub open spec fn joined(chunks: Seq<ChunkView>) -> Seq<u8>
    decreases chunks.len(),
{
    if chunks.len() == 0 {
        Seq::empty()
    } else {
        chunks[0].data + joined(chunks.skip(1))
    }
}

/// Whether each chunk begins where the one before it ends, and the last ends
/// at `head`.
pub open spec fn contiguous(chunks: Seq<ChunkView>, head: int) -> bool
    decreases chunks.len(),
{
    chunks.len() > 0 ==> {
        &&& chunks[0].start + total(chunks) == head
        &&& contiguous(chunks.skip(1), head)
    }
}

/// The chunks that stay at `now`: the oldest goes while it is over age or the
/// window over size, except the only one.
pub open spec fn trimmed(
    chunks: Seq<ChunkView>,
    now: Nanos,
    max_age: Nanos,
    max_bytes: int,
) -> Seq<ChunkView>
    decreases chunks.len(),
{
    if chunks.len() > 1 && (total(chunks) > max_bytes || clock::age(now, chunks[0].at) > max_age) {
        trimmed(chunks.skip(1), now, max_age, max_bytes)
    } else {
        chunks
    }
}

/// The keyframes from the first at or behind `floor` on.
pub open spec fn from_floor(keyframes: Seq<Keyframe>, floor: int) -> Seq<Keyframe>
    decreases keyframes.len(),
{
    if keyframes.len() > 0 && keyframes[0].at < floor {
        from_floor(keyframes.skip(1), floor)
    } else {
        keyframes
    }
}

/// How much content follows a keyframe, if the presentation clock tells.
pub open spec fn trailing(k: Keyframe, latest: Option<u64>) -> Option<Nanos> {
    match (k.pts, latest) {
        (Some(pts), Some(edge)) => clock::gap(pts, edge),
        _ => None,
    }
}

/// The newest keyframe with at least `min` of content after it.
pub open spec fn newest_with(
    keyframes: Seq<Keyframe>,
    latest: Option<u64>,
    min: Nanos,
) -> Option<Keyframe>
    decreases keyframes.len(),
{
    if keyframes.len() == 0 {
        None
    } else if trailing(keyframes.last(), latest) matches Some(t) && t >= min {
        Some(keyframes.last())
    } else {
        newest_with(keyframes.drop_last(), latest, min)
    }
}

/// Whether a convincing sync byte stands at `i`: the next packet has one too.
pub open spec fn synced(b: Seq<u8>, i: int) -> bool {
    b[i] == ts::SYNC && (i + ts::PACKET < b.len() ==> b[i + ts::PACKET] == ts::SYNC)
}

/// The bytes from the first packet boundary at or behind `i` on; all of them
/// if none is found within one packet.
pub open spec fn synced_from(b: Seq<u8>, i: int) -> Seq<u8>
    decreases ts::PACKET - i,
{
    if i >= ts::PACKET || i >= b.len() {
        b
    } else if synced(b, i) {
        b.skip(i)
    } else {
        synced_from(b, i + 1)
    }
}

/// The chunks from the first that arrived at most `d` before `newest` on.
pub open spec fn recent(chunks: Seq<ChunkView>, newest: Nanos, d: Nanos) -> Seq<ChunkView>
    decreases chunks.len(),
{
    if chunks.len() == 0 || clock::age(newest, chunks[0].at) <= d {
        chunks
    } else {
        recent(chunks.skip(1), newest, d)
    }
}

/// Whether chunks are listed in the order of their arrival, none later than
/// `now`.
pub open spec fn in_order(chunks: Seq<ChunkView>, now: Nanos) -> bool {
    &&& forall|i: int, j: int|
        #![trigger chunks[i], chunks[j]]
        0 <= i < j < chunks.len() ==> chunks[i].at <= chunks[j].at
    &&& forall|i: int| 0 <= i < chunks.len() ==> (#[trigger] chunks[i]).at <= now
}

/// What a new encoder is fed before live data.
#[verifier::ext_equal]
pub struct PrimedView {
    pub data: Seq<u8>,
    pub from_keyframe: bool,
}

/// The state of a window.
#[verifier::ext_equal]
pub struct ReplayView {
    pub chunks: Seq<ChunkView>,
    /// Absolute offset of the next byte to be pushed.
    pub head: int,
    /// Keyframe packets inside the window, oldest first.
    pub keyframes: Seq<Keyframe>,
    pub scanner: ScannerView,
    pub max_age: Nanos,
    pub max_bytes: int,
    /// The moment that arrival times are counted from.
    pub epoch: Instant,
}

/// A window that has seen nothing.
pub open spec fn fresh(max_age: Nanos, max_bytes: int, epoch: Instant) -> ReplayView {
    ReplayView {
        chunks: Seq::empty(),
        head: 0,
        keyframes: Seq::empty(),
        scanner: ts::fresh(),
        max_age,
        max_bytes,
        epoch,
    }
}

impl ReplayView {
    /// The bytes held.
    pub open spec fn window(self) -> Seq<u8> {
        joined(self.chunks)
    }

    /// Absolute offset of the oldest byte held.
    pub open spec fn floor(self) -> int {
        if self.chunks.len() == 0 {
            self.head
        } else {
            self.chunks[0].start
        }
    }

    /// Whether the counters have room for `n` more bytes.
    pub open spec fn has_room(self, n: int) -> bool {
        &&& self.head + n <= u64::MAX
        &&& self.window().len() + n <= usize::MAX
        &&& ts::PACKET + n <= usize::MAX
    }

    /// Whether the chunks are listed in the order of their arrival.
    pub open spec fn ordered(self) -> bool {
        self.chunks.len() > 0 ==> in_order(self.chunks, self.chunks.last().at)
    }

    /// Whether `now` is no earlier than the arrival of the newest chunk.
    pub open spec fn follows(self, now: Nanos) -> bool {
        self.chunks.len() > 0 ==> now >= self.chunks.last().at
    }

    /// The window behind a push of `data` at `now`.
    pub open spec fn pushed(self, now: Nanos, data: Seq<u8>) -> ReplayView {
        let chunks = trimmed(
            self.chunks.push(ChunkView { at: now, start: self.head, data }),
            now,
            self.max_age,
            self.max_bytes,
        );
        ReplayView {
            chunks,
            head: self.head + data.len(),
            keyframes: from_floor(
                self.keyframes + self.scanner.reported(data),
                chunks[0].start,
            ),
            scanner: self.scanner.fed(data),
            ..self
        }
    }

    /// Everything from absolute offset `off` on.
    pub open spec fn bytes_from(self, off: int) -> Seq<u8> {
        self.window().skip(off - self.floor())
    }

    /// The content that has arrived since the content clock stood at `since`.
    pub open spec fn growth(self, since: Option<u64>) -> Nanos {
        match (self.scanner.known.latest_pts, since) {
            (Some(edge), Some(then)) => match clock::gap(then, edge) {
                Some(d) => d,
                None => 0,
            },
            _ => 0,
        }
    }

    /// The keyframe that a video encoder starts from: the newest with at
    /// least `min` of content after it, else the newest.
    pub open spec fn start_keyframe(self, min: Nanos) -> Option<Keyframe> {
        let with = newest_with(self.keyframes, self.scanner.known.latest_pts, min);
        if with is Some {
            with
        } else if self.keyframes.len() > 0 {
            Some(self.keyframes.last())
        } else {
            None
        }
    }

    /// What a video encoder is primed with.
    pub open spec fn from_keyframe(self, min: Nanos) -> PrimedView {
        match self.start_keyframe(min) {
            Some(k) => PrimedView { data: self.bytes_from(k.at as int), from_keyframe: true },
            None => PrimedView { data: synced_from(self.window(), 0), from_keyframe: false },
        }
    }

    /// What an audio encoder is primed with: the chunks of the last `d`.
    pub open spec fn tail(self, d: Nanos) -> PrimedView {
        let data = if self.chunks.len() == 0 {
            self.window()
        } else {
            joined(recent(self.chunks, self.chunks.last().at, d))
        };
        PrimedView { data: synced_from(data, 0), from_keyframe: false }
    }

    /// What holds of every window: its chunks are a suffix of the stream, its
    /// keyframes are whole packets inside it, in order, on sync bytes, and the
    /// bytes the scanner carries are the stream's last.
    pub open spec fn wf(self) -> bool {
        &&& 0 <= self.head <= u64::MAX
        &&& self.window().len() <= usize::MAX
        &&& total(self.chunks) == self.window().len()
        &&& contiguous(self.chunks, self.head)
        &&& self.floor() >= 0
        &&& self.scanner.pos >= 0
        &&& self.scanner.total() == self.head
        &&& self.scanner.carry.len() < ts::PACKET
        &&& forall|off: int|
            self.floor() <= off < self.head && self.scanner.pos <= off
                ==> #[trigger] self.window()[off - self.floor()] == self.scanner.carry[off
                - self.scanner.pos]
        &&& forall|n: int|
            #![trigger self.keyframes[n]]
            0 <= n < self.keyframes.len() ==> {
                &&& self.floor() <= self.keyframes[n].at < self.head
                &&& self.keyframes[n].at + ts::PACKET <= self.scanner.pos
                &&& self.window()[self.keyframes[n].at - self.floor()] == ts::SYNC
            }
        &&& forall|n: int, m: int|
            #![trigger self.keyframes[n], self.keyframes[m]]
            0 <= n < m < self.keyframes.len() ==> self.keyframes[n].at < self.keyframes[m].at
    }
}

/// Adding a chunk adds its bytes.
pub proof fn lemma_push(chunks: Seq<ChunkView>, c: ChunkView)
    ensures
        joined(chunks.push(c)) == joined(chunks) + c.data,
        total(chunks.push(c)) == total(chunks) + c.data.len(),
    decreases chunks.len(),
{
    reveal_with_fuel(joined, 2);
    reveal_with_fuel(total, 2);
    if chunks.len() == 0 {
        assert(chunks.push(c).skip(1) =~= Seq::empty());
        assert(joined(chunks.push(c)) =~= joined(chunks) + c.data);
    } else {
        assert(chunks.push(c).skip(1) =~= chunks.skip(1).push(c));
        lemma_push(chunks.skip(1), c);
        assert(joined(chunks.push(c)) =~= joined(chunks) + c.data);
    }
}

/// Adding a chunk at the head keeps the chunks contiguous.
pub proof fn lemma_push_contiguous(chunks: Seq<ChunkView>, c: ChunkView, head: int)
    requires
        contiguous(chunks, head),
        c.start == head,
    ensures
        contiguous(chunks.push(c), head + c.data.len()),
    decreases chunks.len(),
{
    lemma_push(chunks, c);
    reveal_with_fuel(contiguous, 2);
    if chunks.len() == 0 {
        assert(chunks.push(c).skip(1) =~= Seq::empty());
    } else {
        assert(chunks.push(c).skip(1) =~= chunks.skip(1).push(c));
        lemma_push_contiguous(chunks.skip(1), c, head);
    }
}

/// The length of the bytes is the sum of the lengths.
pub proof fn lemma_total(chunks: Seq<ChunkView>)
    ensures
        total(chunks) == joined(chunks).len(),
    decreases chunks.len(),
{
    if chunks.len() > 0 {
        lemma_total(chunks.skip(1));
    }
}

/// Whether `part` is what is left of `chunks` once some are gone from the
/// front.
pub open spec fn suffix(part: Seq<ChunkView>, chunks: Seq<ChunkView>) -> bool {
    exists|n: int| 0 <= n <= chunks.len() && part == #[trigger] chunks.skip(n)
}

/// Dropping chunks from the front drops their bytes, and no others.
pub proof fn lemma_skip(chunks: Seq<ChunkView>, head: int, n: int)
    requires
        contiguous(chunks, head),
        0 <= n <= chunks.len(),
    ensures
        contiguous(chunks.skip(n), head),
        total(chunks.skip(n)) <= total(chunks),
        joined(chunks.skip(n)) == joined(chunks).skip(total(chunks) - total(chunks.skip(n))),
        n < chunks.len() ==> chunks[n].start == head - total(chunks.skip(n)),
    decreases n,
{
    lemma_total(chunks);
    if n == 0 {
        assert(chunks.skip(0) =~= chunks);
        assert(joined(chunks).skip(0) =~= joined(chunks));
    } else {
        lemma_skip(chunks.skip(1), head, n - 1);
        assert(chunks.skip(1).skip(n - 1) =~= chunks.skip(n));
        lemma_total(chunks.skip(1));
        lemma_total(chunks.skip(n));
        assert(joined(chunks.skip(n)) =~= joined(chunks).skip(
            total(chunks) - total(chunks.skip(n)),
        ));
    }
}

/// Trimming drops chunks from the front and leaves at least one.
pub proof fn lemma_trimmed(chunks: Seq<ChunkView>, now: Nanos, max_age: Nanos, max_bytes: int)
    requires
        chunks.len() > 0,
    ensures
        suffix(trimmed(chunks, now, max_age, max_bytes), chunks),
        trimmed(chunks, now, max_age, max_bytes).len() > 0,
        trimmed(chunks, now, max_age, max_bytes).last() == chunks.last(),
        ({
            let t = trimmed(chunks, now, max_age, max_bytes);
            t.len() == 1 || total(t) <= max_bytes && clock::age(now, t[0].at) <= max_age
        }),
    decreases chunks.len(),
{
    let t = trimmed(chunks, now, max_age, max_bytes);
    if chunks.len() > 1 && (total(chunks) > max_bytes || clock::age(now, chunks[0].at) > max_age) {
        lemma_trimmed(chunks.skip(1), now, max_age, max_bytes);
        let n = choose|n: int|
            0 <= n <= chunks.skip(1).len() && t == #[trigger] chunks.skip(1).skip(n);
        assert(chunks.skip(1).skip(n) =~= chunks.skip(n + 1));
    } else {
        assert(chunks.skip(0) =~= chunks);
    }
}

/// Dropping keyframes below the floor keeps the rest, in order.
pub proof fn lemma_from_floor(ks: Seq<Keyframe>, floor: int)
    requires
        forall|n: int, m: int|
            #![trigger ks[n], ks[m]]
            0 <= n < m < ks.len() ==> ks[n].at < ks[m].at,
    ensures
        exists|n: int| 0 <= n <= ks.len() && from_floor(ks, floor) == #[trigger] ks.skip(n),
        forall|n: int|
            #![trigger from_floor(ks, floor)[n]]
            0 <= n < from_floor(ks, floor).len() ==> from_floor(ks, floor)[n].at >= floor
                && ks.contains(from_floor(ks, floor)[n]),
        forall|n: int|
            #![trigger ks[n]]
            0 <= n < ks.len() && ks[n].at >= floor ==> from_floor(ks, floor).contains(ks[n]),
        forall|n: int, m: int|
            #![trigger from_floor(ks, floor)[n], from_floor(ks, floor)[m]]
            0 <= n < m < from_floor(ks, floor).len() ==> from_floor(ks, floor)[n].at < from_floor(
                ks,
                floor,
            )[m].at,
    decreases ks.len(),
{
    let out = from_floor(ks, floor);
    if ks.len() > 0 && ks[0].at < floor {
        let rest = ks.skip(1);
        assert forall|n: int, m: int|
            #![trigger rest[n], rest[m]]
            0 <= n < m < rest.len() implies rest[n].at < rest[m].at by {
            assert(rest[n] == ks[n + 1]);
            assert(rest[m] == ks[m + 1]);
        }
        lemma_from_floor(rest, floor);
        let n = choose|n: int| 0 <= n <= rest.len() && out == #[trigger] rest.skip(n);
        assert(rest.skip(n) =~= ks.skip(n + 1));
        assert forall|n: int| 0 <= n < out.len() implies ks.contains(#[trigger] out[n]) by {
            assert(rest.contains(out[n]));
            let i = choose|i: int| 0 <= i < rest.len() && rest[i] == out[n];
            assert(ks[i + 1] == out[n]);
        }
        assert forall|n: int|
            #![trigger ks[n]]
            0 <= n < ks.len() && ks[n].at >= floor implies out.contains(ks[n]) by {
            assert(n > 0);
            assert(rest[n - 1] == ks[n]);
        }
    } else {
        assert(ks.skip(0) =~= ks);
        assert forall|n: int| 0 <= n < out.len() implies (#[trigger] out[n]).at >= floor by {
            if n > 0 {
                assert(ks[0].at < ks[n].at);
            }
        }
        assert forall|n: int| #![trigger ks[n]] 0 <= n < ks.len() implies out.contains(ks[n]) by {}
    }
}

} // verus!
