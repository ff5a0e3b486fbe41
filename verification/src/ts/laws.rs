//! What can be relied on across feeds.
use super::pes;
use super::psi;
use super::{Known, ScannerView, PACKET, SYNC};
use vstd::prelude::*;

verus! {

/// The walk ends inside the buffer, less than a packet before its end.
proof fn lemma_walk_end(k: Known, buf: Seq<u8>, i: int)
    requires
        0 <= i <= buf.len(),
    ensures
        i <= super::walk(k, buf, i).end <= buf.len() < super::walk(k, buf, i).end + PACKET,
    decreases buf.len() - i,
{
    if i + PACKET <= buf.len() {
        if !super::packet_at(buf, i) {
            lemma_walk_end(k, buf, i + 1);
        } else {
            let after = super::packet_after(k, buf.subrange(i, i + PACKET)).0;
            lemma_walk_end(after, buf, i + PACKET);
        }
    }
}

/// Every byte fed is accounted for: what has been passed over and what is
/// carried add up to it, and less than a packet is ever carried.
pub proof fn law_every_byte_is_counted(v: ScannerView, data: Seq<u8>)
    ensures
        v.fed(data).total() == v.total() + data.len(),
        v.fed(data).carry.len() < PACKET,
{
    lemma_walk_end(v.known, v.buffer(data), 0);
}

proof fn lemma_walk_found(k: Known, buf: Seq<u8>, i: int)
    requires
        0 <= i <= buf.len(),
    ensures
        forall|n: int|
            #![trigger super::walk(k, buf, i).found[n]]
            0 <= n < super::walk(k, buf, i).found.len() ==> {
                let at = super::walk(k, buf, i).found[n].0;
                &&& i <= at
                &&& at + PACKET <= super::walk(k, buf, i).end
                &&& super::packet_at(buf, at)
            },
        forall|n: int, m: int|
            #![trigger super::walk(k, buf, i).found[n], super::walk(k, buf, i).found[m]]
            0 <= n < m < super::walk(k, buf, i).found.len() ==> super::walk(k, buf, i).found[n].0
                + PACKET <= super::walk(k, buf, i).found[m].0,
    decreases buf.len() - i,
{
    if i + PACKET <= buf.len() {
        if !super::packet_at(buf, i) {
            lemma_walk_found(k, buf, i + 1);
        } else {
            let (after, keyframe) = super::packet_after(k, buf.subrange(i, i + PACKET));
            let rest = super::walk(after, buf, i + PACKET).found;
            lemma_walk_found(after, buf, i + PACKET);
            lemma_walk_end(after, buf, i + PACKET);
            let found = super::walk(k, buf, i).found;
            if let Some(pts) = keyframe {
                assert(found =~= seq![(i, pts)] + rest);
                assert forall|n: int| 0 <= n < found.len() implies {
                    &&& i <= (#[trigger] found[n]).0
                    &&& found[n].0 + PACKET <= super::walk(k, buf, i).end
                    &&& super::packet_at(buf, found[n].0)
                } by {
                    if n > 0 {
                        assert(found[n] == rest[n - 1]);
                    }
                }
                assert forall|n: int, m: int| 0 <= n < m < found.len() implies (
                #[trigger] found[n]).0 + PACKET <= (#[trigger] found[m]).0 by {
                    assert(found[m] == rest[m - 1]);
                    if n > 0 {
                        assert(found[n] == rest[n - 1]);
                    }
                }
            }
        }
    }
}

/// Reported offsets are absolute and point at sync bytes: a keyframe's offset
/// less that of the first buffered byte is where its packet stands in the
/// bytes carried over and fed, and the scanner has passed over all of that
/// packet. They come in order, at least a packet apart.
pub proof fn law_offsets_point_at_packets(v: ScannerView, data: Seq<u8>)
    requires
        v.pos >= 0,
        v.total() + data.len() <= u64::MAX,
    ensures
        forall|n: int|
            #![trigger v.reported(data)[n]]
            0 <= n < v.reported(data).len() ==> {
                let at = v.reported(data)[n].at - v.pos;
                &&& 0 <= at
                &&& at + PACKET <= v.buffer(data).len()
                &&& v.buffer(data)[at] == SYNC
                &&& v.reported(data)[n].at + PACKET <= v.fed(data).pos
            },
        forall|n: int, m: int|
            #![trigger v.reported(data)[n], v.reported(data)[m]]
            0 <= n < m < v.reported(data).len() ==> v.reported(data)[n].at + PACKET
                <= v.reported(data)[m].at,
{
    let found = super::walk(v.known, v.buffer(data), 0).found;
    lemma_walk_found(v.known, v.buffer(data), 0);
    assert forall|n: int| 0 <= n < found.len() implies (#[trigger] v.reported(data)[n]).at
        == v.pos + found[n].0 && super::packet_at(v.buffer(data), found[n].0) && v.pos + found[n].0
        + PACKET <= v.fed(data).pos by {}
    assert forall|n: int, m: int| 0 <= n < m < found.len() implies (
    #[trigger] v.reported(data)[n]).at + PACKET <= (#[trigger] v.reported(data)[m]).at by {
        assert(found[n].0 + PACKET <= found[m].0);
    }
}

/// A packet leaves a settled program as it is, reports no keyframe without
/// video, and keeps to the clock.
proof fn lemma_packet(k: Known, p: Seq<u8>)
    ensures
        super::program_of(k) is Some ==> super::program_of(super::packet_after(k, p).0)
            == super::program_of(k),
        k.pmt_seen ==> super::packet_after(k, p).0.pmt_seen && super::packet_after(k, p).0.video
            == k.video,
        k.video is None ==> super::packet_after(k, p).1 is None,
        clock(k.latest_pts) ==> clock(super::packet_after(k, p).0.latest_pts),
        super::packet_after(k, p).1 matches Some(pts) ==> clock(pts),
{
    reveal(super::packet_after);
    if let Some(payload) = super::payload_of(p) {
        pes::law_pts_is_33_bits(payload);
    }
}

proof fn lemma_walk_keeps_program(k: Known, buf: Seq<u8>, i: int)
    ensures
        super::program_of(k) is Some ==> super::program_of(super::walk(k, buf, i).known)
            == super::program_of(k),
        k.pmt_seen ==> super::walk(k, buf, i).known.pmt_seen && super::walk(k, buf, i).known.video
            == k.video,
    decreases buf.len() - i,
{
    if i + PACKET <= buf.len() {
        if !super::packet_at(buf, i) {
            lemma_walk_keeps_program(k, buf, i + 1);
        } else {
            let p = buf.subrange(i, i + PACKET);
            lemma_packet(k, p);
            lemma_walk_keeps_program(super::packet_after(k, p).0, buf, i + PACKET);
        }
    }
}

/// What the program carries, once settled, never changes; nor does the video
/// stream, once the PMT has been seen.
pub proof fn law_a_settled_program_stays(v: ScannerView, data: Seq<u8>)
    ensures
        super::program_of(v.known) is Some ==> super::program_of(v.fed(data).known)
            == super::program_of(v.known),
        v.known.pmt_seen ==> v.fed(data).known.pmt_seen && v.fed(data).known.video
            == v.known.video,
{
    lemma_walk_keeps_program(v.known, v.buffer(data), 0);
}

proof fn lemma_walk_without_video(k: Known, buf: Seq<u8>, i: int)
    requires
        k.pmt_seen,
        k.video is None,
    ensures
        super::walk(k, buf, i).found.len() == 0,
    decreases buf.len() - i,
{
    if i + PACKET <= buf.len() {
        if !super::packet_at(buf, i) {
            lemma_walk_without_video(k, buf, i + 1);
        } else {
            let p = buf.subrange(i, i + PACKET);
            lemma_packet(k, p);
            lemma_walk_without_video(super::packet_after(k, p).0, buf, i + PACKET);
        }
    }
}

/// A program without video never reports a keyframe.
pub proof fn law_no_video_no_keyframes(v: ScannerView, data: Seq<u8>)
    requires
        v.known.pmt_seen,
        v.known.video is None,
    ensures
        v.reported(data).len() == 0,
{
    lemma_walk_without_video(v.known, v.buffer(data), 0);
}

/// A packet that is no PAT or PMT and starts a PES on the video PID begins a
/// keyframe exactly if its NAL units say so; the random_access_indicator
/// decides only where they settle nothing. (While an audio stream that waits
/// for its layer shares the PID, the packet is read for that instead.)
pub proof fn law_the_flag_is_only_a_fallback(k: Known, p: Seq<u8>)
    requires
        super::payload_of(p) is Some,
        super::starts_unit(p),
        k.video is Some,
        k.video->0.pid == psi::pid_at(p, 1),
        k.video->0.pid != super::PAT_PID,
        Some(k.video->0.pid) != k.pmt_pid,
        k.audio != Some((k.video->0.pid, psi::AudioView::MpegLayer)),
    ensures
        ({
            let settled = pes::keyframe_of(k.video->0.codec, super::payload_of(p)->0);
            &&& settled == Some(true) ==> super::packet_after(k, p).1 == Some(
                pes::pts_of(super::payload_of(p)->0),
            )
            &&& settled == Some(false) ==> super::packet_after(k, p).1 is None
            &&& settled is None ==> (super::packet_after(k, p).1 is Some
                <==> super::random_access(p))
        }),
{
    reveal(super::packet_after);
}

/// A timestamp is a 33-bit number.
pub open spec fn clock(pts: Option<u64>) -> bool {
    pts matches Some(t) ==> t < 0x2_0000_0000
}

proof fn lemma_walk_clock(k: Known, buf: Seq<u8>, i: int)
    requires
        clock(k.latest_pts),
    ensures
        clock(super::walk(k, buf, i).known.latest_pts),
        forall|n: int|
            0 <= n < super::walk(k, buf, i).found.len() ==> clock(
                (#[trigger] super::walk(k, buf, i).found[n]).1,
            ),
    decreases buf.len() - i,
{
    if i + PACKET <= buf.len() {
        if !super::packet_at(buf, i) {
            lemma_walk_clock(k, buf, i + 1);
        } else {
            let p = buf.subrange(i, i + PACKET);
            lemma_packet(k, p);
            let (after, keyframe) = super::packet_after(k, p);
            lemma_walk_clock(after, buf, i + PACKET);
            let rest = super::walk(after, buf, i + PACKET).found;
            let found = super::walk(k, buf, i).found;
            if let Some(pts) = keyframe {
                assert(found =~= seq![(i, pts)] + rest);
                assert forall|n: int| 0 <= n < found.len() implies clock((#[trigger] found[n]).1) by {
                    if n > 0 {
                        assert(found[n] == rest[n - 1]);
                    }
                }
            }
        }
    }
}

/// Every timestamp that is reported or kept lies on the 33-bit clock.
pub proof fn law_timestamps_lie_on_the_clock(v: ScannerView, data: Seq<u8>)
    requires
        clock(v.known.latest_pts),
    ensures
        clock(v.fed(data).known.latest_pts),
        forall|n: int|
            0 <= n < v.reported(data).len() ==> clock((#[trigger] v.reported(data)[n]).pts),
{
    let found = super::walk(v.known, v.buffer(data), 0).found;
    lemma_walk_clock(v.known, v.buffer(data), 0);
    assert forall|n: int| 0 <= n < found.len() implies clock(
        (#[trigger] v.reported(data)[n]).pts,
    ) by {
        assert(v.reported(data)[n].pts == found[n].1);
    }
}

/// Reading on past the end of a buffer: what was read stays read.
proof fn lemma_walk_more(k: Known, a: Seq<u8>, b: Seq<u8>, i: int)
    requires
        0 <= i <= a.len(),
        super::walk(k, a, i).end < a.len() || i == a.len() || b.len() == 0 || b[0] == SYNC,
    ensures
        ({
            let first = super::walk(k, a, i);
            let rest = super::walk(first.known, a + b, first.end);
            let whole = super::walk(k, a + b, i);
            &&& whole.known == rest.known
            &&& whole.end == rest.end
            &&& whole.found == first.found + rest.found
        }),
    decreases a.len() - i,
{
    let first = super::walk(k, a, i);
    let rest = super::walk(first.known, a + b, first.end);
    let whole = super::walk(k, a + b, i);
    if i + PACKET > a.len() {
        assert(first.found + rest.found =~= rest.found);
    } else {
        lemma_walk_end(k, a, i);
        if !super::packet_at(a, i) {
            lemma_walk_end(k, a, i + 1);
            lemma_walk_more(k, a, b, i + 1);
            assert(!super::packet_at(a + b, i));
        } else {
            let p = a.subrange(i, i + PACKET);
            assert((a + b).subrange(i, i + PACKET) =~= p);
            let (after, keyframe) = super::packet_after(k, p);
            lemma_walk_end(after, a, i + PACKET);
            lemma_walk_more(after, a, b, i + PACKET);
            if i + PACKET == a.len() {
                assert(super::walk(after, a, i + PACKET).end == a.len());
                assert(b.len() > 0 ==> (a + b)[i + PACKET] == b[0]);
            }
            assert(super::packet_at(a + b, i));
            let tail = super::walk(after, a, i + PACKET).found;
            if let Some(pts) = keyframe {
                assert((seq![(i, pts)] + tail) + rest.found =~= seq![(i, pts)] + (tail
                    + rest.found));
            }
        }
    }
}

/// Finds counted from `by` bytes further ahead.
spec fn shifted(found: Seq<(int, Option<u64>)>, by: int) -> Seq<(int, Option<u64>)> {
    found.map_values(|f: (int, Option<u64>)| (f.0 + by, f.1))
}

/// Reading a buffer from `i` on is reading what is left of it from there.
proof fn lemma_walk_skip(k: Known, buf: Seq<u8>, j: int, i: int)
    requires
        0 <= j <= i <= buf.len(),
    ensures
        ({
            let here = super::walk(k, buf, i);
            let there = super::walk(k, buf.skip(j), i - j);
            &&& here.known == there.known
            &&& here.end == there.end + j
            &&& here.found == shifted(there.found, j)
        }),
    decreases buf.len() - i,
{
    let cut = buf.skip(j);
    if i + PACKET <= buf.len() {
        assert(super::packet_at(buf, i) == super::packet_at(cut, i - j));
        if !super::packet_at(buf, i) {
            lemma_walk_skip(k, buf, j, i + 1);
        } else {
            let p = buf.subrange(i, i + PACKET);
            assert(cut.subrange(i - j, i - j + PACKET) =~= p);
            let (after, keyframe) = super::packet_after(k, p);
            lemma_walk_skip(after, buf, j, i + PACKET);
            let near = super::walk(after, cut, i - j + PACKET).found;
            if let Some(pts) = keyframe {
                assert(shifted(seq![(i - j, pts)] + near, j) =~= seq![(i, pts)] + shifted(
                    near,
                    j,
                ));
            }
        }
    }
}

/// Where a stream is cut into feeds is immaterial: feeding `a` and then `b`
/// reports and leaves what feeding both at once does. A packet that ends
/// exactly where `a` does is taken on trust in the first case and held to the
/// next byte in the second, so `b` must then begin with a sync byte, as it
/// does in an intact stream.
pub proof fn law_chunking_is_immaterial(v: ScannerView, a: Seq<u8>, b: Seq<u8>)
    requires
        v.pos >= 0,
        v.fed(a).carry.len() > 0 || v.buffer(a).len() == 0 || b.len() == 0 || b[0] == SYNC,
    ensures
        v.fed(a).fed(b) == v.fed(a + b),
        v.reported(a) + v.fed(a).reported(b) == v.reported(a + b),
{
    let x = v.buffer(a);
    let all = v.buffer(a + b);
    let first = super::walk(v.known, x, 0);
    assert(all =~= x + b);
    lemma_walk_end(v.known, x, 0);
    lemma_walk_more(v.known, x, b, 0);
    let j = first.end;
    assert(v.fed(a).buffer(b) =~= all.skip(j));
    lemma_walk_skip(first.known, all, j, j);
    let second = super::walk(first.known, all.skip(j), 0);
    let rest = super::walk(first.known, all, j);
    lemma_walk_end(first.known, all.skip(j), 0);
    assert(all.skip(j).skip(second.end) =~= all.skip(j + second.end));
    assert(v.fed(a).fed(b) =~= v.fed(a + b));
    let base = v.pos;
    assert(super::keyframes(first.found + rest.found, base) =~= super::keyframes(
        first.found,
        base,
    ) + super::keyframes(rest.found, base));
    assert(super::keyframes(shifted(second.found, j), base) =~= super::keyframes(
        second.found,
        base + j,
    ));
}

} // verus!
