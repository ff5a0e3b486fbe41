//! What can be relied on of every window.
use super::clock;
use super::clock::Nanos;
use super::model;
use super::model::{ChunkView, ReplayView};
use crate::ts;
use crate::ts::Keyframe;
use vstd::prelude::*;

verus! {

/// What a push leaves of the bytes: a suffix of what was held and what came.
proof fn lemma_pushed_bytes(v: ReplayView, now: Nanos, data: Seq<u8>)
    requires
        v.wf(),
    ensures
        ({
            let p = v.pushed(now, data);
            &&& p.chunks.len() > 0
            &&& model::contiguous(p.chunks, p.head)
            &&& model::total(p.chunks) == p.window().len()
            &&& v.floor() <= p.floor() <= v.head
            &&& p.floor() + p.window().len() == p.head
            &&& p.window() == (v.window() + data).skip(p.floor() - v.floor())
        }),
{
    let c = ChunkView { at: now, start: v.head, data };
    let all = v.chunks.push(c);
    let p = v.pushed(now, data);
    model::lemma_push(v.chunks, c);
    model::lemma_push_contiguous(v.chunks, c, v.head);
    model::lemma_trimmed(all, now, v.max_age, v.max_bytes);
    let n = choose|n: int| 0 <= n <= all.len() && p.chunks == #[trigger] all.skip(n);
    model::lemma_skip(all, p.head, n);
    model::lemma_total(p.chunks);
    assert(p.chunks[0] == all[n]);
    assert(p.chunks.last() == c);
    assert(v.chunks.len() > 0 ==> all[0] == v.chunks[0]);
    // The newest chunk, which begins at the old head, is among those kept.
    let last = p.chunks.len() - 1;
    model::lemma_skip(p.chunks, p.head, last);
    assert(p.chunks.skip(last) =~= seq![c]);
    assert(seq![c].skip(1) =~= Seq::empty());
    reveal_with_fuel(model::total, 2);
    assert(model::total(seq![c]) == data.len());
}

/// The keyframes that were known come before those that a push finds.
pub(crate) proof fn lemma_keyframes_in_order(v: ReplayView, data: Seq<u8>)
    requires
        v.wf(),
        v.has_room(data.len() as int),
    ensures
        forall|n: int, m: int|
            #![trigger (v.keyframes + v.scanner.reported(data))[n], (v.keyframes
                + v.scanner.reported(data))[m]]
            0 <= n < m < (v.keyframes + v.scanner.reported(data)).len() ==> (v.keyframes
                + v.scanner.reported(data))[n].at < (v.keyframes + v.scanner.reported(data))[m].at,
{
    ts::laws::law_offsets_point_at_packets(v.scanner, data);
    let fresh = v.scanner.reported(data);
    let all = v.keyframes + fresh;
    assert forall|n: int, m: int|
        #![trigger all[n], all[m]]
        0 <= n < m < all.len() implies all[n].at < all[m].at by {
        let k = v.keyframes.len();
        if n < k {
            assert(all[n] == v.keyframes[n]);
            if m < k {
                assert(all[m] == v.keyframes[m]);
            } else {
                assert(all[m] == fresh[m - k]);
            }
        } else {
            assert(all[n] == fresh[n - k]);
            assert(all[m] == fresh[m - k]);
        }
    }
}

/// Every push leaves a sound window: its chunks are a suffix of the stream,
/// its keyframes are whole packets inside it, in order, on sync bytes. One
/// whose packet starts before the oldest byte held is no longer among them.
pub proof fn law_push_keeps_the_window_sound(v: ReplayView, now: Nanos, data: Seq<u8>)
    requires
        v.wf(),
        v.has_room(data.len() as int),
    ensures
        v.pushed(now, data).wf(),
{
    let p = v.pushed(now, data);
    lemma_pushed_bytes(v, now, data);
    ts::laws::law_every_byte_is_counted(v.scanner, data);
    ts::laws::law_offsets_point_at_packets(v.scanner, data);
    let buf = v.scanner.buffer(data);
    let end = p.scanner.pos - v.scanner.pos;
    // From the scanner's first unread byte on, the window and its buffer agree.
    assert forall|off: int|
        p.floor() <= off < p.head && v.scanner.pos <= off implies #[trigger] p.window()[off
        - p.floor()] == buf[off - v.scanner.pos] by {
        assert(p.window()[off - p.floor()] == (v.window() + data)[off - v.floor()]);
        if off < v.head {
            assert(v.window()[off - v.floor()] == v.scanner.carry[off - v.scanner.pos]);
        }
    }
    assert forall|off: int|
        p.floor() <= off < p.head && p.scanner.pos <= off implies #[trigger] p.window()[off
        - p.floor()] == p.scanner.carry[off - p.scanner.pos] by {
        assert(p.scanner.carry[off - p.scanner.pos] == buf[end + (off - p.scanner.pos)]);
    }
    let fresh = v.scanner.reported(data);
    let all = v.keyframes + fresh;
    lemma_keyframes_in_order(v, data);
    model::lemma_from_floor(all, p.floor());
    assert forall|n: int| #![trigger p.keyframes[n]] 0 <= n < p.keyframes.len() implies {
        &&& p.floor() <= p.keyframes[n].at < p.head
        &&& p.keyframes[n].at + ts::PACKET <= p.scanner.pos
        &&& p.window()[p.keyframes[n].at - p.floor()] == ts::SYNC
    } by {
        let f = p.keyframes[n];
        assert(all.contains(f));
        let i = choose|i: int| 0 <= i < all.len() && all[i] == f;
        let k = v.keyframes.len();
        if i < k {
            assert(v.keyframes[i] == f);
            assert(p.window()[f.at - p.floor()] == (v.window() + data)[f.at - v.floor()]);
        } else {
            assert(fresh[i - k] == f);
            assert(p.window()[f.at - p.floor()] == buf[f.at - v.scanner.pos]);
        }
    }
}

/// The window is always the trailing part of the stream: a push adds its
/// bytes at the end and takes bytes away at the front only.
pub proof fn law_the_window_trails_the_stream(v: ReplayView, now: Nanos, data: Seq<u8>)
    requires
        v.wf(),
    ensures
        ({
            let p = v.pushed(now, data);
            &&& p.head == v.head + data.len()
            &&& v.floor() <= p.floor() <= v.head
            &&& p.window() == (v.window() + data).skip(p.floor() - v.floor())
        }),
{
    lemma_pushed_bytes(v, now, data);
}

/// After a push the window is within both caps, or holds only the chunk that
/// was pushed: the only chunk is never trimmed. So it ends with that chunk, is
/// no larger than the byte cap or that chunk, and, as long as chunks arrive in
/// order, they stay in order and every other chunk held arrived at most the
/// age cap before it.
pub proof fn law_the_caps_hold(v: ReplayView, now: Nanos, data: Seq<u8>)
    requires
        v.wf(),
    ensures
        ({
            let p = v.pushed(now, data);
            &&& p.chunks.last() == (ChunkView { at: now, start: v.head, data })
            &&& p.chunks.len() == 1 || (p.window().len() <= v.max_bytes && clock::age(
                now,
                p.chunks[0].at,
            ) <= v.max_age)
            &&& data.len() <= p.window().len()
            &&& p.window().skip(p.window().len() - data.len()) == data
            &&& p.window().len() <= v.max_bytes || p.window() == data
            &&& v.ordered() && v.follows(now) ==> {
                &&& p.ordered()
                &&& forall|i: int|
                    0 <= i < p.chunks.len() - 1 ==> clock::age(now, (#[trigger] p.chunks[i]).at)
                        <= v.max_age
            }
        }),
{
    let c = ChunkView { at: now, start: v.head, data };
    let all = v.chunks.push(c);
    let p = v.pushed(now, data);
    model::lemma_trimmed(all, now, v.max_age, v.max_bytes);
    model::lemma_total(p.chunks);
    assert(all.last() == c);
    lemma_pushed_bytes(v, now, data);
    super::lemma_span(v);
    assert(p.window().skip(p.window().len() - data.len()) =~= data);
    if p.chunks.len() == 1 {
        assert(p.chunks.skip(1) =~= Seq::empty());
        reveal_with_fuel(model::joined, 2);
        assert(p.window() =~= data);
    }
    if v.ordered() && v.follows(now) {
        let n = choose|n: int| 0 <= n <= all.len() && p.chunks == #[trigger] all.skip(n);
        assert forall|i: int, j: int|
            #![trigger p.chunks[i], p.chunks[j]]
            0 <= i < j < p.chunks.len() implies p.chunks[i].at <= p.chunks[j].at by {
            assert(p.chunks[i] == all[n + i]);
            assert(p.chunks[j] == all[n + j]);
            assert(all[n + i] == v.chunks[n + i]);
            if n + j < v.chunks.len() {
                assert(all[n + j] == v.chunks[n + j]);
            }
        }
        assert forall|i: int| 0 <= i < p.chunks.len() implies (#[trigger] p.chunks[i]).at <= now by {
            assert(p.chunks[i] == all[n + i]);
            if n + i < v.chunks.len() {
                assert(all[n + i] == v.chunks[n + i]);
            }
        }
        assert forall|i: int| 0 <= i < p.chunks.len() - 1 implies clock::age(
            now,
            (#[trigger] p.chunks[i]).at,
        ) <= v.max_age by {
            if i > 0 {
                assert(p.chunks[0].at <= p.chunks[i].at);
            }
        }
    }
}

/// Whether a keyframe has at least `min` of content after it.
pub open spec fn followed(k: Keyframe, latest: Option<u64>, min: Nanos) -> bool {
    model::trailing(k, latest) matches Some(t) && t >= min
}

/// The keyframe that [`model::newest_with`] picks is one of those given, has
/// the content asked for, and none behind it has. Gives its place.
proof fn lemma_newest_with(ks: Seq<Keyframe>, latest: Option<u64>, min: Nanos) -> (at: int)
    ensures
        model::newest_with(ks, latest, min) matches Some(k) ==> {
            &&& 0 <= at < ks.len()
            &&& ks[at] == k
            &&& followed(k, latest, min)
            &&& forall|n: int| at < n < ks.len() ==> !followed(#[trigger] ks[n], latest, min)
        },
        model::newest_with(ks, latest, min) is None ==> forall|n: int|
            0 <= n < ks.len() ==> !followed(#[trigger] ks[n], latest, min),
    decreases ks.len(),
{
    if ks.len() == 0 {
        0
    } else if followed(ks.last(), latest, min) {
        ks.len() - 1
    } else {
        let front = ks.drop_last();
        let at = lemma_newest_with(front, latest, min);
        assert forall|n: int|
            0 <= n < ks.len() && (model::newest_with(ks, latest, min) is Some ==> at < n) implies
            !followed(#[trigger] ks[n], latest, min) by {
            if n < front.len() {
                assert(front[n] == ks[n]);
            }
        }
        at
    }
}

/// The keyframe that an encoder starts from is one of those in the window.
pub(crate) proof fn lemma_start_is_kept(v: ReplayView, min: Nanos)
    ensures
        v.start_keyframe(min) matches Some(k) ==> v.keyframes.contains(k),
{
    let at = lemma_newest_with(v.keyframes, v.scanner.known.latest_pts, min);
    if v.keyframes.len() > 0 {
        assert(v.keyframes.contains(v.keyframes.last()));
    }
}

/// A video encoder primed from a keyframe starts on a sync byte, holds the
/// whole packet that begins there, and reads from there to the live edge;
/// without a keyframe in the window there is none to start from.
pub proof fn law_a_keyframe_prime_starts_on_a_packet(v: ReplayView, min: Nanos)
    requires
        v.wf(),
    ensures
        v.from_keyframe(min).from_keyframe <==> v.keyframes.len() > 0,
        v.from_keyframe(min).from_keyframe ==> {
            &&& v.from_keyframe(min).data.len() >= ts::PACKET
            &&& v.from_keyframe(min).data[0] == ts::SYNC
            &&& v.from_keyframe(min).data.len() == v.head - v.start_keyframe(min)->0.at
        },
{
    lemma_start_is_kept(v, min);
    model::lemma_total(v.chunks);
    if v.keyframes.len() > 0 {
        let k = v.start_keyframe(min)->0;
        let n = choose|n: int| 0 <= n < v.keyframes.len() && v.keyframes[n] == k;
        assert(v.keyframes[n].at + ts::PACKET <= v.head);
        assert(v.floor() + v.window().len() == v.head) by {
            reveal_with_fuel(model::contiguous, 2);
        }
    }
}

/// What is cut off at a packet boundary is the front.
proof fn lemma_synced_suffix(b: Seq<u8>, i: int) -> (n: int)
    requires
        0 <= i,
    ensures
        0 <= n <= b.len(),
        model::synced_from(b, i) == b.skip(n),
    decreases ts::PACKET - i,
{
    if i >= ts::PACKET || i >= b.len() {
        assert(b.skip(0) =~= b);
        0
    } else if model::synced(b, i) {
        i
    } else {
        lemma_synced_suffix(b, i + 1)
    }
}

/// The recent chunks are the last ones, those before them are too old, and
/// where chunks arrive in order none of the recent ones is.
proof fn lemma_recent(chunks: Seq<ChunkView>, newest: Nanos, d: Nanos) -> (n: int)
    ensures
        0 <= n <= chunks.len(),
        model::recent(chunks, newest, d) == chunks.skip(n),
        forall|i: int| 0 <= i < n ==> clock::age(newest, (#[trigger] chunks[i]).at) > d,
        n < chunks.len() ==> clock::age(newest, chunks[n].at) <= d,
    decreases chunks.len(),
{
    if chunks.len() == 0 || clock::age(newest, chunks[0].at) <= d {
        assert(chunks.skip(0) =~= chunks);
        0
    } else {
        let rest = chunks.skip(1);
        let m = lemma_recent(rest, newest, d);
        assert(rest.skip(m) =~= chunks.skip(m + 1));
        assert forall|i: int| 0 <= i < m + 1 implies clock::age(newest, (#[trigger] chunks[i]).at)
            > d by {
            if i > 0 {
                assert(rest[i - 1] == chunks[i]);
            }
        }
        m + 1
    }
}

/// Whatever the policy, what an encoder is primed with is the end of the
/// window, so that the live stream follows on it; nothing of an empty window.
pub proof fn law_a_prime_is_the_end_of_the_window(v: ReplayView, policy: super::Policy) -> (n: int)
    requires
        v.wf(),
    ensures
        0 <= n <= v.window().len(),
        super::primed(v, policy).data == v.window().skip(n),
        v.chunks.len() == 0 ==> super::primed(v, policy).data.len() == 0 && !super::primed(
            v,
            policy,
        ).from_keyframe,
{
    super::lemma_span(v);
    match policy {
        super::Policy::FromKeyframe(min) => {
            lemma_start_is_kept(v, min);
            match v.start_keyframe(min) {
                Some(k) => {
                    let i = choose|i: int| 0 <= i < v.keyframes.len() && v.keyframes[i] == k;
                    assert(v.floor() <= v.keyframes[i].at < v.head);
                    k.at - v.floor()
                },
                None => lemma_synced_suffix(v.window(), 0),
            }
        },
        super::Policy::Tail(d) => if v.chunks.len() == 0 {
            lemma_synced_suffix(v.window(), 0)
        } else {
            let m = lemma_recent(v.chunks, v.chunks.last().at, d);
            model::lemma_skip(v.chunks, v.head, m);
            model::lemma_total(v.chunks);
            model::lemma_total(v.chunks.skip(m));
            let part = v.chunks.skip(m);
            let cut = model::total(v.chunks) - model::total(part);
            let n = lemma_synced_suffix(model::joined(part), 0);
            assert(v.window().skip(cut).skip(n) =~= v.window().skip(cut + n));
            cut + n
        },
    }
}

/// An audio encoder is primed with the chunks that arrived at most so long
/// before the newest, from the first packet boundary on. Where chunks arrive
/// in order, these are exactly the last of them.
pub proof fn law_a_tail_is_the_recent_chunks(v: ReplayView, d: Nanos) -> (n: int)
    requires
        v.chunks.len() > 0,
        v.ordered(),
    ensures
        0 <= n < v.chunks.len(),
        !v.tail(d).from_keyframe,
        v.tail(d).data == model::synced_from(model::joined(v.chunks.skip(n)), 0),
        forall|i: int|
            0 <= i < v.chunks.len() ==> (clock::age(
                v.chunks.last().at,
                (#[trigger] v.chunks[i]).at,
            ) <= d <==> n <= i),
{
    let newest = v.chunks.last().at;
    let n = lemma_recent(v.chunks, newest, d);
    assert(clock::age(newest, v.chunks[v.chunks.len() - 1].at) <= d);
    assert forall|i: int| 0 <= i < v.chunks.len() implies (clock::age(
        newest,
        (#[trigger] v.chunks[i]).at,
    ) <= d <==> n <= i) by {
        if n < i {
            assert(v.chunks[n].at <= v.chunks[i].at);
        }
    }
    n
}

/// A prime is ready exactly when some keyframe has enough content after it,
/// and the one chosen then is the newest such: none behind it has.
pub proof fn law_a_ready_prime_has_the_content(v: ReplayView, min: Nanos)
    ensures
        ({
            let latest = v.scanner.known.latest_pts;
            let with = model::newest_with(v.keyframes, latest, min);
            &&& with is Some <==> exists|n: int|
                0 <= n < v.keyframes.len() && followed(#[trigger] v.keyframes[n], latest, min)
            &&& with is Some ==> v.start_keyframe(min) == with && exists|n: int|
                {
                    &&& 0 <= n < v.keyframes.len()
                    &&& #[trigger] v.keyframes[n] == with->0
                    &&& followed(v.keyframes[n], latest, min)
                    &&& forall|m: int|
                        n < m < v.keyframes.len() ==> !followed(
                            #[trigger] v.keyframes[m],
                            latest,
                            min,
                        )
                }
        }),
{
    let latest = v.scanner.known.latest_pts;
    let at = lemma_newest_with(v.keyframes, latest, min);
    if model::newest_with(v.keyframes, latest, min) is Some {
        assert(followed(v.keyframes[at], latest, min));
    }
}

} // verus!
