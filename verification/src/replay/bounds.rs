//! What a window keeps and what it gives, in plain terms.
use super::clock;
use super::clock::Nanos;
use super::model;
use super::model::{ChunkView, ReplayView};
use crate::ts::Keyframe;
use vstd::prelude::*;

verus! {

/// A distance on the 90 kHz clock, whose 33 bits wrap, is the time that many
/// ticks take, to the nearest nanosecond, up to five minutes; anything longer
/// is no distance.
pub proof fn law_a_distance_is_the_time_its_ticks_take(from: u64, d: u64)
    requires
        from < 0x2_0000_0000,
        d < 0x2_0000_0000,
    ensures
        ({
            let to = ((from + d) % 0x2_0000_0000) as u64;
            if d <= 27_000_000 {
                clock::gap(from, to) matches Some(n) && -45_000 <= n * 90_000 - d * 1_000_000_000
                    <= 45_000
            } else {
                clock::gap(from, to) is None
            }
        }),
{
    let to = ((from + d) % 0x2_0000_0000) as u64;
    let p: int = 0x2_0000_0000;
    let q = (from + d) / p;
    assert(from + d == q * p + to);
    assert((to - from) % p == d) by {
        vstd::arithmetic::div_mod::lemma_mod_multiples_vanish(-q, d as int, p);
        assert(p * (-q) + d == to - from) by (nonlinear_arith)
            requires
                from + d == q * p + to,
        ;
        assert(d as int % p == d);
    }
    if d <= 27_000_000 {
        let n = (d * 100_000 + 4) / 9;
        assert(n * 9 <= d * 100_000 + 4 < n * 9 + 9);
    }
}

/// How much content is behind a keyframe is how far its timestamp is from the
/// newest one, and how much has come since a moment is how far that is.
pub proof fn law_content_is_measured_on_the_clock(v: ReplayView, at: u64, p: u64, d: u64)
    requires
        p < 0x2_0000_0000,
        d <= 27_000_000,
        v.scanner.known.latest_pts == Some(((p + d) % 0x2_0000_0000) as u64),
    ensures
        ({
            let k = Keyframe { at, pts: Some(p) };
            &&& model::trailing(k, v.scanner.known.latest_pts) matches Some(n) && -45_000 <= n
                * 90_000 - d * 1_000_000_000 <= 45_000
            &&& -45_000 <= v.growth(Some(p)) * 90_000 - d * 1_000_000_000 <= 45_000
            &&& v.growth(None) == 0
            &&& model::trailing(Keyframe { at, pts: None }, v.scanner.known.latest_pts) is None
            &&& model::trailing(k, None) is None
        }),
{
    law_a_distance_is_the_time_its_ticks_take(p, d);
}

/// A push drops no more than it must: every chunk that goes was over age, or
/// the bytes from it on were over the cap. What stays is the rest, in order,
/// with the new chunk at the end.
pub proof fn law_a_push_drops_no_more_than_it_must(v: ReplayView, now: Nanos, data: Seq<u8>) -> (n:
    int)
    ensures
        ({
            let all = v.chunks.push(ChunkView { at: now, start: v.head, data });
            &&& 0 <= n < all.len()
            &&& v.pushed(now, data).chunks == all.skip(n)
            &&& forall|i: int|
                0 <= i < n ==> model::joined(all.skip(i)).len() > v.max_bytes || now - (
                #[trigger] all[i]).at > v.max_age
        }),
{
    let all = v.chunks.push(ChunkView { at: now, start: v.head, data });
    lemma_dropped(all, now, v.max_age, v.max_bytes)
}

proof fn lemma_dropped(cs: Seq<ChunkView>, now: Nanos, max_age: Nanos, max_bytes: int) -> (n: int)
    requires
        cs.len() > 0,
    ensures
        0 <= n < cs.len(),
        model::trimmed(cs, now, max_age, max_bytes) == cs.skip(n),
        forall|i: int|
            0 <= i < n ==> model::joined(cs.skip(i)).len() > max_bytes || now - (
            #[trigger] cs[i]).at > max_age,
    decreases cs.len(),
{
    model::lemma_total(cs);
    assert(cs.skip(0) =~= cs);
    if cs.len() > 1 && (model::total(cs) > max_bytes || clock::age(now, cs[0].at) > max_age) {
        let rest = cs.skip(1);
        let m = lemma_dropped(rest, now, max_age, max_bytes);
        assert(rest.skip(m) =~= cs.skip(m + 1));
        assert forall|i: int| 0 <= i < m + 1 implies model::joined(cs.skip(i)).len() > max_bytes
            || now - (#[trigger] cs[i]).at > max_age by {
            if i > 0 {
                assert(rest[i - 1] == cs[i]);
                assert(rest.skip(i - 1) =~= cs.skip(i));
            }
        }
        m + 1
    } else {
        0
    }
}

/// A push keeps exactly those keyframes, old and new, whose packets are still
/// held, in order.
pub proof fn law_keyframes_go_with_their_packets(
    v: ReplayView,
    now: Nanos,
    data: Seq<u8>,
    k: Keyframe,
)
    requires
        v.wf(),
        v.has_room(data.len() as int),
    ensures
        v.pushed(now, data).keyframes.contains(k) <==> {
            &&& v.keyframes.contains(k) || v.scanner.reported(data).contains(k)
            &&& k.at >= v.pushed(now, data).floor()
        },
{
    let p = v.pushed(now, data);
    let fresh = v.scanner.reported(data);
    let all = v.keyframes + fresh;
    let floor = p.chunks[0].start;
    model::lemma_trimmed(
        v.chunks.push(ChunkView { at: now, start: v.head, data }),
        now,
        v.max_age,
        v.max_bytes,
    );
    assert(p.floor() == floor);
    super::laws::lemma_keyframes_in_order(v, data);
    model::lemma_from_floor(all, floor);
    if all.contains(k) {
        let i = choose|i: int| 0 <= i < all.len() && all[i] == k;
        if i < v.keyframes.len() {
            assert(v.keyframes[i] == k);
        } else {
            assert(fresh[i - v.keyframes.len()] == k);
        }
        assert(all[i].at >= floor ==> p.keyframes.contains(all[i]));
    }
    if v.keyframes.contains(k) {
        let i = choose|i: int| 0 <= i < v.keyframes.len() && v.keyframes[i] == k;
        assert(all[i] == k);
    }
    if fresh.contains(k) {
        let i = choose|i: int| 0 <= i < fresh.len() && fresh[i] == k;
        assert(all[v.keyframes.len() + i] == k);
    }
    if p.keyframes.contains(k) {
        let i = choose|i: int| 0 <= i < p.keyframes.len() && p.keyframes[i] == k;
        assert(p.keyframes[i].at >= floor);
        assert(all.contains(p.keyframes[i]));
    }
}

/// Where no keyframe has enough content behind it, the newest is started from;
/// where there is none at all, the whole window is, from its first packet on.
pub proof fn law_without_enough_content_the_newest_keyframe_is_used(v: ReplayView, min: Nanos)
    ensures
        (forall|n: int|
            0 <= n < v.keyframes.len() ==> !super::laws::followed(
                #[trigger] v.keyframes[n],
                v.scanner.known.latest_pts,
                min,
            )) && v.keyframes.len() > 0 ==> v.start_keyframe(min) == Some(v.keyframes.last()),
        v.keyframes.len() == 0 ==> v.start_keyframe(min) is None && v.from_keyframe(min).data
            == model::synced_from(v.window(), 0),
        v.start_keyframe(min) matches Some(k) ==> v.from_keyframe(min).data == v.window().skip(
            k.at - v.floor(),
        ),
{
    super::laws::law_a_ready_prime_has_the_content(v, min);
}

/// Trimming to a packet cuts what stands before the first sync byte that
/// another follows 188 bytes later, or that is the last in sight; where none
/// is found within a packet nothing is cut.
pub proof fn law_trimming_cuts_to_the_first_packet(b: Seq<u8>, n: int)
    requires
        0 <= n,
        forall|i: int|
            #![trigger b[i]]
            0 <= i < n && i < b.len() ==> b[i] != 0x47 || (i + 188 < b.len() && b[i + 188] != 0x47),
    ensures
        n < 188 && n < b.len() && b[n] == 0x47 && (n + 188 < b.len() ==> b[n + 188] == 0x47)
            ==> model::synced_from(b, 0) == b.skip(n),
        n >= 188 || n >= b.len() ==> model::synced_from(b, 0) == b,
{
    lemma_synced(b, 0, n);
}

proof fn lemma_synced(b: Seq<u8>, i: int, n: int)
    requires
        0 <= i <= n,
        forall|j: int|
            #![trigger b[j]]
            0 <= j < n && j < b.len() ==> b[j] != 0x47 || (j + 188 < b.len() && b[j + 188] != 0x47),
    ensures
        n < 188 && n < b.len() && b[n] == 0x47 && (n + 188 < b.len() ==> b[n + 188] == 0x47)
            ==> model::synced_from(b, i) == b.skip(n),
        n >= 188 || n >= b.len() ==> model::synced_from(b, i) == b,
    decreases n - i,
{
    if i < n && i < 188 && i < b.len() {
        assert(!model::synced(b, i)) by {
            assert(b[i] == b[i]);
        }
        lemma_synced(b, i + 1, n);
    }
}

/// An age is how long ago something was, and nothing for what is yet to come.
pub proof fn law_an_age_is_how_long_ago_it_was(now: Nanos, at: Nanos)
    ensures
        now >= at ==> clock::age(now, at) == now - at,
        now <= at ==> clock::age(now, at) == 0,
{
}

/// What an encoder is primed with goes by its policy.
pub proof fn law_a_prime_goes_by_its_policy(v: ReplayView, d: Nanos)
    ensures
        super::primed(v, super::Policy::FromKeyframe(d)) == v.from_keyframe(d),
        super::primed(v, super::Policy::Tail(d)) == v.tail(d),
        v.chunks.len() > 0 ==> v.tail(d).data == model::synced_from(
            model::joined(model::recent(v.chunks, v.chunks.last().at, d)),
            0,
        ),
{
}

/// There is room for more until the counters run out.
pub proof fn law_there_is_room_up_to_the_limits_of_the_machine(v: ReplayView, n: int)
    requires
        v.wf(),
        n >= 0,
    ensures
        v.has_room(n) <==> {
            &&& v.head + n <= u64::MAX
            &&& v.window().len() + n <= usize::MAX
            &&& 188 + n <= usize::MAX
        },
{
}

} // verus!
