use std::time::Duration;

use acestream_proxy::replay::clock::pts_gap;
use acestream_proxy::replay::{sync_trim, Nanos, Policy, Primed, Replay};
use acestream_proxy::ts::{Scanner, PACKET, SYNC};
use bytes::Bytes;

/// One transport packet. `rai` adds an adaptation field carrying that flag.
fn packet(pid: u16, pusi: bool, rai: Option<bool>, payload: &[u8]) -> Vec<u8> {
    let mut p = vec![SYNC, (pid >> 8) as u8 & 0x1F, pid as u8, 0x10];
    if pusi {
        p[1] |= 0x40;
    }
    let body = match rai {
        Some(flag) => {
            p[3] = 0x30;
            // Adaptation field padded so the payload exactly fills the packet.
            let af_len = PACKET - 4 - 1 - payload.len();
            let mut af = vec![af_len as u8, if flag { 0x40 } else { 0x00 }];
            af.resize(1 + af_len, 0xFF);
            [af, payload.to_vec()].concat()
        }
        None => {
            let mut v = payload.to_vec();
            v.resize(PACKET - 4, 0xFF);
            v
        }
    };
    p.extend(body);
    assert_eq!(p.len(), PACKET);
    p
}

fn pat(pmt_pid: u16) -> Vec<u8> {
    let mut s = vec![0x00, 0xB0, 13, 0x00, 0x01, 0xC1, 0x00, 0x00];
    s.extend([0x00, 0x01, 0xE0 | (pmt_pid >> 8) as u8, pmt_pid as u8]);
    s.extend([0, 0, 0, 0]); // crc, unchecked
    packet(0, true, None, &[&[0u8][..], &s].concat())
}

/// A PMT section (not yet packetised) listing `streams` as
/// `(stream_type, pid, descriptors)`.
fn pmt_section(streams: &[(u8, u16, &[u8])]) -> Vec<u8> {
    let mut s = vec![
        0x02, 0xB0, 0, 0x00, 0x01, 0xC1, 0x00, 0x00, 0xE1, 0x00, 0xF0, 0x00,
    ];
    for &(stream_type, pid, desc) in streams {
        s.extend([stream_type, 0xE0 | (pid >> 8) as u8, pid as u8]);
        s.extend([0xF0 | (desc.len() >> 8) as u8, desc.len() as u8]);
        s.extend_from_slice(desc);
    }
    s.extend([0, 0, 0, 0]);
    let len = s.len() - 3;
    s[1] = 0xB0 | (len >> 8) as u8;
    s[2] = len as u8;
    s
}

/// A PMT in one packet.
fn pmt_with(pmt_pid: u16, streams: &[(u8, u16, &[u8])]) -> Vec<u8> {
    let s = pmt_section(streams);
    assert!(s.len() <= PACKET - 5, "use pmt_packets for a long PMT");
    packet(pmt_pid, true, None, &[&[0u8][..], &s].concat())
}

/// A PMT spread over as many packets as it needs.
fn pmt_packets(pmt_pid: u16, streams: &[(u8, u16, &[u8])]) -> Vec<u8> {
    let s = [&[0u8][..], &pmt_section(streams)].concat();
    let mut out = Vec::new();
    for (n, chunk) in s.chunks(PACKET - 4).enumerate() {
        out.extend(packet(pmt_pid, n == 0, None, chunk));
    }
    out
}

fn pmt(pmt_pid: u16, streams: &[(u8, u16)]) -> Vec<u8> {
    let with: Vec<(u8, u16, &[u8])> = streams.iter().map(|&(t, p)| (t, p, &[][..])).collect();
    pmt_with(pmt_pid, &with)
}

/// A PES-start packet whose elementary stream begins with `es`. Carries a
/// PTS of 0.
fn pes(pid: u16, rai: Option<bool>, es: &[u8]) -> Vec<u8> {
    pes_at(pid, 0, rai, es)
}

/// A PES-start packet carrying an explicit 90 kHz PTS.
fn pes_at(pid: u16, pts: u64, rai: Option<bool>, es: &[u8]) -> Vec<u8> {
    let p = pts & ((1 << 33) - 1);
    let ts = [
        0x20 | ((p >> 29) & 0x0E) as u8 | 0x01,
        (p >> 22) as u8,
        (((p >> 14) & 0xFE) as u8) | 0x01,
        (p >> 7) as u8,
        (((p << 1) & 0xFE) as u8) | 0x01,
    ];
    let mut payload = vec![0, 0, 1, 0xE0, 0, 0, 0x80, 0x80, 5];
    payload.extend_from_slice(&ts);
    payload.extend_from_slice(es);
    packet(pid, true, rai, &payload)
}

const AUD: [u8; 6] = [0, 0, 0, 1, 0x09, 0xF0];
const SPS: [u8; 8] = [0, 0, 0, 1, 0x67, 0x64, 0x00, 0x1F];
const IDR: [u8; 6] = [0, 0, 0, 1, 0x65, 0x88];
const SLICE: [u8; 6] = [0, 0, 0, 1, 0x41, 0x9A];
const SEI: [u8; 7] = [0, 0, 0, 1, 0x06, 0x01, 0x80];

/// PAT + PMT for an H.264 + AAC program: video on 0x101, audio on 0x102.
fn h264_stream() -> (Scanner, Vec<u8>) {
    let mut data = pat(0x100);
    data.extend(pmt(0x100, &[(0x0F, 0x102), (0x1B, 0x101)]));
    (Scanner::new(), data)
}

const LONG: Nanos = Duration::from_secs(3600).as_nanos();
const BIG: usize = 64 * 1024 * 1024;

/// Build `count` TS packets whose payload byte identifies the packet.
fn ts_packets(count: usize) -> Vec<u8> {
    let mut v = Vec::with_capacity(count * 188);
    for i in 0..count {
        v.push(0x47);
        v.extend_from_slice(&[0x01, 0x00, 0x10]);
        v.extend(std::iter::repeat_n((i & 0xFF) as u8, 184));
    }
    v
}

fn keyframe_pes() -> Vec<u8> {
    pes(
        0x101,
        None,
        &[AUD.as_slice(), SPS.as_slice(), IDR.as_slice()].concat(),
    )
}

/// A video keyframe PES carrying an explicit PTS in seconds.
fn keyframe_at(secs: f64) -> Vec<u8> {
    pes_at(
        0x101,
        (secs * 90_000.0) as u64,
        None,
        &[AUD.as_slice(), SPS.as_slice(), IDR.as_slice()].concat(),
    )
}

/// A non-keyframe video PES carrying an explicit PTS, to advance the clock.
fn slice_at(secs: f64) -> Vec<u8> {
    pes_at(
        0x101,
        (secs * 90_000.0) as u64,
        None,
        &[AUD.as_slice(), SLICE.as_slice()].concat(),
    )
}

fn whole(r: &Replay) -> Vec<u8> {
    r.snapshot(Policy::Tail(LONG)).data
}

#[test]
fn keeps_the_most_recent_bytes_under_the_byte_cap() {
    let cap = 4 * 1024 * 1024;
    let mut r = Replay::new(LONG, cap);
    let data = ts_packets(cap / 188 + 500);
    for chunk in data.chunks(64 * 1024) {
        r.push(Bytes::copy_from_slice(chunk));
    }
    let window = whole(&r);
    assert!(window.len() <= cap);
    assert!(window.len() > cap - 64 * 1024 - 188);
    assert_eq!(&window[window.len() - 184..], &data[data.len() - 184..]);
}

#[test]
fn window_starts_on_a_packet_boundary() {
    let mut r = Replay::new(LONG, BIG);
    r.push(Bytes::copy_from_slice(&ts_packets(10)[57..]));
    let window = whole(&r);
    assert_eq!(window.first(), Some(&0x47), "must begin at a sync byte");
    assert_eq!(window[188], 0x47, "and the next packet must line up");
}

#[test]
fn is_empty_before_any_data() {
    let r = Replay::new(LONG, BIG);
    assert!(r.is_empty());
    assert!(whole(&r).is_empty());
    assert_eq!(
        r.snapshot(Policy::FromKeyframe(0)),
        Primed {
            data: vec![],
            from_keyframe: false
        }
    );
}

#[test]
fn survives_a_stream_with_no_sync_bytes() {
    let mut r = Replay::new(LONG, BIG);
    r.push(Bytes::from(vec![0x00; 1000]));
    assert_eq!(whole(&r).len(), 1000);
}

#[test]
fn primes_a_video_encoder_from_the_newest_keyframe() {
    let (_, tables) = h264_stream();
    let mut r = Replay::new(LONG, BIG);
    r.push(Bytes::from(tables));
    r.push(Bytes::from(keyframe_pes()));
    r.push(Bytes::from(ts_packets(5)));
    let second = keyframe_pes();
    r.push(Bytes::from(second.clone()));
    let tail = ts_packets(3);
    r.push(Bytes::from(tail.clone()));

    let p = r.snapshot(Policy::FromKeyframe(0));
    assert!(p.from_keyframe);
    assert_eq!(
        p.data,
        [second, tail].concat(),
        "newest keyframe to the head"
    );
}

#[test]
fn falls_back_to_the_whole_window_without_a_keyframe() {
    let mut r = Replay::new(LONG, BIG);
    let data = ts_packets(20);
    r.push(Bytes::copy_from_slice(&data[..1000]));
    r.push(Bytes::copy_from_slice(&data[1000..]));
    let p = r.snapshot(Policy::FromKeyframe(0));
    assert!(!p.from_keyframe);
    assert_eq!(p.data, data);
}

#[test]
fn primes_from_the_newest_keyframe_with_enough_trailing_content() {
    let (_, tables) = h264_stream();
    let mut r = Replay::new(LONG, BIG);
    r.push(Bytes::from(tables));
    r.push(Bytes::from(keyframe_at(0.0)));
    let kf3 = keyframe_at(3.0);
    r.push(Bytes::from(kf3.clone()));
    let kf6 = keyframe_at(6.0);
    r.push(Bytes::from(kf6.clone()));
    let edge = slice_at(6.5);
    r.push(Bytes::from(edge.clone()));

    // The 6s keyframe has only 0.5s after it, the 3s keyframe 3.5s, so at a
    // 2.5s target the 3s keyframe is chosen — newest with enough behind it.
    let want = Duration::from_millis(2500).as_nanos();
    assert!(r.video_prime_ready(want));
    let p = r.snapshot(Policy::FromKeyframe(want));
    assert!(p.from_keyframe);
    assert_eq!(p.data.len(), kf3.len() + kf6.len() + edge.len());
    assert!(p.data.starts_with(&kf3), "primes from the 3s keyframe");
}

#[test]
fn not_prime_ready_until_enough_content_follows_a_keyframe() {
    let (_, tables) = h264_stream();
    let mut r = Replay::new(LONG, BIG);
    r.push(Bytes::from(tables));
    r.push(Bytes::from(keyframe_at(10.0)));
    r.push(Bytes::from(slice_at(11.0))); // live edge only 1s past the keyframe
    assert!(!r.video_prime_ready(Duration::from_millis(2500).as_nanos()));
    assert!(r.video_prime_ready(Duration::from_millis(1000).as_nanos()));
    // Below the target it still primes, falling back to the newest keyframe.
    let p = r.snapshot(Policy::FromKeyframe(Duration::from_millis(2500).as_nanos()));
    assert!(p.from_keyframe, "falls back to the newest keyframe");
}

#[test]
fn content_growth_tracks_the_video_clock() {
    let (_, tables) = h264_stream();
    let mut r = Replay::new(LONG, BIG);
    r.push(Bytes::from(tables));
    assert_eq!(r.content_growth(None), 0);
    r.push(Bytes::from(keyframe_at(1.0)));
    let base = r.latest_video_pts();
    r.push(Bytes::from(slice_at(3.0)));
    assert_eq!(r.content_growth(base), Duration::from_secs(2).as_nanos());
}

#[test]
fn trailing_content_reads_correctly_across_a_pts_wrap() {
    let (_, tables) = h264_stream();
    let mut r = Replay::new(LONG, BIG);
    r.push(Bytes::from(tables));
    // Keyframe 0.5s before the 33-bit wrap, live edge 0.5s after it.
    let top = (1u64 << 33) - 45_000;
    r.push(Bytes::from(pes_at(
        0x101,
        top,
        None,
        &[AUD.as_slice(), SPS.as_slice(), IDR.as_slice()].concat(),
    )));
    r.push(Bytes::from(pes_at(
        0x101,
        45_000,
        None,
        &[AUD.as_slice(), SLICE.as_slice()].concat(),
    )));
    // The true 1s gap is recovered, not read as a ~26-hour jump.
    assert!(r.video_prime_ready(Duration::from_millis(900).as_nanos()));
    assert!(!r.video_prime_ready(Duration::from_millis(1100).as_nanos()));
}

#[test]
fn forgets_keyframes_that_have_left_the_window() {
    let (_, tables) = h264_stream();
    let mut r = Replay::new(LONG, 2000);
    r.push(Bytes::from(tables));
    r.push(Bytes::from(keyframe_pes()));
    assert!(
        r.snapshot(Policy::FromKeyframe(0))
            .from_keyframe
    );
    r.push(Bytes::from(ts_packets(20)));
    // The keyframe chunk was trimmed to stay under the byte cap.
    assert!(
        !r.snapshot(Policy::FromKeyframe(0))
            .from_keyframe
    );
}

#[test]
fn drops_chunks_older_than_the_age_cap() {
    let mut r = Replay::new(Duration::from_millis(30).as_nanos(), BIG);
    r.push_at(0, Bytes::from(ts_packets(4)));
    let fresh = ts_packets(2);
    r.push_at(
        Duration::from_millis(80).as_nanos(),
        Bytes::from(fresh.clone()),
    );
    assert_eq!(whole(&r), fresh);
    assert_eq!(r.len(), fresh.len());
}

#[test]
fn tail_takes_only_recent_chunks() {
    let mut r = Replay::new(LONG, BIG);
    r.push_at(0, Bytes::from(ts_packets(4)));
    let fresh = ts_packets(2);
    r.push_at(
        Duration::from_millis(80).as_nanos(),
        Bytes::from(fresh.clone()),
    );
    assert_eq!(
        r.snapshot(Policy::Tail(Duration::from_millis(10).as_nanos())).data,
        fresh
    );
    assert_eq!(r.snapshot(Policy::Tail(LONG)).data.len(), 6 * 188);
}

#[test]
fn never_trims_the_only_chunk() {
    let mut r = Replay::new(0, 10);
    r.push(Bytes::from(ts_packets(2)));
    assert_eq!(r.len(), 2 * 188);
}

// -- rules and bounds ---------------------------------------------------------

#[test]
fn the_window_is_a_suffix_of_what_was_pushed() {
    let data = ts_packets(40);
    let mut r = Replay::new(LONG, 2000);
    let mut now = 0;
    for chunk in data.chunks(300) {
        r.push_at(now, Bytes::copy_from_slice(chunk));
        now += 1;
        let held = r.len();
        assert!(held <= 2000);
        assert!(r.has_room(1_000_000));
    }
    // The last 1920 bytes begin mid-packet; the prime is trimmed to a boundary.
    assert_eq!(r.len(), 1820);
    let window = whole(&r);
    assert_eq!(window.len(), 9 * 188);
    assert_eq!(&data[data.len() - window.len()..], &window[..]);
}

#[test]
fn a_gap_is_rounded_to_the_nearest_nanosecond() {
    // One tick is 11111.1 ns, five are 55555.6 ns.
    assert_eq!(pts_gap(0, 0), Some(0));
    assert_eq!(pts_gap(0, 1), Some(11_111));
    assert_eq!(pts_gap(10, 15), Some(55_556));
    assert_eq!(pts_gap(0, 90_000), Some(1_000_000_000));
    assert_eq!(pts_gap(0, 27_000_000), Some(300_000_000_000));
    assert_eq!(pts_gap(0, 27_000_001), None, "longer than five minutes");
    assert_eq!(pts_gap(90_000, 0), None, "backwards");
    assert_eq!(pts_gap((1 << 33) - 90_000, 0), Some(1_000_000_000), "across the wrap");
    for d in [0u64, 1, 2, 3, 4, 5, 8, 3_003, 90_001, 26_999_999] {
        let exact = Duration::from_secs_f64(d as f64 / 90_000.0);
        assert_eq!(pts_gap(0, d), Some(exact.as_nanos()), "{d} ticks");
    }
}

#[test]
fn a_gap_does_not_depend_on_where_the_clock_wraps() {
    for by in [0u64, 1, (1 << 33) - 45_000, (1 << 33) - 1] {
        let from = (1_000 + by) % (1 << 33);
        let to = (181_000 + by) % (1 << 33);
        assert_eq!(pts_gap(from, to), pts_gap(1_000, 181_000), "shifted by {by}");
    }
}

#[test]
fn sync_trim_wants_two_sync_bytes_where_both_are_in_sight() {
    let mut data = vec![0x00, 0x47, 0x00];
    data.extend(ts_packets(2));
    assert_eq!(sync_trim(data.clone()), ts_packets(2));
    assert_eq!(sync_trim(vec![1, 2, 0x47, 3]), vec![0x47, 3]);
    assert_eq!(sync_trim(vec![0; 400]).len(), 400, "no boundary: nothing is cut");
    assert_eq!(sync_trim(vec![]), Vec::<u8>::new());
}

#[test]
fn a_keyframe_prime_begins_with_a_sync_byte_and_reaches_the_edge() {
    let (_, tables) = h264_stream();
    let mut r = Replay::new(LONG, BIG);
    let mut data = vec![0xAA; 57];
    data.extend(tables);
    data.extend(keyframe_pes());
    data.extend(ts_packets(2));
    // Cut so that the keyframe packet spans two pushes.
    for chunk in data.chunks(500) {
        r.push(Bytes::copy_from_slice(chunk));
    }
    let p = r.snapshot(Policy::FromKeyframe(0));
    assert!(p.from_keyframe);
    assert_eq!(p.data[0], 0x47);
    assert_eq!(p.data, data[data.len() - 3 * 188..]);
}

#[test]
fn every_prime_is_the_end_of_the_window() {
    let mut r = Replay::new(1_000, 4 * PACKET);
    assert_eq!(
        r.snapshot(Policy::Tail(5)),
        Primed {
            data: vec![],
            from_keyframe: false
        }
    );
    let mut all: Vec<u8> = Vec::new();
    for n in 0..9u8 {
        let chunk = packet(0x101, false, None, &[n; 40]);
        all.extend_from_slice(&chunk);
        r.push_at(Nanos::from(n) * 300, Bytes::from(chunk));
        let held = r.len();
        assert!(held <= 4 * PACKET);
        let window = &all[all.len() - held..];
        for policy in [
            Policy::Tail(0),
            Policy::Tail(300),
            Policy::Tail(599),
            Policy::Tail(10_000),
            Policy::FromKeyframe(0),
        ] {
            assert!(window.ends_with(&r.snapshot(policy).data));
        }
    }
    assert_eq!(r.len(), 4 * PACKET);
    assert_eq!(r.snapshot(Policy::Tail(599)).data.len(), 2 * PACKET);
    // A long pause leaves the newest chunk alone.
    r.push_at(10_000, Bytes::from(packet(0x101, false, None, &[1])));
    assert_eq!(r.len(), PACKET);
}

#[test]
fn a_push_counts_as_no_earlier_than_what_is_held() {
    let far: Nanos = 1 << 100;
    let mut r = Replay::new(10, 2 * PACKET);
    let chunk = |n: u8| Bytes::from(packet(0x101, false, None, &[n; 40]));
    r.push_at(far, chunk(1));
    r.push(chunk(2));
    assert_eq!(r.len(), 2 * PACKET);
    // The second chunk is as old as the first, so it is within the age cap.
    r.push_at(far + 5, chunk(3));
    assert_eq!(r.len(), 2 * PACKET);
    assert_eq!(r.snapshot(Policy::Tail(5)).data.len(), 2 * PACKET);
    assert_eq!(r.snapshot(Policy::Tail(4)).data.len(), PACKET);
}
