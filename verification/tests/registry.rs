use std::time::Duration;

use acestream_proxy::format::{OutputFormat, TrackMode};
use acestream_proxy::mp4;
use acestream_proxy::probe::Probe;
use acestream_proxy::registry::encoder::{Init, Join, Reading};
use acestream_proxy::registry::limits::{
    BURST_SAMPLE, INIT_TIMEOUT, PREROLL, PRIME_CONTENT, PRIME_WAIT, START_TIMEOUT, SUB_MAX_BYTES,
    SUB_MAX_LAG, TS_STALL,
};
use acestream_proxy::registry::pull::{Attempt, Backpressure, Event, Next, Puller};
use acestream_proxy::registry::slots::Slots;
use acestream_proxy::registry::stream::{needs_start, Ready};
use acestream_proxy::registry::{
    linger, now_pid, short, Config, Encoder, EngineStream, Registry, Subscription,
};
use acestream_proxy::ts::{Scanner, PACKET, SYNC};
use bytes::Bytes;

/// One transport packet. `rai` adds an adaptation field carrying that flag.
fn packet(pid: u16, pusi: bool, rai: Option<bool>, payload: &[u8]) -> Vec<u8> {
    let mut p = vec![SYNC, (pid >> 8) as u8 & 0x1F, pid as u8, 0x10];
    if pusi {
        p[1] |= 0x40;
    }
    let body = match rai {
        Some(flag) => {
            p[3] = 0x30;
            // Adaptation field padded so the payload exactly fills the packet.
            let af_len = PACKET - 4 - 1 - payload.len();
            let mut af = vec![af_len as u8, if flag { 0x40 } else { 0x00 }];
            af.resize(1 + af_len, 0xFF);
            [af, payload.to_vec()].concat()
        }
        None => {
            let mut v = payload.to_vec();
            v.resize(PACKET - 4, 0xFF);
            v
        }
    };
    p.extend(body);
    assert_eq!(p.len(), PACKET);
    p
}

fn pat(pmt_pid: u16) -> Vec<u8> {
    let mut s = vec![0x00, 0xB0, 13, 0x00, 0x01, 0xC1, 0x00, 0x00];
    s.extend([0x00, 0x01, 0xE0 | (pmt_pid >> 8) as u8, pmt_pid as u8]);
    s.extend([0, 0, 0, 0]); // crc, unchecked
    packet(0, true, None, &[&[0u8][..], &s].concat())
}

/// A PMT section (not yet packetised) listing `streams` as
/// `(stream_type, pid, descriptors)`.
fn pmt_section(streams: &[(u8, u16, &[u8])]) -> Vec<u8> {
    let mut s = vec![
        0x02, 0xB0, 0, 0x00, 0x01, 0xC1, 0x00, 0x00, 0xE1, 0x00, 0xF0, 0x00,
    ];
    for &(stream_type, pid, desc) in streams {
        s.extend([stream_type, 0xE0 | (pid >> 8) as u8, pid as u8]);
        s.extend([0xF0 | (desc.len() >> 8) as u8, desc.len() as u8]);
        s.extend_from_slice(desc);
    }
    s.extend([0, 0, 0, 0]);
    let len = s.len() - 3;
    s[1] = 0xB0 | (len >> 8) as u8;
    s[2] = len as u8;
    s
}

/// A PMT in one packet.
fn pmt_with(pmt_pid: u16, streams: &[(u8, u16, &[u8])]) -> Vec<u8> {
    let s = pmt_section(streams);
    assert!(s.len() <= PACKET - 5, "use pmt_packets for a long PMT");
    packet(pmt_pid, true, None, &[&[0u8][..], &s].concat())
}

/// A PMT spread over as many packets as it needs.
fn pmt_packets(pmt_pid: u16, streams: &[(u8, u16, &[u8])]) -> Vec<u8> {
    let s = [&[0u8][..], &pmt_section(streams)].concat();
    let mut out = Vec::new();
    for (n, chunk) in s.chunks(PACKET - 4).enumerate() {
        out.extend(packet(pmt_pid, n == 0, None, chunk));
    }
    out
}

fn pmt(pmt_pid: u16, streams: &[(u8, u16)]) -> Vec<u8> {
    let with: Vec<(u8, u16, &[u8])> = streams.iter().map(|&(t, p)| (t, p, &[][..])).collect();
    pmt_with(pmt_pid, &with)
}

/// A PES-start packet whose elementary stream begins with `es`. Carries a
/// PTS of 0.
fn pes(pid: u16, rai: Option<bool>, es: &[u8]) -> Vec<u8> {
    pes_at(pid, 0, rai, es)
}

/// A PES-start packet carrying an explicit 90 kHz PTS.
fn pes_at(pid: u16, pts: u64, rai: Option<bool>, es: &[u8]) -> Vec<u8> {
    let p = pts & ((1 << 33) - 1);
    let ts = [
        0x20 | ((p >> 29) & 0x0E) as u8 | 0x01,
        (p >> 22) as u8,
        (((p >> 14) & 0xFE) as u8) | 0x01,
        (p >> 7) as u8,
        (((p << 1) & 0xFE) as u8) | 0x01,
    ];
    let mut payload = vec![0, 0, 1, 0xE0, 0, 0, 0x80, 0x80, 5];
    payload.extend_from_slice(&ts);
    payload.extend_from_slice(es);
    packet(pid, true, rai, &payload)
}

const AUD: [u8; 6] = [0, 0, 0, 1, 0x09, 0xF0];
const SPS: [u8; 8] = [0, 0, 0, 1, 0x67, 0x64, 0x00, 0x1F];
const IDR: [u8; 6] = [0, 0, 0, 1, 0x65, 0x88];
const SLICE: [u8; 6] = [0, 0, 0, 1, 0x41, 0x9A];
const SEI: [u8; 7] = [0, 0, 0, 1, 0x06, 0x01, 0x80];

/// PAT + PMT for an H.264 + AAC program: video on 0x101, audio on 0x102.
fn h264_stream() -> (Scanner, Vec<u8>) {
    let mut data = pat(0x100);
    data.extend(pmt(0x100, &[(0x0F, 0x102), (0x1B, 0x101)]));
    (Scanner::new(), data)
}

fn test_config(encoder_linger: Duration) -> Config {
    Config {
        engine_host: "127.0.0.1:6878".into(),
        frag_duration_ms: None,
        encoder_linger: encoder_linger.as_nanos(),
        engine_linger: 0,
    }
}

fn test_engine() -> EngineStream<&'static str> {
    EngineStream::new("a".repeat(40), 0)
}

/// An encoder with no ffmpeg behind it, for exercising the fan-out policy.
fn test_encoder(fmt: OutputFormat) -> Encoder {
    Encoder::new("a".repeat(40), fmt, 0, TrackMode::Copy, TrackMode::Copy)
}

fn media(len: usize, fragment_start: bool, keyframe: bool) -> mp4::Piece {
    mp4::Piece::Media {
        data: Bytes::from(vec![0xAB; len]),
        fragment_start,
        keyframe,
    }
}

fn sub(enc: &mut Encoder, peer: &str) -> Subscription {
    match enc.subscribe(peer.into(), 0, 0) {
        Join::Joined(s) => s,
        other => panic!("{other:?}"),
    }
}

fn bytes_sent(enc: &Encoder, s: &Subscription) -> u64 {
    enc.bytes_sent(s.id()).unwrap()
}

fn read(enc: &mut Encoder, s: &mut Subscription, max: usize) -> Vec<u8> {
    match s.read(enc, max) {
        Reading::Data(b) => b.to_vec(),
        other => panic!("{other:?}"),
    }
}

fn video_keyframe(pts: u64) -> Vec<u8> {
    pes_at(
        0x101,
        pts,
        None,
        &[AUD.as_slice(), SPS.as_slice(), IDR.as_slice()].concat(),
    )
}

fn video_slice(pts: u64) -> Vec<u8> {
    pes_at(
        0x101,
        pts,
        None,
        &[AUD.as_slice(), SLICE.as_slice()].concat(),
    )
}

#[test]
fn audio_listeners_start_receiving_immediately() {
    let mut enc = test_encoder(OutputFormat::Adts);
    let s = sub(&mut enc, "peer");
    // ADTS is self-synchronising, so there is nothing to wait for.
    enc.fan_out(&media(10, false, false), 0);
    assert_eq!(bytes_sent(&enc, &s), 10);
}

#[test]
fn fmp4_listeners_wait_for_a_keyframe_fragment() {
    let mut enc = test_encoder(OutputFormat::Fmp4);
    enc.publish_init(Bytes::from_static(b"ftypmoov"));
    let s = sub(&mut enc, "peer");

    // Mid-fragment bytes are useless to a client holding only the init
    // segment, so they must be withheld.
    enc.fan_out(&media(10, false, false), 0);
    assert_eq!(bytes_sent(&enc, &s), 0, "mid-fragment data must be held back");

    // So is a fragment that opens mid-GOP: the client would decode garbage
    // until the next keyframe.
    enc.fan_out(&media(15, true, false), 0);
    enc.fan_out(&media(10, false, false), 0);
    assert_eq!(bytes_sent(&enc, &s), 0, "a non-keyframe fragment must be skipped");

    enc.fan_out(&media(20, true, true), 0);
    assert_eq!(bytes_sent(&enc, &s), 20, "must attach at the keyframe moof");

    // Once attached, everything flows, keyframe or not.
    enc.fan_out(&media(5, false, false), 0);
    enc.fan_out(&media(7, true, false), 0);
    assert_eq!(bytes_sent(&enc, &s), 32);
}

#[test]
fn fmp4_subscribe_blocks_until_the_first_fragment_arrives() {
    let mut enc = test_encoder(OutputFormat::Fmp4);
    // Waiting is the whole point: tearing down and retrying would restart
    // ffmpeg and never converge.
    assert!(matches!(
        enc.subscribe("peer".into(), 0, 0),
        Join::Wait(d) if d == INIT_TIMEOUT
    ));
    let waited = Duration::from_millis(150).as_nanos();
    assert!(matches!(
        enc.subscribe("peer".into(), 0, waited),
        Join::Wait(d) if d == INIT_TIMEOUT - waited
    ));
    enc.publish_init(Bytes::from_static(b"ftypmoov"));
    assert!(matches!(
        enc.subscribe("peer".into(), 0, waited),
        Join::Joined(_)
    ));
}

#[test]
fn fmp4_subscribe_fails_fast_once_the_encoder_has_finished() {
    let mut enc = test_encoder(OutputFormat::Fmp4);
    enc.finish();
    // Must not sit out the full INIT_TIMEOUT waiting on a dead encoder.
    assert!(matches!(
        enc.subscribe("peer".into(), 0, 0),
        Join::Refused(e) if e == "encoder stopped before producing a fragment"
    ));
}

#[test]
fn fmp4_subscribe_is_refused_when_the_stream_did_not_parse() {
    let mut enc = test_encoder(OutputFormat::Fmp4);
    // Init was cached before the structure broke. Serving it anyway would
    // leave the joiner waiting forever for a boundary that never comes.
    enc.publish_init(Bytes::from_static(b"ftypmoov"));
    enc.refuse_joiners();
    assert!(matches!(
        enc.subscribe("peer".into(), 0, 0),
        Join::Refused(e) if e == "stream is not valid fragmented mp4"
    ));
}

#[test]
fn a_listener_with_too_much_backlog_is_evicted_rather_than_blocking_the_others() {
    let mut enc = test_encoder(OutputFormat::Adts);
    let _slow = sub(&mut enc, "slow");
    let _fast = sub(&mut enc, "fast");
    assert_eq!(enc.listener_count(), 2);

    // Neither reads, so both back up. A shared producer must not block on
    // its slowest consumer.
    let piece = media(1024 * 1024, true, true);
    for _ in 0..(SUB_MAX_BYTES / (1024 * 1024) + 1) {
        enc.fan_out(&piece, 0);
    }
    assert_eq!(enc.listener_count(), 0, "both should have been evicted");
}

#[test]
fn a_listener_that_keeps_up_is_never_evicted_on_bytes_alone() {
    let mut enc = test_encoder(OutputFormat::Adts);
    let mut s = sub(&mut enc, "peer");
    let piece = media(1024 * 1024, true, true);
    for _ in 0..(SUB_MAX_BYTES / (1024 * 1024) * 3) {
        enc.fan_out(&piece, 0);
        assert_eq!(read(&mut enc, &mut s, 1024 * 1024).len(), 1024 * 1024);
    }
    assert_eq!(enc.listener_count(), 1);
}

#[test]
fn dropping_a_subscription_deregisters_its_listener() {
    let mut enc = test_encoder(OutputFormat::Adts);
    let a = sub(&mut enc, "a");
    let b = sub(&mut enc, "b");
    assert_eq!(enc.listener_count(), 2);
    assert!(!enc.remove_listener(a.id()));
    assert_eq!(enc.listener_count(), 1);
    assert!(enc.remove_listener(b.id()));
    assert_eq!(enc.listener_count(), 0);
}

#[test]
fn the_last_listener_leaving_lingers_the_encoder() {
    let config = test_config(Duration::from_millis(100));
    let mut enc = test_encoder(OutputFormat::Adts);
    let a = sub(&mut enc, "a");
    let b = sub(&mut enc, "b");
    let last = enc.remove_listener(a.id());
    assert_eq!(
        linger(config.encoder_linger, last),
        None,
        "not the last to leave: no linger"
    );
    let last = enc.remove_listener(b.id());
    assert_eq!(
        linger(config.encoder_linger, last),
        Some(Duration::from_millis(100).as_nanos())
    );
    assert!(enc.lingering());
    // A rejoin within the linger finds the same encoder, still registered.
    let _c = sub(&mut enc, "c");
    assert!(!enc.lingering());
}

#[test]
fn no_linger_when_disabled() {
    let config = test_config(Duration::ZERO);
    let mut enc = test_encoder(OutputFormat::Adts);
    let a = sub(&mut enc, "a");
    let last = enc.remove_listener(a.id());
    assert!(last);
    assert_eq!(linger(config.encoder_linger, last), None);
}

#[test]
fn subscription_read_hands_back_partial_chunks() {
    let mut enc = test_encoder(OutputFormat::Adts);
    let mut s = sub(&mut enc, "peer");
    enc.fan_out(&media(10, true, true), 0);

    // The request thread reads with whatever buffer it likes; a chunk larger
    // than the buffer must be handed out across successive reads.
    let mut total = 0;
    for _ in 0..4 {
        let n = read(&mut enc, &mut s, 3).len();
        total += n;
        if total == 10 {
            break;
        }
    }
    assert_eq!(total, 10);
}

#[test]
fn subscription_read_ends_cleanly_when_the_encoder_stops() {
    let mut enc = test_encoder(OutputFormat::Adts);
    let mut s = sub(&mut enc, "peer");
    // Dropping every listener handle closes the channel.
    enc.remove_listener(s.id());
    assert!(
        matches!(s.read(&mut enc, 8), Reading::End),
        "must EOF, not error"
    );
}

#[test]
fn fmp4_listeners_receive_the_init_segment_first() {
    let mut enc = test_encoder(OutputFormat::Fmp4);
    enc.publish_init(Bytes::from_static(b"ftypmoov"));
    let mut s = sub(&mut enc, "peer");
    enc.fan_out(&media(4, true, true), 0);

    assert_eq!(
        read(&mut enc, &mut s, 8),
        b"ftypmoov",
        "init segment must precede all media"
    );
}

#[test]
fn encoder_deregisters_itself_from_the_engine_on_drop() {
    let mut engine = test_engine();
    engine.ready(Probe::default());
    let started = engine.start_encoder(OutputFormat::Adts, 7, "feed", 0, None);
    assert!(started.is_ok());
    assert_eq!(engine.encoders().get(OutputFormat::Adts), Some(&"feed"));
    assert!(!engine.lingering());

    assert!(engine.release_encoder(OutputFormat::Adts, 7));
    assert!(engine.encoders().is_empty());
    assert!(engine.lingering());
}

#[test]
fn the_last_encoder_leaving_lingers_the_engine() {
    let config = Config {
        engine_host: "127.0.0.1:6878".into(),
        frag_duration_ms: None,
        encoder_linger: 0,
        engine_linger: Duration::from_millis(100).as_nanos(),
    };
    let mut engine = test_engine();
    engine.ready(Probe::default());
    assert!(engine
        .start_encoder(OutputFormat::Adts, 0, "feed", 0, None)
        .is_ok());
    let last = engine.release_encoder(OutputFormat::Adts, 0);
    assert_eq!(
        linger(config.engine_linger, last),
        Some(Duration::from_millis(100).as_nanos()),
        "the pull is held"
    );
}

#[test]
fn backpressure_gives_up_only_without_progress() {
    let mut b = Backpressure::new(0, 0);
    // A full queue that is draining must never trip the stall: simulate a
    // feeder that makes progress and frees a slot shortly.
    assert_eq!(b.on(Attempt::Full, 0, TS_STALL - 1), None);
    assert_eq!(b.on(Attempt::Full, 1, TS_STALL), None, "progress");
    assert_eq!(b.on(Attempt::Full, 1, 2 * TS_STALL - 1), None);
    assert_eq!(b.on(Attempt::Sent, 1, 2 * TS_STALL - 1), Some(Ok(())));

    let mut b = Backpressure::new(5, 10);
    assert_eq!(b.on(Attempt::Full, 5, 10 + TS_STALL - 1), None);
    assert_eq!(
        b.on(Attempt::Full, 5, 10 + TS_STALL),
        Some(Err("stopped consuming input"))
    );
}

#[test]
fn backpressure_reports_a_gone_encoder() {
    let mut b = Backpressure::new(0, 0);
    assert_eq!(b.on(Attempt::Gone, 0, 0), Some(Err("gone")));
}

#[test]
fn wait_video_prime_does_not_block_audio_or_a_video_less_source() {
    let engine = test_engine(); // empty replay: no video track known
    assert_eq!(engine.wait_video_prime(OutputFormat::Fmp4), None);
    assert_eq!(engine.wait_video_prime(OutputFormat::Adts), None);
}

#[test]
fn wait_video_prime_is_skipped_once_an_encoder_exists() {
    let mut engine = test_engine();
    let (_, tables) = h264_stream();
    engine.feed(Bytes::from(tables));
    engine.ready(Probe::default());
    assert_eq!(engine.wait_video_prime(OutputFormat::Fmp4), Some(None));
    assert!(engine
        .start_encoder(OutputFormat::Fmp4, 0, "feed", 0, None)
        .is_ok());
    // warm: reused as-is
    assert_eq!(engine.wait_video_prime(OutputFormat::Fmp4), None);
}

#[test]
fn wait_video_prime_returns_at_once_when_the_window_can_prime() {
    let mut engine = test_engine();
    let (_, tables) = h264_stream();
    engine.feed(Bytes::from(tables));
    engine.feed(Bytes::from(video_keyframe(0)));
    // Live edge well past PRIME_CONTENT behind a keyframe.
    engine.feed(Bytes::from(video_slice(3 * 90_000)));
    assert!(engine.replay().video_prime_ready(PRIME_CONTENT));
    let base = engine.wait_video_prime(OutputFormat::Fmp4).unwrap();
    assert_eq!(base, Some(3 * 90_000));
    assert_eq!(engine.video_prime_left(base, 0), None, "already primeable");
}

#[test]
fn wait_video_prime_gives_up_quickly_on_a_real_time_source() {
    let mut engine = test_engine();
    // A video track and a keyframe, but no content after it, and no
    // more arriving: the burst check must abandon the wait fast.
    let (_, tables) = h264_stream();
    engine.feed(Bytes::from(tables));
    engine.feed(Bytes::from(video_keyframe(0)));
    assert!(engine.replay().has_video());
    assert!(!engine.replay().video_prime_ready(PRIME_CONTENT));
    let base = engine.wait_video_prime(OutputFormat::Fmp4).unwrap();
    let mut waited = 0;
    while let Some(d) = engine.video_prime_left(base, waited) {
        waited += d;
    }
    assert!(waited >= BURST_SAMPLE, "samples the fill rate first");
    assert!(
        waited < PRIME_WAIT,
        "but does not sit out the full cap: {waited:?}"
    );
}

#[test]
fn dead_stream_entries_are_swept() {
    let mut reg: Registry<u32> = Registry::new();
    reg.engine_stream("dead", &vec![], 1);
    reg.engine_stream("gone", &vec![true], 2);
    // A live pull is joined rather than replaced.
    assert!(!reg.engine_stream("dead", &vec![true, true], 9));
    assert_eq!(reg.find("dead"), Some(&1));
    // Starting a fresh id sweeps the dead entries first.
    let id = "b".repeat(40);
    assert_eq!(reg.find(&id), None);
    assert!(reg.engine_stream(&id, &vec![false, false], 3));
    assert_eq!(reg.find("dead"), None);
    assert_eq!(reg.find("gone"), None);
    assert_eq!(reg.find(&id), Some(&3));
    assert_eq!(reg.entries().len(), 1);
}

// -- listeners ----------------------------------------------------------------

#[test]
fn a_listener_that_lags_is_evicted_and_reported() {
    let mut enc = test_encoder(OutputFormat::Adts);
    let mut slow = sub(&mut enc, "slow");
    let mut fast = sub(&mut enc, "fast");
    assert!(enc.fan_out(&media(2048, true, true), 1_000).is_empty());
    assert_eq!(read(&mut enc, &mut fast, 4096).len(), 2048);
    // Exactly at the bound nobody is cut off.
    let at = 1_000 + SUB_MAX_LAG;
    assert!(enc.fan_out(&media(1, true, true), at).is_empty());
    assert_eq!(read(&mut enc, &mut fast, 4096).len(), 1);
    let cut = enc.fan_out(&media(1, true, true), at + 1);
    assert_eq!(cut.len(), 1);
    assert_eq!(cut[0].peer, "slow");
    assert_eq!(cut[0].id, slow.id());
    assert_eq!(cut[0].behind, SUB_MAX_LAG + 1);
    assert_eq!(cut[0].queued, 2049);
    assert_eq!(enc.listener_count(), 1);
    // What it was sent is still its own; then the response ends.
    assert_eq!(read(&mut enc, &mut slow, 4096).len(), 2048);
    assert_eq!(read(&mut enc, &mut slow, 4096).len(), 1);
    assert!(matches!(slow.read(&mut enc, 4096), Reading::End));
    // The other lost nothing, and waits for more.
    assert_eq!(read(&mut enc, &mut fast, 4096).len(), 1);
    assert!(matches!(fast.read(&mut enc, 4096), Reading::Wait));
}

#[test]
fn a_joiner_gets_every_byte_from_its_join_point_in_order() {
    let mut enc = test_encoder(OutputFormat::Fmp4);
    enc.publish_init(Bytes::from_static(b"init"));
    let mut s = sub(&mut enc, "peer");
    let piece = |byte: u8, start: bool, key: bool| mp4::Piece::Media {
        data: Bytes::from(vec![byte; 3]),
        fragment_start: start,
        keyframe: key,
    };
    let mut got = Vec::new();
    for (n, p) in [
        piece(b'a', false, false),
        piece(b'b', true, true),
        piece(b'c', false, false),
        piece(b'd', true, false),
    ]
    .iter()
    .enumerate()
    {
        enc.fan_out(p, n as u64);
        if n % 2 == 0 {
            got.extend(read(&mut enc, &mut s, 2));
        }
    }
    while let Reading::Data(b) = s.read(&mut enc, 5) {
        got.extend_from_slice(&b);
    }
    assert_eq!(got, b"initbbbcccddd");
}

#[test]
fn listener_info_reports_seconds_and_bytes() {
    let mut enc = test_encoder(OutputFormat::Mp3);
    let _a = match enc.subscribe("a:1".into(), 2_000_000_000, 0) {
        Join::Joined(s) => s,
        other => panic!("{other:?}"),
    };
    let _b = sub(&mut enc, "b:2");
    enc.fan_out(&media(7, true, true), 2_000_000_001);
    assert_eq!(
        enc.listener_info(5_999_999_999),
        vec![("a:1".to_string(), 3, 7), ("b:2".to_string(), 5, 7)]
    );
}

// -- output -------------------------------------------------------------------

fn box_of(kind: &[u8; 4], body: &[u8]) -> Vec<u8> {
    let mut v = ((8 + body.len()) as u32).to_be_bytes().to_vec();
    v.extend_from_slice(kind);
    v.extend_from_slice(body);
    v
}

#[test]
fn draining_fmp4_caches_the_init_segment_and_serves_late_joiners() {
    let mut enc = test_encoder(OutputFormat::Fmp4);
    let init = [box_of(b"ftyp", b"isom"), box_of(b"moov", &[0xAA; 16])].concat();
    let frag = [box_of(b"moof", &[0xBB; 8]), box_of(b"mdat", &[0xCC; 9])].concat();
    let d = enc.drain(Bytes::from(init.clone()), 0);
    assert!(!d.changed && d.evicted.is_empty());
    assert!(matches!(enc.await_init_segment(0), Init::Wait(_)));
    let d = enc.drain(Bytes::from(frag.clone()), 1);
    assert!(d.changed, "joiners should look again");
    assert!(matches!(enc.await_init_segment(0), Init::Ready(b) if b == init));
    let d = enc.drain(Bytes::from(frag.clone()), 2);
    assert!(!d.changed, "only once");

    let mut s = sub(&mut enc, "late");
    enc.drain(Bytes::from(frag.clone()), 3);
    let mut got = Vec::new();
    while let Reading::Data(b) = s.read(&mut enc, 64) {
        got.extend_from_slice(&b);
    }
    assert_eq!(got, [init.clone(), frag.clone()].concat());
    assert_eq!(enc.bytes_out(), (init.len() + 3 * frag.len()) as u64);
}

#[test]
fn draining_garbage_refuses_late_joiners() {
    let mut enc = test_encoder(OutputFormat::Fmp4);
    let d = enc.drain(Bytes::from_static(b"this is not an mp4 at all"), 0);
    assert!(d.changed);
    assert!(matches!(
        enc.await_init_segment(0),
        Init::Refused(e) if e == "stream is not valid fragmented mp4"
    ));
    assert!(!enc.drain(Bytes::from_static(b"more"), 0).changed);
}

#[test]
fn draining_audio_hands_every_chunk_on() {
    let mut enc = test_encoder(OutputFormat::Adts);
    let mut s = sub(&mut enc, "peer");
    enc.drain(Bytes::from_static(b"abc"), 0);
    enc.drain(Bytes::from_static(b"de"), 0);
    assert_eq!(read(&mut enc, &mut s, 64), b"abc");
    assert_eq!(read(&mut enc, &mut s, 64), b"de");
    assert_eq!(enc.bytes_out(), 5);
    assert!(!enc.finished());
    enc.finish();
    assert!(enc.finished());
}

#[test]
fn an_init_segment_that_never_comes_is_given_up_on() {
    let mut enc = test_encoder(OutputFormat::Fmp4);
    assert!(matches!(
        enc.subscribe("p".into(), 0, INIT_TIMEOUT - 1),
        Join::Wait(1)
    ));
    assert!(matches!(
        enc.subscribe("p".into(), 0, INIT_TIMEOUT),
        Join::Refused(e) if e == "no fragment within 30s; the source keyframe interval may exceed it"
    ));
    assert_eq!(enc.listener_count(), 0);
    assert!(enc.has_room());
}

// -- pulls --------------------------------------------------------------------

#[test]
fn an_encoder_gives_up_its_own_slot_only() {
    let mut slots: Slots<u8> = Slots::new();
    slots.register(OutputFormat::Adts, 1, 10);
    slots.register(OutputFormat::Fmp4, 2, 20);
    // A replacement takes the slot before the old encoder is gone.
    slots.register(OutputFormat::Adts, 3, 30);
    assert!(!slots.release(OutputFormat::Adts, 1));
    assert_eq!(slots.get(OutputFormat::Adts), Some(&30));
    assert!(!slots.release(OutputFormat::Adts, 3));
    assert_eq!(slots.get(OutputFormat::Adts), None);
    assert_eq!(slots.serial(OutputFormat::Fmp4), Some(2));
    assert!(slots.release(OutputFormat::Fmp4, 2), "the last one");
    assert!(!slots.remove(OutputFormat::Mp3));
}

#[test]
fn a_request_waits_for_the_pull_to_come_up() {
    let mut engine = test_engine();
    assert!(matches!(engine.wait_ready(0), Ready::Wait(d) if d == START_TIMEOUT));
    assert!(matches!(engine.wait_ready(START_TIMEOUT - 5), Ready::Wait(5)));
    assert!(matches!(
        engine.wait_ready(START_TIMEOUT),
        Ready::Failed(e) if e == "timed out waiting for the engine stream to start"
    ));
    engine.publish(Err("no peers".into()));
    assert!(matches!(engine.wait_ready(0), Ready::Failed(e) if e == "no peers"));
    engine.publish(Ok(()));
    assert!(matches!(engine.wait_ready(START_TIMEOUT), Ready::Up));
}

#[test]
fn an_encoder_is_started_from_the_window_and_the_probe() {
    let mut engine = test_engine();
    assert_eq!(
        engine
            .start_encoder(OutputFormat::Fmp4, 0, "f", 0, Some(1000))
            .err()
            .unwrap(),
        "engine stream has no probe result"
    );
    assert!(engine.lingering());
    let (_, tables) = h264_stream();
    let key = video_keyframe(0);
    engine.feed(Bytes::from(tables));
    engine.feed(Bytes::from(key.clone()));
    engine.ready(Probe {
        video: Some("h264".into()),
        audio: Some("ac3".into()),
    });
    let s = engine
        .start_encoder(OutputFormat::Fmp4, 4, "f", 9, Some(1000))
        .ok()
        .unwrap();
    assert!(s.primed.from_keyframe);
    assert_eq!(s.primed.data, key);
    assert_eq!(s.plan.audio, TrackMode::Transcode);
    assert!(s.plan.args.iter().any(|a| a == "2000000"), "short analysis");
    assert_eq!(s.encoder.fmt(), OutputFormat::Fmp4);
    assert_eq!(s.encoder.started(), 9);
    assert_eq!(s.encoder.modes(), (TrackMode::Copy, TrackMode::Transcode));
    assert_eq!(s.encoder.content_id().as_str(), "a".repeat(40));
    assert_eq!(engine.encoders().serial(OutputFormat::Fmp4), Some(4));
    assert_eq!(
        engine.start_failed(OutputFormat::Fmp4, "No such file"),
        "could not start ffmpeg: No such file"
    );
    assert!(engine.lingering());
    assert_eq!(engine.bytes_in(), 3 * 188);
}

#[test]
fn tearing_down_is_reported_unless_the_encoder_is_gone() {
    let mut engine = test_engine();
    engine.ready(Probe::default());
    for (reason, reported) in [("gone", false), ("stopped consuming input", true)] {
        assert!(engine
            .start_encoder(OutputFormat::Mp3, 0, "f", 0, None)
            .is_ok());
        assert_eq!(engine.tear_down(OutputFormat::Mp3, reason), reported);
        assert!(engine.lingering());
    }
    assert!(!engine.tear_down(OutputFormat::Mp3, "stopped consuming input"));
}

#[test]
fn a_finished_encoder_is_replaced() {
    assert!(needs_start(None));
    assert!(needs_start(Some(true)));
    assert!(!needs_start(Some(false)));
}

fn opened() -> Puller {
    let mut p = Puller::new();
    assert!(matches!(p.on(Event::Opened), Next::Connect));
    assert!(matches!(p.on(Event::Answered(200)), Next::Register));
    assert!(matches!(p.on(Event::Registered), Next::Read));
    p
}

#[test]
fn a_pull_identifies_its_source_from_the_pmt() {
    let mut engine = test_engine();
    let mut p = opened();
    let (_, tables) = h264_stream();
    let first = Bytes::copy_from_slice(&tables[..188]);
    assert!(matches!(p.on_data(&mut engine, first), Next::Read));
    match p.on_data(&mut engine, Bytes::copy_from_slice(&tables[188..])) {
        Next::Ready(probe, how) => {
            assert_eq!(probe.video.as_deref(), Some("h264"));
            assert_eq!(probe.audio.as_deref(), Some("aac"));
            assert_eq!(how, "from the PMT, 376 bytes in");
            engine.ready(probe);
        }
        other => panic!("{other:?}"),
    }
    assert!(p.streaming());
    assert_eq!(engine.bytes_in(), 376);
    assert!(matches!(
        p.on_data(&mut engine, Bytes::from(video_keyframe(0))),
        Next::Deliver
    ));
    assert_eq!(engine.bytes_in(), 564);
    assert!(matches!(p.on(Event::Closed), Next::Over(None, true)));
}

#[test]
fn a_source_without_a_name_is_probed_over_the_preroll() {
    let mut engine = test_engine();
    let mut p = opened();
    let chunk = vec![0u8; PREROLL - 1];
    assert!(matches!(
        p.on_data(&mut engine, Bytes::from(chunk.clone())),
        Next::Read
    ));
    assert!(matches!(
        p.on_data(&mut engine, Bytes::from(vec![1u8; 10])),
        Next::RunProbe
    ));
    assert_eq!(p.preroll().len(), PREROLL + 9);
    let probe = Probe {
        video: None,
        audio: Some("opus".into()),
    };
    match p.on(Event::Probed(Ok(probe))) {
        Next::Ready(probe, how) => {
            assert_eq!(probe.audio.as_deref(), Some("opus"));
            assert_eq!(how, format!("ffprobe over {} bytes", PREROLL + 9));
        }
        other => panic!("{other:?}"),
    }
}

#[test]
fn each_failure_to_start_is_published_and_stops_the_session() {
    let over = |next: Next| match next {
        Next::Over(why, stop) => (why.unwrap_or_default(), stop),
        other => panic!("{other:?}"),
    };
    let mut p = Puller::new();
    assert_eq!(
        over(p.on(Event::OpenFailed("refused".into()))),
        ("refused".to_string(), false)
    );
    let connecting = || {
        let mut p = Puller::new();
        p.on(Event::Opened);
        p
    };
    assert_eq!(
        over(connecting().on(Event::Answered(503))),
        ("engine returned http 503".to_string(), true)
    );
    assert_eq!(
        over(connecting().on(Event::Unreachable("timeout".into()))),
        ("could not open engine stream: timeout".to_string(), true)
    );
    let mut p = connecting();
    p.on(Event::Answered(200));
    assert_eq!(over(p.on(Event::Gone)), (String::new(), true));
    assert_eq!(
        over(opened().on(Event::Gone)),
        ("stream torn down during startup".to_string(), true)
    );
    assert_eq!(
        over(opened().on(Event::Closed)),
        (
            "engine stream ended before sending anything".to_string(),
            true
        )
    );
    assert_eq!(
        over(opened().on(Event::ReadFailed("reset".into()))),
        (
            "engine stream failed during preroll: reset".to_string(),
            true
        )
    );
    let mut engine = test_engine();
    let mut p = opened();
    p.on_data(&mut engine, Bytes::from_static(b"x"));
    assert!(matches!(p.on(Event::Closed), Next::RunProbe));
    assert_eq!(
        over(p.on(Event::Probed(Err("no streams".into())))),
        ("could not probe stream: no streams".to_string(), true)
    );
}

#[test]
fn a_burst_is_waited_for_and_a_trickle_is_not() {
    let mut engine = test_engine();
    let (_, tables) = h264_stream();
    engine.feed(Bytes::from(tables));
    engine.feed(Bytes::from(video_keyframe(0)));
    let base = engine.wait_video_prime(OutputFormat::Fmp4).unwrap();
    assert_eq!(base, Some(0));
    assert_eq!(engine.video_prime_left(base, 0), Some(BURST_SAMPLE));
    // One second of content in 150 ms: a burst.
    engine.feed(Bytes::from(video_slice(90_000)));
    assert_eq!(
        engine.video_prime_left(base, BURST_SAMPLE),
        Some(BURST_SAMPLE)
    );
    assert_eq!(
        engine.video_prime_left(base, 1_000_000_000),
        None,
        "no faster than real time"
    );
    assert_eq!(engine.video_prime_left(base, PRIME_WAIT), None);
}

#[test]
fn names_for_threads_and_sessions() {
    assert_eq!(short("0123456789"), "01234567");
    assert_eq!(short("abc"), "abc");
    assert_eq!(short(""), "");
    assert_eq!(short("12345678"), "12345678");
    assert_eq!(short(&"\u{e9}".repeat(5)), "\u{e9}".repeat(4));
    assert_eq!(now_pid(0), "proxy-0");
    assert_eq!(now_pid(0xDEAD_BEEF_0123), "proxy-deadbeef0123");
    assert_eq!(now_pid(u128::MAX), format!("proxy-{:x}", u128::MAX));
}

#[test]
fn a_stream_is_found_while_it_lives_and_replaced_when_it_does_not() {
    let mut reg: Registry<u32> = Registry::new();
    reg.engine_stream("x", &vec![], 1);
    reg.engine_stream("y", &vec![true], 2);
    assert_eq!(reg.find("x"), Some(&1));
    assert_eq!(reg.find("y"), Some(&2));
    // x has died; a new pull for it takes its place.
    reg.engine_stream("x", &vec![false, true], 3);
    assert_eq!(reg.find("x"), Some(&3));
    let ids: Vec<&str> = reg.entries().iter().map(|e| e.0.as_str()).collect();
    assert_eq!(ids, ["y", "x"]);
}
