use acestream_proxy::ts::pes::keyframe;
use acestream_proxy::ts::psi::Section;
use acestream_proxy::ts::{Codec, Keyframe, Program, Scanner, PACKET, SYNC};

/// One transport packet. `rai` adds an adaptation field carrying that flag.
fn packet(pid: u16, pusi: bool, rai: Option<bool>, payload: &[u8]) -> Vec<u8> {
    let mut p = vec![SYNC, (pid >> 8) as u8 & 0x1F, pid as u8, 0x10];
    if pusi {
        p[1] |= 0x40;
    }
    let body = match rai {
        Some(flag) => {
            p[3] = 0x30;
            // Adaptation field padded so the payload exactly fills the packet.
            let af_len = PACKET - 4 - 1 - payload.len();
            let mut af = vec![af_len as u8, if flag { 0x40 } else { 0x00 }];
            af.resize(1 + af_len, 0xFF);
            [af, payload.to_vec()].concat()
        }
        None => {
            let mut v = payload.to_vec();
            v.resize(PACKET - 4, 0xFF);
            v
        }
    };
    p.extend(body);
    assert_eq!(p.len(), PACKET);
    p
}

fn pat(pmt_pid: u16) -> Vec<u8> {
    let mut s = vec![0x00, 0xB0, 13, 0x00, 0x01, 0xC1, 0x00, 0x00];
    s.extend([0x00, 0x01, 0xE0 | (pmt_pid >> 8) as u8, pmt_pid as u8]);
    s.extend([0, 0, 0, 0]); // crc, unchecked
    packet(0, true, None, &[&[0u8][..], &s].concat())
}

/// A PMT section (not yet packetised) listing `streams` as
/// `(stream_type, pid, descriptors)`.
fn pmt_section(streams: &[(u8, u16, &[u8])]) -> Vec<u8> {
    let mut s = vec![
        0x02, 0xB0, 0, 0x00, 0x01, 0xC1, 0x00, 0x00, 0xE1, 0x00, 0xF0, 0x00,
    ];
    for &(stream_type, pid, desc) in streams {
        s.extend([stream_type, 0xE0 | (pid >> 8) as u8, pid as u8]);
        s.extend([0xF0 | (desc.len() >> 8) as u8, desc.len() as u8]);
        s.extend_from_slice(desc);
    }
    s.extend([0, 0, 0, 0]);
    let len = s.len() - 3;
    s[1] = 0xB0 | (len >> 8) as u8;
    s[2] = len as u8;
    s
}

/// A PMT in one packet.
fn pmt_with(pmt_pid: u16, streams: &[(u8, u16, &[u8])]) -> Vec<u8> {
    let s = pmt_section(streams);
    assert!(s.len() <= PACKET - 5, "use pmt_packets for a long PMT");
    packet(pmt_pid, true, None, &[&[0u8][..], &s].concat())
}

/// A PMT spread over as many packets as it needs.
fn pmt_packets(pmt_pid: u16, streams: &[(u8, u16, &[u8])]) -> Vec<u8> {
    let s = [&[0u8][..], &pmt_section(streams)].concat();
    let mut out = Vec::new();
    for (n, chunk) in s.chunks(PACKET - 4).enumerate() {
        out.extend(packet(pmt_pid, n == 0, None, chunk));
    }
    out
}

fn pmt(pmt_pid: u16, streams: &[(u8, u16)]) -> Vec<u8> {
    let with: Vec<(u8, u16, &[u8])> = streams.iter().map(|&(t, p)| (t, p, &[][..])).collect();
    pmt_with(pmt_pid, &with)
}

/// A PES-start packet whose elementary stream begins with `es`. Carries a
/// PTS of 0.
fn pes(pid: u16, rai: Option<bool>, es: &[u8]) -> Vec<u8> {
    pes_at(pid, 0, rai, es)
}

/// A PES-start packet carrying an explicit 90 kHz PTS.
fn pes_at(pid: u16, pts: u64, rai: Option<bool>, es: &[u8]) -> Vec<u8> {
    let p = pts & ((1 << 33) - 1);
    let ts = [
        0x20 | ((p >> 29) & 0x0E) as u8 | 0x01,
        (p >> 22) as u8,
        (((p >> 14) & 0xFE) as u8) | 0x01,
        (p >> 7) as u8,
        (((p << 1) & 0xFE) as u8) | 0x01,
    ];
    let mut payload = vec![0, 0, 1, 0xE0, 0, 0, 0x80, 0x80, 5];
    payload.extend_from_slice(&ts);
    payload.extend_from_slice(es);
    packet(pid, true, rai, &payload)
}

const AUD: [u8; 6] = [0, 0, 0, 1, 0x09, 0xF0];
const SPS: [u8; 8] = [0, 0, 0, 1, 0x67, 0x64, 0x00, 0x1F];
const IDR: [u8; 6] = [0, 0, 0, 1, 0x65, 0x88];
const SLICE: [u8; 6] = [0, 0, 0, 1, 0x41, 0x9A];
const SEI: [u8; 7] = [0, 0, 0, 1, 0x06, 0x01, 0x80];

/// PAT + PMT for an H.264 + AAC program: video on 0x101, audio on 0x102.
fn h264_stream() -> (Scanner, Vec<u8>) {
    let mut data = pat(0x100);
    data.extend(pmt(0x100, &[(0x0F, 0x102), (0x1B, 0x101)]));
    (Scanner::new(), data)
}

/// The keyframe offsets, for the many tests that only care where they fell.
fn ats(kfs: Vec<Keyframe>) -> Vec<u64> {
    kfs.iter().map(|k| k.at).collect()
}

fn program_of(data: &[u8]) -> Option<Program> {
    let mut s = Scanner::new();
    s.feed(data);
    s.program()
}

fn named(video: Option<&'static str>, audio: Option<&'static str>) -> Option<Program> {
    Some(Program { video, audio })
}

// -- keyframes ------------------------------------------------------------

#[test]
fn finds_h264_keyframes_by_sps_or_idr() {
    let (mut s, mut data) = h264_stream();
    let at_sps = data.len() as u64;
    data.extend(pes(
        0x101,
        None,
        &[AUD.as_slice(), SPS.as_slice(), IDR.as_slice()].concat(),
    ));
    data.extend(pes(
        0x101,
        None,
        &[AUD.as_slice(), SLICE.as_slice()].concat(),
    ));
    data.extend(packet(0x101, false, None, &[0xAA; 100]));
    let at_idr = data.len() as u64;
    data.extend(pes(
        0x101,
        None,
        &[AUD.as_slice(), SEI.as_slice(), IDR.as_slice()].concat(),
    ));
    assert_eq!(ats(s.feed(&data)), vec![at_sps, at_idr]);
    assert_eq!(s.video_codec(), Some(Codec::H264));
}

#[test]
fn tracks_video_pts_and_tags_keyframes() {
    let (mut s, mut data) = h264_stream();
    assert_eq!(s.latest_video_pts(), None);
    let at = data.len() as u64;
    // A keyframe at 10 s, then a non-keyframe slice at 11 s.
    data.extend(pes_at(
        0x101,
        900_000,
        None,
        &[AUD.as_slice(), SPS.as_slice(), IDR.as_slice()].concat(),
    ));
    data.extend(pes_at(
        0x101,
        990_000,
        None,
        &[AUD.as_slice(), SLICE.as_slice()].concat(),
    ));
    assert_eq!(
        s.feed(&data),
        vec![Keyframe {
            at,
            pts: Some(900_000)
        }]
    );
    assert_eq!(
        s.latest_video_pts(),
        Some(990_000),
        "the clock advances past the keyframe"
    );
}

#[test]
fn pts_survives_a_33_bit_value() {
    let (mut s, mut data) = h264_stream();
    let big = (1u64 << 33) - 1;
    data.extend(pes_at(
        0x101,
        big,
        None,
        &[AUD.as_slice(), SPS.as_slice(), IDR.as_slice()].concat(),
    ));
    assert_eq!(s.feed(&data).first().and_then(|k| k.pts), Some(big));
}

#[test]
fn audio_pts_does_not_touch_the_video_clock() {
    let (mut s, mut data) = h264_stream();
    data.extend(pes_at(0x102, 5_000_000, None, &[0xFF; 8]));
    s.feed(&data);
    assert_eq!(s.latest_video_pts(), None, "only the video PID sets it");
}

#[test]
fn a_video_pes_without_a_pts_flag_tags_the_keyframe_none() {
    let (mut s, mut data) = h264_stream();
    // PES-start with PTS_DTS_flags clear and no optional fields.
    let mut payload = vec![0, 0, 1, 0xE0, 0, 0, 0x80, 0x00, 0];
    payload.extend_from_slice(&[AUD.as_slice(), SPS.as_slice(), IDR.as_slice()].concat());
    let at = data.len() as u64;
    data.extend(packet(0x101, true, None, &payload));
    assert_eq!(s.feed(&data), vec![Keyframe { at, pts: None }]);
    assert_eq!(s.latest_video_pts(), None);
}

#[test]
fn has_video_reflects_the_pmt() {
    let mut s = Scanner::new();
    assert!(!s.has_video());
    let (_, data) = h264_stream();
    s.feed(&data);
    assert!(s.has_video());

    let mut s = Scanner::new();
    s.feed(&pat(0x100));
    s.feed(&pmt(0x100, &[(0x0F, 0x102)]));
    assert!(!s.has_video(), "an audio-only program has no video");
}

#[test]
fn rai_does_not_override_a_visible_non_idr_slice() {
    let (mut s, mut data) = h264_stream();
    // A muxer that flags every PES as random access must not fool us.
    data.extend(pes(
        0x101,
        Some(true),
        &[AUD.as_slice(), SLICE.as_slice()].concat(),
    ));
    assert!(s.feed(&data).is_empty());
}

#[test]
fn rai_decides_when_the_packet_is_inconclusive() {
    let (mut s, mut data) = h264_stream();
    // Only an AUD and a SEI fit in the first packet: the slice comes later.
    let at = data.len() as u64;
    data.extend(pes(
        0x101,
        Some(true),
        &[AUD.as_slice(), SEI.as_slice()].concat(),
    ));
    data.extend(pes(
        0x101,
        Some(false),
        &[AUD.as_slice(), SEI.as_slice()].concat(),
    ));
    assert_eq!(ats(s.feed(&data)), vec![at]);
}

#[test]
fn ignores_audio_and_unknown_pids() {
    let (mut s, mut data) = h264_stream();
    data.extend(pes(0x102, Some(true), &SPS));
    data.extend(pes(0x200, Some(true), &SPS));
    assert!(s.feed(&data).is_empty());
}

#[test]
fn reports_nothing_before_the_pmt_is_known() {
    let mut s = Scanner::new();
    let pkt = pes(
        0x101,
        Some(true),
        &[SPS.as_slice(), IDR.as_slice()].concat(),
    );
    assert!(s.feed(&pkt).is_empty());
    let (_, tables) = h264_stream();
    s.feed(&tables);
    assert_eq!(ats(s.feed(&pkt)), vec![(tables.len() + PACKET) as u64]);
}

#[test]
fn offsets_are_absolute_across_arbitrary_chunking() {
    let (_, mut data) = h264_stream();
    data.extend(pes(
        0x101,
        None,
        &[AUD.as_slice(), SLICE.as_slice()].concat(),
    ));
    let at = data.len() as u64;
    data.extend(pes(
        0x101,
        None,
        &[AUD.as_slice(), SPS.as_slice(), IDR.as_slice()].concat(),
    ));
    data.extend(packet(0x101, false, None, &[0xAA; 100]));

    for chunk in [1, 7, 100, 187, 188, 189, 1000] {
        let mut s = Scanner::new();
        let found: Vec<u64> = data
            .chunks(chunk)
            .flat_map(|c| s.feed(c))
            .map(|k| k.at)
            .collect();
        assert_eq!(found, vec![at], "chunk size {chunk}");
    }
}

#[test]
fn resynchronises_after_junk_and_a_partial_packet() {
    let (_, tables) = h264_stream();
    let key = pes(
        0x101,
        None,
        &[AUD.as_slice(), SPS.as_slice(), IDR.as_slice()].concat(),
    );
    let mut s = Scanner::new();
    s.feed(&tables);
    // A torn packet, as an engine pull starts with, then a lone sync byte
    // that is not a packet, then a real one.
    let mut data = key[50..].to_vec();
    data.extend([0x47, 0x00, 0x11]);
    let at = data.len() as u64;
    data.extend(&key);
    assert_eq!(ats(s.feed(&data)), vec![tables.len() as u64 + at]);
}

#[test]
fn detects_hevc_and_mpeg2_keyframes() {
    let mut data = pat(0x100);
    data.extend(pmt(0x100, &[(0x24, 0x101)]));
    let at = data.len() as u64;
    // HEVC: VPS (type 32) leads an IRAP access unit; type 1 is a TRAIL_R slice.
    data.extend(pes(0x101, None, &[0, 0, 0, 1, 0x40, 0x01]));
    data.extend(pes(0x101, None, &[0, 0, 0, 1, 0x02, 0x01]));
    let mut s = Scanner::new();
    assert_eq!(ats(s.feed(&data)), vec![at]);
    assert_eq!(s.video_codec(), Some(Codec::Hevc));

    let mut data = pat(0x100);
    data.extend(pmt(0x100, &[(0x02, 0x101)]));
    let at = data.len() as u64;
    data.extend(pes(0x101, None, &[0, 0, 1, 0xB3, 0x14, 0x00])); // sequence header
    data.extend(pes(0x101, None, &[0, 0, 1, 0x00, 0x00, 0x10])); // P picture
    let mut s = Scanner::new();
    assert_eq!(ats(s.feed(&data)), vec![at]);
}

#[test]
fn unknown_video_codecs_fall_back_to_rai() {
    let mut data = pat(0x100);
    data.extend(pmt(0x100, &[(0x10, 0x101)]));
    let at = data.len() as u64;
    data.extend(pes(0x101, Some(true), &[0xAA; 8]));
    data.extend(pes(0x101, Some(false), &[0xAA; 8]));
    let mut s = Scanner::new();
    assert_eq!(ats(s.feed(&data)), vec![at]);
    assert_eq!(s.video_codec(), Some(Codec::Other));
}

#[test]
fn survives_garbage() {
    let mut s = Scanner::new();
    assert!(s.feed(&[0x47; 1000]).is_empty());
    assert!(s.feed(&[0x00; 1000]).is_empty());
    let torn = pat(0x100);
    assert!(s.feed(&torn[..100]).is_empty());
    assert_eq!(s.program(), None);
}

// -- the program ----------------------------------------------------------

#[test]
fn names_the_program_from_the_pmt() {
    let (_, data) = h264_stream();
    assert_eq!(program_of(&data), named(Some("h264"), Some("aac")));
    assert_eq!(
        program_of(&data[..data.len() - PACKET]),
        None,
        "PAT alone settles nothing"
    );
}

#[test]
fn takes_the_first_of_each_type_in_pmt_order() {
    let mut data = pat(0x100);
    data.extend(pmt(
        0x100,
        &[(0x81, 0x103), (0x0F, 0x102), (0x24, 0x104), (0x1B, 0x101)],
    ));
    assert_eq!(program_of(&data), named(Some("hevc"), Some("ac3")));
}

#[test]
fn a_program_may_lack_audio_or_video() {
    let mut data = pat(0x100);
    data.extend(pmt(0x100, &[(0x1B, 0x101)]));
    assert_eq!(program_of(&data), named(Some("h264"), None));
    let mut data = pat(0x100);
    data.extend(pmt(0x100, &[(0x0F, 0x102)]));
    assert_eq!(program_of(&data), named(None, Some("aac")));
}

#[test]
fn mpeg_audio_is_named_by_its_frame_header() {
    for (header, name) in [
        ([0xFF, 0xFD, 0x94, 0xC0], "mp2"), // MPEG-1 layer II, 192k, 48kHz
        ([0xFF, 0xFB, 0x90, 0x00], "mp3"), // MPEG-1 layer III, 128k, 44.1kHz
        ([0xFF, 0xF5, 0x60, 0x00], "mp2"), // MPEG-2 layer II
    ] {
        let mut data = pat(0x100);
        data.extend(pmt(0x100, &[(0x1B, 0x101), (0x03, 0x102)]));
        let mut s = Scanner::new();
        s.feed(&data);
        assert_eq!(s.program(), None, "the layer is not in the PMT");
        // Video and non-PES packets on the audio PID must not confuse it.
        s.feed(&pes(0x101, None, &SPS));
        s.feed(&packet(0x102, false, None, &[0xFF, 0xFB, 0x90, 0x00]));
        assert_eq!(s.program(), None);
        s.feed(&pes(0x102, None, &header));
        assert_eq!(s.program(), named(Some("h264"), Some(name)), "{name}");
    }
}

#[test]
fn private_streams_are_named_by_descriptor() {
    for (desc, want) in [
        (&[0x6A, 0x01, 0x00][..], Some("ac3")),
        (
            &[0x0A, 0x04, b'e', b'n', b'g', 0, 0x7A, 0x01, 0x00][..],
            Some("eac3"),
        ),
        (&[0x7B, 0x01, 0x00][..], Some("dts")),
        (&[0x05, 0x04, b'A', b'C', b'-', b'3'][..], Some("ac3")),
        (&[0x05, 0x04, b'E', b'A', b'C', b'3'][..], Some("eac3")),
        (&[0x05, 0x04, b'D', b'T', b'S', b'2'][..], Some("dts")),
        (&[0x05, 0x04, b'O', b'p', b'u', b's'][..], Some("opus")),
    ] {
        let mut data = pat(0x100);
        data.extend(pmt_with(0x100, &[(0x1B, 0x101, &[]), (0x06, 0x102, desc)]));
        assert_eq!(program_of(&data), named(Some("h264"), want), "{desc:?}");
    }
}

#[test]
fn subtitle_private_streams_are_not_audio() {
    let mut data = pat(0x100);
    let subtitling = [0x59, 0x08, b'e', b'n', b'g', 0x10, 0x00, 0x01, 0x00, 0x02];
    data.extend(pmt_with(
        0x100,
        &[
            (0x1B, 0x101, &[]),
            (0x06, 0x103, &subtitling),
            (0x0F, 0x102, &[]),
        ],
    ));
    assert_eq!(program_of(&data), named(Some("h264"), Some("aac")));
}

#[test]
fn an_unnameable_private_stream_defers_to_ffprobe() {
    let mut data = pat(0x100);
    data.extend(pmt_with(
        0x100,
        &[
            (0x1B, 0x101, &[]),
            (0x06, 0x102, &[0x0A, 0x04, b'e', b'n', b'g', 0]),
        ],
    ));
    assert_eq!(program_of(&data), None);
    let mut data = pat(0x100);
    data.extend(pmt_with(0x100, &[(0x1B, 0x101, &[]), (0x06, 0x102, &[])]));
    assert_eq!(program_of(&data), None);
}

#[test]
fn hevc_by_registration_descriptor_is_video() {
    let mut data = pat(0x100);
    data.extend(pmt_with(
        0x100,
        &[
            (0x06, 0x101, &[0x05, 0x04, b'H', b'E', b'V', b'C']),
            (0x0F, 0x102, &[]),
        ],
    ));
    assert_eq!(program_of(&data), named(Some("hevc"), Some("aac")));
    let mut s = Scanner::new();
    s.feed(&data);
    assert_eq!(s.video_codec(), Some(Codec::Hevc));
}

#[test]
fn a_pmt_spanning_packets_is_reassembled() {
    // Thirty audio tracks with language descriptors push the PMT across
    // three packets; the video comes last so nothing is known until the end.
    let lang: &[u8] = &[0x0A, 0x04, b'e', b'n', b'g', 0x00, 0x6A, 0x01, 0x00];
    let mut streams: Vec<(u8, u16, &[u8])> = (0..30).map(|n| (0x06, 0x200 + n, lang)).collect();
    streams.push((0x1B, 0x101, &[]));
    let mut data = pat(0x100);
    data.extend(pmt_packets(0x100, &streams));
    assert_eq!(data.len(), 4 * PACKET, "PAT plus a three-packet PMT");
    for chunk in [1, 100, 188, 4096] {
        let mut s = Scanner::new();
        for c in data.chunks(chunk) {
            s.feed(c);
        }
        assert_eq!(
            s.program(),
            named(Some("h264"), Some("ac3")),
            "chunk {chunk}"
        );
    }
}

#[test]
fn a_continuation_without_a_start_is_ignored() {
    let (_, tables) = h264_stream();
    let mut s = Scanner::new();
    s.feed(&packet(
        0x100,
        false,
        None,
        &[0x02, 0xB0, 0x10, 0, 0, 0, 0, 0],
    ));
    assert_eq!(s.program(), None);
    s.feed(&tables);
    assert_eq!(s.program(), named(Some("h264"), Some("aac")));
}

#[test]
fn a_later_pmt_does_not_unsettle_a_named_program() {
    let mut data = pat(0x100);
    data.extend(pmt(0x100, &[(0x1B, 0x101), (0x03, 0x102)]));
    let mut s = Scanner::new();
    s.feed(&data);
    s.feed(&pes(0x102, None, &[0xFF, 0xFD, 0x94, 0xC0]));
    assert_eq!(s.program(), named(Some("h264"), Some("mp2")));
    s.feed(&data); // the tables repeat
    assert_eq!(s.program(), named(Some("h264"), Some("mp2")));
}

// -- across feeds -------------------------------------------------------------

#[test]
fn feeding_in_two_parts_reports_what_feeding_at_once_does() {
    let (_, mut data) = h264_stream();
    for pts in [0u64, 90_000, 180_000] {
        data.extend(pes_at(
            0x101,
            pts,
            None,
            &[AUD.as_slice(), SPS.as_slice(), IDR.as_slice()].concat(),
        ));
        data.extend(packet(0x101, false, None, &[0xAA; 100]));
    }
    let mut s = Scanner::new();
    let whole = s.feed(&data);
    assert_eq!(whole.len(), 3);
    for cut in 0..data.len() {
        let mut t = Scanner::new();
        let mut found = t.feed(&data[..cut]);
        found.extend(t.feed(&data[cut..]));
        assert_eq!(found, whole, "cut at {cut}");
        assert_eq!(t.latest_video_pts(), s.latest_video_pts(), "cut at {cut}");
        assert_eq!(t.program(), s.program(), "cut at {cut}");
    }
}

#[test]
fn offsets_point_at_sync_bytes_in_order() {
    let (mut s, tables) = h264_stream();
    let mut data = vec![0x00, 0x47, 0x01];
    data.extend(tables);
    for _ in 0..4 {
        data.extend(pes(0x101, None, &IDR));
    }
    let found = ats(s.feed(&data));
    assert_eq!(found.len(), 4);
    for pair in found.windows(2) {
        assert!(pair[0] + PACKET as u64 <= pair[1]);
    }
    for at in found {
        assert_eq!(data[at as usize], SYNC);
    }
}

#[test]
fn a_network_entry_in_the_pat_is_no_program() {
    let mut s = vec![0x00, 0xB0, 17, 0x00, 0x01, 0xC1, 0x00, 0x00];
    s.extend([0x00, 0x00, 0xE0, 0x10]); // program 0: the network PID
    s.extend([0x00, 0x01, 0xE1, 0x00]); // program 1: PMT on 0x100
    s.extend([0, 0, 0, 0]);
    let mut data = packet(0, true, None, &[&[0u8][..], &s].concat());
    data.extend(pmt(0x100, &[(0x1B, 0x101)]));
    assert_eq!(program_of(&data), named(Some("h264"), None));
}

#[test]
fn stream_types_are_named_as_ffprobe_names_them() {
    for (stream_type, name) in [
        (0x01, "mpeg1video"),
        (0x02, "mpeg2video"),
        (0x10, "mpeg4"),
        (0x1B, "h264"),
        (0x24, "hevc"),
        (0xEA, "vc1"),
    ] {
        let mut data = pat(0x100);
        data.extend(pmt(0x100, &[(stream_type, 0x101)]));
        assert_eq!(program_of(&data), named(Some(name), None));
    }
    for (stream_type, name) in [
        (0x0F, "aac"),
        (0x1C, "aac"),
        (0x11, "aac_latm"),
        (0x81, "ac3"),
        (0x87, "eac3"),
        (0x82, "dts"),
        (0x85, "dts"),
        (0x8A, "dts"),
    ] {
        let mut data = pat(0x100);
        data.extend(pmt(0x100, &[(stream_type, 0x102)]));
        assert_eq!(program_of(&data), named(None, Some(name)));
    }
}

#[test]
fn a_picture_cut_off_before_its_coding_type_settles_nothing() {
    let pes_of = |es: &[u8]| [&[0, 0, 1, 0xE0, 0, 0, 0x80, 0, 0][..], es].concat();
    assert_eq!(keyframe(Codec::Mpeg2, &pes_of(&[0, 0, 1, 0x00, 0x00])), None);
    assert_eq!(
        keyframe(Codec::Mpeg2, &pes_of(&[0, 0, 1, 0x00, 0x00, 0x08])),
        Some(true)
    );
    assert_eq!(
        keyframe(Codec::Mpeg2, &pes_of(&[0, 0, 1, 0x00, 0x00, 0x10])),
        Some(false)
    );
    // The random-access flag decides then.
    let mut data = pat(0x100);
    data.extend(pmt(0x100, &[(0x02, 0x101)]));
    let at = data.len() as u64;
    data.extend(pes(0x101, Some(true), &[0, 0, 1, 0x00, 0x00]));
    data.extend(pes(0x101, Some(false), &[0, 0, 1, 0x00, 0x00]));
    assert_eq!(ats(Scanner::new().feed(&data)), vec![at]);
}

#[test]
fn a_section_comes_out_whole_however_it_is_cut() {
    let x = pmt_section(&[(0x1B, 0x101, &[]), (0x0F, 0x102, &[])]);
    for cut in 1..=x.len() {
        for skipped in [&[][..], &[9, 9, 9][..]] {
            let mut s = Section::new();
            // Whatever was held before.
            s.feed(true, &[0, 2, 0xB0]);
            let mut first = vec![skipped.len() as u8];
            first.extend_from_slice(skipped);
            first.extend_from_slice(&x[..cut]);
            if cut == x.len() {
                first.extend([0xFF; 7]);
                assert_eq!(s.feed(true, &first).as_ref(), Some(&x));
            } else {
                assert_eq!(s.feed(true, &first), None, "cut {cut}");
                assert_eq!(s.feed(false, &[]), None);
                assert_eq!(s.feed(true, &[]), None, "nothing to start");
                let rest = [&x[cut..], &[0xFF; 7]].concat();
                assert_eq!(s.feed(false, &rest).as_ref(), Some(&x), "cut {cut}");
            }
            assert_eq!(s.feed(false, &x), None, "no section begun");
        }
    }
}
