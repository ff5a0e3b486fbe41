use acestream_proxy::mp4::boxes::{LONG_HEADER, SHORT_HEADER};
use acestream_proxy::mp4::model::MAX_MOOF;
use acestream_proxy::mp4::{Piece, Scanner};
use bytes::Bytes;

fn box_of(kind: &[u8; 4], body: &[u8]) -> Vec<u8> {
    let total = (SHORT_HEADER + body.len()) as u32;
    let mut v = total.to_be_bytes().to_vec();
    v.extend_from_slice(kind);
    v.extend_from_slice(body);
    v
}

fn large_box_of(kind: &[u8; 4], body: &[u8]) -> Vec<u8> {
    let total = (LONG_HEADER + body.len()) as u64;
    let mut v = 1u32.to_be_bytes().to_vec();
    v.extend_from_slice(kind);
    v.extend_from_slice(&total.to_be_bytes());
    v.extend_from_slice(body);
    v
}

/// A minimal but structurally valid fMP4 byte stream.
/// Layout: ftyp(24) moov(48) | moof(28) mdat(108) | moof(28) mdat(88)
fn stream() -> Vec<u8> {
    let mut v = box_of(b"ftyp", b"isom-brand-bytes");
    v.extend(box_of(b"moov", &[0xAA; 40]));
    v.extend(box_of(b"moof", &[0xBB; 20]));
    v.extend(box_of(b"mdat", &[0xCC; 100]));
    v.extend(box_of(b"moof", &[0xDD; 20]));
    v.extend(box_of(b"mdat", &[0xEE; 80]));
    v
}

const INIT_LEN: usize = 24 + 48;

fn collect(pieces: &[Piece]) -> Vec<u8> {
    pieces.iter().flat_map(|p| p.data().to_vec()).collect()
}

/// Feed the stream in fixed-size slices to exercise header straddling.
fn scan_in_chunks(data: &[u8], chunk: usize) -> (Scanner, Vec<Piece>) {
    let mut s = Scanner::new();
    let mut all = Vec::new();
    for c in data.chunks(chunk) {
        all.extend(s.push(Bytes::copy_from_slice(c)));
    }
    (s, all)
}

fn fragment_offsets(pieces: &[Piece]) -> Vec<usize> {
    let mut offsets = Vec::new();
    let mut at = 0usize;
    for p in pieces {
        if p.fragment_start() {
            offsets.push(at);
        }
        at += p.data().len();
    }
    offsets
}

// -- Real init segments and fragments, as the mp4 muxer writes them ------

fn full_box(kind: &[u8; 4], version: u8, flags: u32, body: &[u8]) -> Vec<u8> {
    let mut b = vec![version];
    b.extend_from_slice(&flags.to_be_bytes()[1..]);
    b.extend_from_slice(body);
    box_of(kind, &b)
}

fn trak(id: u32, handler: &[u8; 4]) -> Vec<u8> {
    let mut tkhd = vec![0u8; 8]; // creation, modification
    tkhd.extend(id.to_be_bytes());
    tkhd.extend([0u8; 60]);
    let mut hdlr = vec![0u8; 4]; // pre_defined
    hdlr.extend(handler);
    hdlr.extend([0u8; 13]);
    let mdia = box_of(b"mdia", &full_box(b"hdlr", 0, 0, &hdlr));
    box_of(b"trak", &[full_box(b"tkhd", 0, 0, &tkhd), mdia].concat())
}

fn trex(id: u32, default_flags: u32) -> Vec<u8> {
    let mut b = id.to_be_bytes().to_vec();
    b.extend(1u32.to_be_bytes());
    b.extend(0u32.to_be_bytes());
    b.extend(0u32.to_be_bytes());
    b.extend(default_flags.to_be_bytes());
    full_box(b"trex", 0, 0, &b)
}

/// ftyp + moov with a video track 1 and an audio track 2.
fn init(trex_video_flags: u32) -> Vec<u8> {
    let mvex = box_of(
        b"mvex",
        &[trex(1, trex_video_flags), trex(2, 0x0200_0000)].concat(),
    );
    let moov = box_of(
        b"moov",
        &[trak(1, b"vide"), trak(2, b"soun"), mvex].concat(),
    );
    [box_of(b"ftyp", b"isom"), moov].concat()
}

const SYNC: u32 = 0x0200_0000;
const NONSYNC: u32 = 0x0101_0000;

/// A traf whose flags land where `Where` says.
#[derive(Clone, Copy)]
enum Where {
    FirstSampleFlags,
    PerSample,
    TfhdDefault,
    Nowhere,
}

fn traf(id: u32, flags: u32, at: Where) -> Vec<u8> {
    let (tfhd_flags, mut tfhd) = match at {
        Where::TfhdDefault => (0x20u32, [id.to_be_bytes(), flags.to_be_bytes()].concat()),
        _ => (0, id.to_be_bytes().to_vec()),
    };
    // default_sample_duration too, to prove optional fields are skipped.
    tfhd.splice(4..4, 40u32.to_be_bytes());
    let tfhd = full_box(b"tfhd", 0, tfhd_flags | 0x08, &tfhd);
    let trun = match at {
        Where::FirstSampleFlags => {
            let body = [2u32.to_be_bytes(), 0u32.to_be_bytes(), flags.to_be_bytes()].concat();
            full_box(b"trun", 0, 0x01 | 0x04, &body)
        }
        Where::PerSample => {
            let mut body = [2u32.to_be_bytes(), 0u32.to_be_bytes()].concat();
            for f in [flags, NONSYNC] {
                body.extend(40u32.to_be_bytes()); // duration
                body.extend(900u32.to_be_bytes()); // size
                body.extend(f.to_be_bytes());
            }
            full_box(b"trun", 0, 0x01 | 0x100 | 0x200 | 0x400, &body)
        }
        _ => full_box(
            b"trun",
            0,
            0x01,
            &[2u32.to_be_bytes(), 0u32.to_be_bytes()].concat(),
        ),
    };
    box_of(b"traf", &[tfhd, trun].concat())
}

fn moof(trafs: &[Vec<u8>]) -> Vec<u8> {
    let mfhd = full_box(b"mfhd", 0, 0, &1u32.to_be_bytes());
    box_of(b"moof", &[mfhd, trafs.concat()].concat())
}

fn keyframe_flags_of(data: &[u8], chunk: usize) -> Vec<bool> {
    let (_, pieces) = scan_in_chunks(data, chunk);
    pieces
        .iter()
        .filter(|p| p.fragment_start())
        .map(|p| p.keyframe())
        .collect()
}

#[test]
fn is_lossless_at_every_chunk_size() {
    let data = stream();
    for size in 1..=data.len() {
        let (_, pieces) = scan_in_chunks(&data, size);
        assert_eq!(collect(&pieces), data, "chunk size {size} lost bytes");
    }
}

#[test]
fn init_segment_is_everything_before_the_first_moof() {
    let data = stream();
    let want = &data[..INIT_LEN];
    for size in [1, 3, 7, 8, 9, 16, 64, 4096] {
        let (s, _) = scan_in_chunks(&data, size);
        assert_eq!(s.init_segment().as_deref(), Some(want), "chunk size {size}");
    }
}

#[test]
fn init_segment_is_unavailable_until_the_first_moof_arrives() {
    let mut s = Scanner::new();
    s.push(Bytes::from(box_of(b"ftyp", b"isom")));
    assert_eq!(s.init_segment(), None);
    s.push(Bytes::from(box_of(b"moov", &[0; 8])));
    assert_eq!(s.init_segment(), None, "moov alone must not complete init");
    s.push(Bytes::from(box_of(b"moof", &[0; 8])));
    assert!(s.init_segment().is_some());
}

#[test]
fn fragment_starts_land_exactly_on_moof_headers() {
    let data = stream();
    for size in [1, 5, 8, 13, 64, 4096] {
        let (_, pieces) = scan_in_chunks(&data, size);
        assert_eq!(
            fragment_offsets(&pieces),
            vec![INIT_LEN, INIT_LEN + 28 + 108],
            "chunk {size}"
        );
    }
}

#[test]
fn tolerates_free_boxes_inside_the_init_segment() {
    let mut data = box_of(b"ftyp", b"isom");
    data.extend(box_of(b"free", &[0; 16]));
    data.extend(box_of(b"moov", &[0xAA; 32]));
    data.extend(box_of(b"moof", &[0xBB; 8]));
    data.extend(box_of(b"mdat", &[0xCC; 8]));

    let (s, pieces) = scan_in_chunks(&data, 7);
    assert_eq!(collect(&pieces), data);
    assert_eq!(s.init_segment().map(|b| b.len()), Some(12 + 24 + 40));
    assert!(!s.failed());
}

#[test]
fn handles_64_bit_largesize_boxes() {
    let mut data = box_of(b"ftyp", b"isom");
    data.extend(box_of(b"moov", &[0xAA; 16]));
    data.extend(box_of(b"moof", &[0xBB; 8]));
    // A large mdat is exactly where the 64-bit form shows up in practice.
    data.extend(large_box_of(b"mdat", &[0xCC; 200]));
    data.extend(box_of(b"moof", &[0xDD; 8]));

    for size in [1, 9, 15, 16, 17, 128] {
        let (s, pieces) = scan_in_chunks(&data, size);
        assert_eq!(collect(&pieces), data, "chunk {size}");
        assert!(!s.failed(), "chunk {size}");
        assert_eq!(
            fragment_offsets(&pieces).len(),
            2,
            "chunk {size}: largesize must not hide the second moof"
        );
    }
}

#[test]
fn degrades_to_passthrough_on_garbage_without_losing_bytes() {
    // size == 0 means "to end of file" and is not valid in a live stream.
    let mut data = box_of(b"ftyp", b"isom");
    data.extend(0u32.to_be_bytes());
    data.extend(b"mdat");
    data.extend([0xCC; 32]);

    for size in [1, 6, 13, 256] {
        let (s, pieces) = scan_in_chunks(&data, size);
        assert!(s.failed(), "chunk {size}");
        assert_eq!(collect(&pieces), data, "chunk {size}: must stay lossless");
        // A partial init segment would decode to nothing for a late joiner.
        assert_eq!(s.init_segment(), None, "chunk {size}");
    }
}

#[test]
fn rejects_a_stream_that_does_not_start_with_ftyp() {
    let data = box_of(b"junk", &[0; 16]);
    let (s, pieces) = scan_in_chunks(&data, 4);
    assert!(s.failed());
    assert_eq!(collect(&pieces), data);
}

#[test]
fn rejects_a_box_smaller_than_its_own_header() {
    let mut data = box_of(b"ftyp", b"isom");
    data.extend(3u32.to_be_bytes()); // size 3 < 8-byte header
    data.extend(b"moov");
    data.extend([0; 8]);

    let (s, pieces) = scan_in_chunks(&data, 5);
    assert!(s.failed());
    assert_eq!(collect(&pieces), data);
}

#[test]
fn rejects_an_absurdly_large_moof_without_losing_bytes() {
    let mut data = box_of(b"ftyp", b"isom");
    data.extend((MAX_MOOF as u32 + 1).to_be_bytes());
    data.extend(b"moof");
    data.extend([0xCC; 32]);
    for size in [1, 9, 64] {
        let (s, pieces) = scan_in_chunks(&data, size);
        assert!(s.failed(), "chunk {size}");
        assert_eq!(collect(&pieces), data, "chunk {size}");
    }
}

#[test]
fn media_runs_are_coalesced_within_a_chunk() {
    let data = stream();
    let mut s = Scanner::new();
    let pieces = s.push(Bytes::from(data));
    let media: Vec<_> = pieces
        .iter()
        .filter(|p| !matches!(p, Piece::Init(_)))
        .collect();
    // One piece per fragment, not one per box header and body.
    assert_eq!(media.len(), 2);
    assert!(media.iter().all(|p| p.fragment_start()));
    assert_eq!(media[0].data().len(), 28 + 108);
    assert_eq!(media[1].data().len(), 28 + 88);
}

#[test]
fn nothing_but_a_moof_is_buffered_across_pushes() {
    // Latency guard: a chunk that completes no box must still come straight
    // back out, minus only the held-back header.
    let mut s = Scanner::new();
    s.push(Bytes::from(box_of(b"ftyp", b"isom")));
    s.push(Bytes::from(box_of(b"moof", &[0; 64])));
    let out = s.push(Bytes::from(vec![0xCC; 32]));
    assert_eq!(collect(&out).len(), 32, "media must not be held back");
}

#[test]
fn a_moof_split_across_pushes_is_held_then_emitted_whole() {
    let init = init(NONSYNC);
    let frag = moof(&[
        traf(1, SYNC, Where::FirstSampleFlags),
        traf(2, SYNC, Where::TfhdDefault),
    ]);
    let mdat = box_of(b"mdat", &[0xCC; 50]);
    let mut s = Scanner::new();
    s.push(Bytes::from(init));
    let first = s.push(Bytes::copy_from_slice(&frag[..20]));
    assert!(first.is_empty(), "an incomplete moof must be held back");
    let rest = s.push(Bytes::from([&frag[20..], &mdat[..]].concat()));
    assert_eq!(collect(&rest), [frag.clone(), mdat].concat());
    assert!(rest[0].fragment_start());
    assert!(rest[0].keyframe());
}

#[test]
fn keyframe_fragments_are_recognised_wherever_the_flags_live() {
    for at in [
        Where::FirstSampleFlags,
        Where::PerSample,
        Where::TfhdDefault,
    ] {
        let mut data = init(NONSYNC);
        data.extend(moof(&[
            traf(1, SYNC, at),
            traf(2, SYNC, Where::TfhdDefault),
        ]));
        data.extend(box_of(b"mdat", &[0xCC; 20]));
        data.extend(moof(&[
            traf(1, NONSYNC, at),
            traf(2, SYNC, Where::TfhdDefault),
        ]));
        data.extend(box_of(b"mdat", &[0xCC; 20]));
        data.extend(moof(&[
            traf(1, SYNC, at),
            traf(2, SYNC, Where::TfhdDefault),
        ]));
        data.extend(box_of(b"mdat", &[0xCC; 20]));
        for chunk in [1, 13, 100, 4096] {
            assert_eq!(
                keyframe_flags_of(&data, chunk),
                vec![true, false, true],
                "chunk {chunk}"
            );
        }
    }
}

#[test]
fn trex_defaults_decide_when_a_fragment_carries_no_flags() {
    let mut data = init(SYNC);
    data.extend(moof(&[traf(1, 0, Where::Nowhere)]));
    data.extend(box_of(b"mdat", &[0xCC; 20]));
    assert_eq!(keyframe_flags_of(&data, 4096), vec![true]);

    let mut data = init(NONSYNC);
    data.extend(moof(&[traf(1, 0, Where::Nowhere)]));
    data.extend(box_of(b"mdat", &[0xCC; 20]));
    assert_eq!(keyframe_flags_of(&data, 4096), vec![false]);
}

#[test]
fn an_audio_only_fragment_of_a_video_stream_is_not_a_join_point() {
    let mut data = init(NONSYNC);
    data.extend(moof(&[traf(2, SYNC, Where::TfhdDefault)]));
    data.extend(box_of(b"mdat", &[0xCC; 20]));
    assert_eq!(keyframe_flags_of(&data, 4096), vec![false]);
}

#[test]
fn every_fragment_of_an_audio_only_stream_is_a_join_point() {
    let moov = box_of(
        b"moov",
        &[trak(1, b"soun"), box_of(b"mvex", &trex(1, SYNC))].concat(),
    );
    let mut data = [box_of(b"ftyp", b"isom"), moov].concat();
    data.extend(moof(&[traf(1, SYNC, Where::TfhdDefault)]));
    data.extend(box_of(b"mdat", &[0xCC; 20]));
    data.extend(moof(&[traf(1, NONSYNC, Where::TfhdDefault)]));
    data.extend(box_of(b"mdat", &[0xCC; 20]));
    assert_eq!(keyframe_flags_of(&data, 4096), vec![true, true]);
}

#[test]
fn an_unparseable_init_segment_leaves_every_fragment_joinable() {
    // The garbage moov in `stream()` describes no tracks at all; with no
    // video track to check, keyframe alignment cannot apply.
    assert_eq!(keyframe_flags_of(&stream(), 4096), vec![true, true]);
}


// -- across pushes ------------------------------------------------------------

#[test]
fn the_pieces_of_one_push_are_grouped_by_box_and_by_fragment() {
    let mut s = Scanner::new();
    let pieces = s.push(Bytes::from(stream()));
    let lens: Vec<(usize, bool)> = pieces
        .iter()
        .map(|p| (p.data().len(), p.fragment_start()))
        .collect();
    // Header and body of each init box, then one piece per fragment.
    assert_eq!(
        lens,
        vec![
            (8, false),
            (16, false),
            (8, false),
            (40, false),
            (136, true),
            (116, true)
        ]
    );
}

#[test]
fn fragments_and_flags_do_not_depend_on_chunking() {
    let mut data = init(NONSYNC);
    for flags in [SYNC, NONSYNC, NONSYNC, SYNC] {
        data.extend(moof(&[traf(1, flags, Where::PerSample)]));
        data.extend(box_of(b"mdat", &[0xCC; 33]));
    }
    let (_, whole) = scan_in_chunks(&data, data.len());
    for size in 1..200 {
        let (_, pieces) = scan_in_chunks(&data, size);
        assert_eq!(fragment_offsets(&pieces), fragment_offsets(&whole), "{size}");
        assert_eq!(
            keyframe_flags_of(&data, size),
            vec![true, false, false, true],
            "{size}"
        );
    }
}

#[test]
fn once_failed_every_push_comes_straight_back() {
    let mut s = Scanner::new();
    let _ = s.push(Bytes::from(box_of(b"junk", &[0; 4])));
    assert!(s.failed());
    for data in [stream(), Vec::new(), vec![1]] {
        let out = s.push(Bytes::from(data.clone()));
        assert_eq!(out.len(), 1);
        assert_eq!(out[0].data().to_vec(), data);
        assert!(!out[0].fragment_start() && !out[0].keyframe());
    }
    assert!(s.failed());
    assert_eq!(s.init_segment(), None);
}

#[test]
fn a_failure_in_mid_stream_withdraws_the_init_segment() {
    let mut data = stream();
    let good = data.len();
    data.extend(0u32.to_be_bytes());
    data.extend(b"mdat");
    data.extend([0xEE; 9]);
    for size in [1, 8, 50, 4096] {
        let (s, pieces) = scan_in_chunks(&data, size);
        assert!(s.failed(), "{size}");
        assert_eq!(collect(&pieces), data, "{size}");
        assert_eq!(s.init_segment(), None, "{size}");
        let (s, _) = scan_in_chunks(&data[..good], size);
        assert!(s.init_segment().is_some(), "{size}");
    }
}

#[test]
fn a_stream_may_begin_with_a_moof_but_then_has_no_init_segment() {
    let mut data = box_of(b"moof", &[]);
    data.extend(box_of(b"mdat", &[1, 2, 3]));
    let mut s = Scanner::new();
    let pieces = s.push(Bytes::from(data.clone()));
    assert_eq!(collect(&pieces), data);
    assert!(pieces[0].fragment_start() && pieces[0].keyframe());
    assert!(!s.failed());
    assert_eq!(s.init_segment(), None);
}

/// A `traf` of track 1 with the given `tfhd` default and runs.
fn traf_of(default: u32, runs: &[Vec<u8>]) -> Vec<u8> {
    let tfhd = [1u32.to_be_bytes(), default.to_be_bytes()].concat();
    let mut body = full_box(b"tfhd", 0, 0x20, &tfhd);
    body.extend(runs.concat());
    box_of(b"traf", &body)
}

/// A `trun` of `count` samples, with first_sample_flags if there are any.
fn trun(count: u32, first: Option<u32>) -> Vec<u8> {
    match first {
        Some(f) => full_box(
            b"trun",
            0,
            0x04,
            &[count.to_be_bytes(), f.to_be_bytes()].concat(),
        ),
        None => full_box(b"trun", 0, 0, &count.to_be_bytes()),
    }
}

#[test]
fn the_run_with_the_first_sample_decides() {
    let joinable = |default: u32, runs: &[Vec<u8>]| {
        let mut data = init(NONSYNC);
        data.extend(moof(&[traf_of(default, runs)]));
        keyframe_flags_of(&data, 4096)
    };
    // The first run gives no flags, so the default decides, not the second.
    let runs = [trun(1, None), trun(1, Some(SYNC))];
    assert_eq!(joinable(NONSYNC, &runs), vec![false]);
    assert_eq!(joinable(SYNC, &runs), vec![true]);
    let runs = [trun(1, None), trun(1, Some(NONSYNC))];
    assert_eq!(joinable(SYNC, &runs), vec![true]);
    // The first run gives flags.
    let runs = [trun(1, Some(SYNC)), trun(1, Some(NONSYNC))];
    assert_eq!(joinable(NONSYNC, &runs), vec![true]);
    // A run without samples does not hold the first one.
    let runs = [trun(0, None), trun(1, Some(SYNC))];
    assert_eq!(joinable(NONSYNC, &runs), vec![true]);
    let runs = [trun(0, Some(SYNC)), trun(1, Some(NONSYNC))];
    assert_eq!(joinable(SYNC, &runs), vec![false]);
    assert_eq!(joinable(NONSYNC, &[trun(0, Some(SYNC))]), vec![true]);
}

#[test]
fn the_init_segment_comes_with_the_header_of_the_first_moof() {
    let data = stream();
    let mut s = Scanner::new();
    for (i, b) in data.iter().enumerate() {
        s.push(Bytes::copy_from_slice(&[*b]));
        let want = (i + 1 >= INIT_LEN + SHORT_HEADER).then(|| data[..INIT_LEN].to_vec());
        assert_eq!(s.init_segment().map(|b| b.to_vec()), want, "byte {i}");
    }
}
