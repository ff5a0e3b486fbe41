use acestream_proxy::format::{modes, plan, OutputFormat, TrackMode};
const ALL: [OutputFormat; 3] = [OutputFormat::Adts, OutputFormat::Mp3, OutputFormat::Fmp4];

fn args_of(fmt: OutputFormat, codec: Option<&str>) -> Vec<String> {
    plan(fmt, codec, None, false).args
}

/// Assert `needle` appears as a consecutive run in `hay`.
fn contains_seq(hay: &[String], needle: &[&str]) -> bool {
    hay.windows(needle.len()).any(|w| w == needle)
}

fn value_after(args: &[String], flag: &str) -> String {
    let i = args
        .iter()
        .position(|a| a == flag)
        .unwrap_or_else(|| panic!("no {flag}"));
    args[i + 1].clone()
}

#[test]
fn adts_copies_aac() {
    let p = plan(OutputFormat::Adts, Some("aac"), None, false);
    assert_eq!(p.audio, TrackMode::Copy);
    assert_eq!(p.video, TrackMode::Dropped);
    assert!(contains_seq(&p.args, &["-c:a", "copy"]));
    assert!(contains_seq(&p.args, &["-f", "adts", "pipe:1"]));
}

#[test]
fn adts_transcodes_everything_else() {
    for codec in ["ac3", "eac3", "mp2", "dts", "mp3"] {
        let p = plan(OutputFormat::Adts, Some(codec), None, false);
        assert_eq!(p.audio, TrackMode::Transcode, "codec {codec}");
        assert!(contains_seq(&p.args, &["-c:a", "aac"]), "codec {codec}");
    }
}

#[test]
fn mp3_copies_mp3_only() {
    let p = plan(OutputFormat::Mp3, Some("mp3"), None, false);
    assert_eq!(p.audio, TrackMode::Copy);
    assert!(contains_seq(&p.args, &["-c:a", "copy"]));

    let p = plan(OutputFormat::Mp3, Some("aac"), None, false);
    assert_eq!(p.audio, TrackMode::Transcode);
    assert!(contains_seq(&p.args, &["-c:a", "libmp3lame"]));
}

#[test]
fn fmp4_always_copies_video() {
    for codec in [Some("aac"), Some("ac3"), Some("mp2"), None] {
        let p = plan(OutputFormat::Fmp4, codec, None, false);
        assert_eq!(p.video, TrackMode::Copy, "codec {codec:?}");
        assert!(contains_seq(&p.args, &["-c:v", "copy"]), "codec {codec:?}");
    }
}

#[test]
fn fmp4_transcodes_browser_hostile_audio() {
    // AC-3/E-AC-3/MP2 are legal in MP4 but browsers play them as silence.
    for codec in ["ac3", "eac3", "mp2"] {
        let p = plan(OutputFormat::Fmp4, Some(codec), None, false);
        assert_eq!(p.audio, TrackMode::Transcode, "codec {codec}");
        assert!(contains_seq(&p.args, &["-c:a", "aac"]), "codec {codec}");
    }
    let p = plan(OutputFormat::Fmp4, Some("aac"), None, false);
    assert_eq!(p.audio, TrackMode::Copy);
}

#[test]
fn modes_match_the_plan() {
    for fmt in ALL {
        for codec in [Some("aac"), Some("ac3"), Some("mp3"), None] {
            let p = plan(fmt, codec, None, false);
            assert_eq!(modes(fmt, codec), (p.video, p.audio), "{fmt:?} {codec:?}");
        }
    }
}

#[test]
fn fmp4_converts_adts_framing_when_copying_aac() {
    // Only on the copy path into MP4: the encoder already emits raw AAC,
    // and ADTS output wants ADTS framing.
    let p = plan(OutputFormat::Fmp4, Some("aac"), None, false);
    assert!(contains_seq(&p.args, &["-bsf:a", "aac_adtstoasc"]));

    let p = plan(OutputFormat::Fmp4, Some("ac3"), None, false);
    assert!(!p.args.iter().any(|a| a == "-bsf:a"));
    for fmt in [OutputFormat::Adts, OutputFormat::Mp3] {
        let p = plan(fmt, Some("aac"), None, false);
        assert!(!p.args.iter().any(|a| a == "-bsf:a"), "{fmt:?}");
    }
}

#[test]
fn fmp4_without_audio_drops_the_track() {
    let p = plan(OutputFormat::Fmp4, None, None, false);
    assert_eq!(p.audio, TrackMode::Dropped);
    assert!(p.args.iter().any(|a| a == "-an"));
}

#[test]
fn fmp4_movflags_are_mse_compatible() {
    let p = plan(OutputFormat::Fmp4, Some("aac"), None, false);
    let flags = value_after(&p.args, "-movflags");
    for want in [
        "frag_keyframe",
        "empty_moov",
        "default_base_moof",
        "omit_tfhd_offset",
    ] {
        assert!(flags.contains(want), "missing {want} in {flags}");
    }
}

#[test]
fn frag_duration_adds_to_keyframe_fragmentation() {
    let p = plan(OutputFormat::Fmp4, Some("aac"), Some(200), false);
    assert!(contains_seq(&p.args, &["-frag_duration", "200000"]));
    // Without frag_keyframe a timed cut lands late joiners mid-GOP; the two
    // combine, so every keyframe still opens a fragment.
    assert!(value_after(&p.args, "-movflags").contains("frag_keyframe"));

    let p = plan(OutputFormat::Fmp4, Some("aac"), None, false);
    assert!(!p.args.iter().any(|a| a == "-frag_duration"));
}

#[test]
fn demuxer_options_precede_the_input() {
    // -fflags after -i is silently inert; guard against a reorder.
    for fmt in ALL {
        let args = args_of(fmt, Some("ac3"));
        let i = args.iter().position(|a| a == "-i").unwrap();
        for flag in ["-fflags", "-analyzeduration", "-probesize", "-f"] {
            let at = args.iter().position(|a| a == flag).unwrap();
            assert!(at < i, "{fmt:?}: {flag} must precede -i");
        }
    }
}

#[test]
fn output_is_flushed_per_packet_but_input_is_buffered() {
    for fmt in ALL {
        let args = args_of(fmt, Some("aac"));
        assert!(contains_seq(&args, &["-flush_packets", "1"]), "{fmt:?}");
        // Direct I/O on the input side makes the mpegts demuxer lose its
        // table scan (see `input_args`); it belongs on the output only.
        let i = args.iter().position(|a| a == "-i").unwrap();
        let direct: Vec<usize> = args
            .iter()
            .enumerate()
            .filter(|(_, a)| *a == "-avioflags")
            .map(|(at, _)| at)
            .collect();
        assert_eq!(direct.len(), 1, "{fmt:?}");
        assert!(direct[0] > i, "{fmt:?}: -avioflags must follow -i");
    }
}

#[test]
fn video_analysis_is_shorter_from_a_keyframe() {
    let cold = plan(OutputFormat::Fmp4, Some("aac"), None, false);
    let warm = plan(OutputFormat::Fmp4, Some("aac"), None, true);
    assert_eq!(value_after(&cold.args, "-analyzeduration"), "3000000");
    assert_eq!(value_after(&warm.args, "-analyzeduration"), "2000000");
    for fmt in [OutputFormat::Adts, OutputFormat::Mp3] {
        let p = plan(fmt, Some("aac"), None, true);
        assert_eq!(value_after(&p.args, "-analyzeduration"), "1000000", "{fmt:?}");
    }
}

#[test]
fn input_is_always_the_shared_ts_pipe() {
    for fmt in ALL {
        let args = args_of(fmt, Some("aac"));
        assert!(
            contains_seq(&args, &["-f", "mpegts", "-i", "pipe:0"]),
            "{fmt:?}"
        );
    }
}

#[test]
fn audio_formats_drop_non_audio_tracks() {
    for fmt in [OutputFormat::Adts, OutputFormat::Mp3] {
        let args = args_of(fmt, Some("aac"));
        for flag in ["-vn", "-sn", "-dn"] {
            assert!(args.iter().any(|a| a == flag), "{fmt:?} missing {flag}");
        }
    }
}

#[test]
fn parse_audio_rejects_video_format() {
    assert_eq!(OutputFormat::parse_audio("adts"), Some(OutputFormat::Adts));
    assert_eq!(OutputFormat::parse_audio("mp3"), Some(OutputFormat::Mp3));
    assert_eq!(OutputFormat::parse_audio("fmp4"), None);
    assert_eq!(OutputFormat::parse_audio(""), None);
}

#[test]
fn the_whole_argv_of_an_audio_copy() {
    let p = plan(OutputFormat::Adts, Some("aac"), Some(1000), true);
    assert_eq!(
        p.args,
        [
            "-hide_banner",
            "-loglevel",
            "error",
            "-fflags",
            "discardcorrupt",
            "-analyzeduration",
            "1000000",
            "-probesize",
            "500000",
            "-f",
            "mpegts",
            "-i",
            "pipe:0",
            "-vn",
            "-sn",
            "-dn",
            "-c:a",
            "copy",
            "-avioflags",
            "direct",
            "-flush_packets",
            "1",
            "-f",
            "adts",
            "pipe:1",
        ]
    );
}

#[test]
fn the_whole_argv_of_a_video_transcode() {
    let p = plan(OutputFormat::Fmp4, Some("ac3"), Some(1000), true);
    assert_eq!(
        p.args[13..],
        [
            "-c:v",
            "copy",
            "-c:a",
            "aac",
            "-b:a",
            "128k",
            "-ac",
            "2",
            "-avoid_negative_ts",
            "make_zero",
            "-avioflags",
            "direct",
            "-flush_packets",
            "1",
            "-frag_duration",
            "1000000",
            "-movflags",
            "+frag_keyframe+empty_moov+default_base_moof+omit_tfhd_offset",
            "-f",
            "mp4",
            "pipe:1",
        ]
    );
}

#[test]
fn names_and_media_types() {
    let names: Vec<_> = ALL.iter().map(|f| f.as_str()).collect();
    assert_eq!(names, ["adts", "mp3", "fmp4"]);
    let types: Vec<_> = ALL.iter().map(|f| f.content_type()).collect();
    assert_eq!(types, ["audio/aac", "audio/mpeg", "video/mp4"]);
    let video: Vec<_> = ALL.iter().map(|f| f.has_video()).collect();
    assert_eq!(video, [false, false, true]);
    let init: Vec<_> = ALL.iter().map(|f| f.needs_init_segment()).collect();
    assert_eq!(init, [false, false, true]);
    assert_eq!(TrackMode::Copy.as_str(), "copy");
    assert_eq!(TrackMode::Transcode.as_str(), "transcode");
    assert_eq!(TrackMode::Dropped.as_str(), "drop");
}
