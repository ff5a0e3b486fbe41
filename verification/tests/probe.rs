use acestream_proxy::json::Json;
use acestream_proxy::probe::{args, conclude, parse, read_report, Probe};
use acestream_proxy::ts::Program;
#[test]
fn reads_video_and_audio_codecs() {
    let json = r#"{"streams":[
        {"codec_name":"h264","codec_type":"video"},
        {"codec_name":"ac3","codec_type":"audio"}
    ]}"#;
    let p = parse(json).unwrap();
    assert_eq!(p.video.as_deref(), Some("h264"));
    assert_eq!(p.audio.as_deref(), Some("ac3"));
}

#[test]
fn takes_the_first_of_each_type_when_ts_duplicates_streams() {
    // MPEG-TS reports streams twice: inside the program and at top level.
    let json = r#"{"streams":[
        {"codec_name":"h264","codec_type":"video"},
        {"codec_name":"aac","codec_type":"audio"},
        {"codec_name":"h264","codec_type":"video"},
        {"codec_name":"aac","codec_type":"audio"}
    ]}"#;
    let p = parse(json).unwrap();
    assert_eq!(p.video.as_deref(), Some("h264"));
    assert_eq!(p.audio.as_deref(), Some("aac"));
}

#[test]
fn keeps_the_first_audio_track_when_several_are_present() {
    let json = r#"{"streams":[
        {"codec_name":"eac3","codec_type":"audio"},
        {"codec_name":"aac","codec_type":"audio"}
    ]}"#;
    assert_eq!(parse(json).unwrap().audio.as_deref(), Some("eac3"));
}

#[test]
fn handles_audio_only_and_video_only_sources() {
    let audio_only = r#"{"streams":[{"codec_name":"mp3","codec_type":"audio"}]}"#;
    let p = parse(audio_only).unwrap();
    assert_eq!(p.audio.as_deref(), Some("mp3"));
    assert_eq!(p.video, None);

    let video_only = r#"{"streams":[{"codec_name":"h264","codec_type":"video"}]}"#;
    let p = parse(video_only).unwrap();
    assert_eq!(p.video.as_deref(), Some("h264"));
    assert_eq!(p.audio, None);
}

#[test]
fn ignores_subtitle_and_data_streams() {
    let json = r#"{"streams":[
        {"codec_name":"dvb_subtitle","codec_type":"subtitle"},
        {"codec_name":"bin_data","codec_type":"data"},
        {"codec_name":"aac","codec_type":"audio"}
    ]}"#;
    let p = parse(json).unwrap();
    assert_eq!(p.audio.as_deref(), Some("aac"));
    assert_eq!(p.video, None);
}

#[test]
fn rejects_output_with_no_usable_streams() {
    assert!(parse(r#"{"streams":[]}"#).is_err());
    assert!(parse(r#"{"streams":[{"codec_type":"audio"}]}"#).is_err());
    assert!(parse("not json").is_err());
    assert!(parse("{}").is_err());
}

#[test]
fn each_failure_says_what_is_wrong() {
    let e = parse("not json").unwrap_err();
    assert!(e.starts_with("ffprobe output was not json: "), "{e}");
    assert!(e.len() > "ffprobe output was not json: ".len());
    assert_eq!(
        parse("{}").unwrap_err(),
        "ffprobe output had no streams array"
    );
    assert_eq!(
        parse(r#"{"streams":3}"#).unwrap_err(),
        "ffprobe output had no streams array"
    );
    assert_eq!(
        parse(r#"{"streams":[{"codec_name":"","codec_type":"audio"}]}"#).unwrap_err(),
        "no audio or video stream found"
    );
}

#[test]
fn odd_documents_are_read_as_plain_values() {
    let p = parse(
        r#"{"other":[1.5,null,true,{"a":-3}],"streams":[7,{"codec_name":5,"codec_type":"video"},
           {"codec_name":"h\u00e9vc","codec_type":"video"}]}"#,
    )
    .unwrap();
    assert_eq!(p.video.as_deref(), Some("h\u{e9}vc"));
    assert_eq!(p.audio, None);
}

#[test]
fn a_report_is_read_from_plain_values() {
    let stream = |name: &str, kind: &str| {
        Json::Object(vec![
            ("codec_name".to_string(), Json::Text(name.to_string())),
            ("codec_type".to_string(), Json::Text(kind.to_string())),
        ])
    };
    let report = Json::Object(vec![(
        "streams".to_string(),
        Json::List(vec![
            stream("aac", "audio"),
            stream("h264", "video"),
            stream("ac3", "audio"),
            Json::Null,
        ]),
    )]);
    let p = read_report(&report).unwrap();
    assert_eq!(p.video.as_deref(), Some("h264"));
    assert_eq!(p.audio.as_deref(), Some("aac"));
    assert!(read_report(&Json::Null).is_err());
    assert!(read_report(&Json::Bool(true)).is_err());
    assert!(read_report(&Json::Count(1)).is_err());
}

#[test]
fn a_program_makes_a_probe() {
    let p = Probe::from(Program {
        video: Some("h264"),
        audio: None,
    });
    assert_eq!(p.video.as_deref(), Some("h264"));
    assert_eq!(p.audio, None);
    assert_eq!(p.audio_codec(), None);
}

#[test]
fn a_run_is_concluded_by_how_it_ended() {
    let good = br#"{"streams":[{"codec_name":"mp3","codec_type":"audio"}]}"#;
    let p = conclude(true, "exit status: 0", b"noise", good).unwrap();
    assert_eq!(p.audio.as_deref(), Some("mp3"));
    assert_eq!(
        conclude(false, "exit status: 1", b" \n ", good).unwrap_err(),
        "ffprobe exited with exit status: 1"
    );
    assert_eq!(
        conclude(false, "exit status: 1", b"\tpipe:0: bad data \n", good).unwrap_err(),
        "pipe:0: bad data"
    );
    // What is not UTF-8 is replaced, not refused.
    assert_eq!(
        conclude(false, "exit status: 1", b"bad \xFF byte", good).unwrap_err(),
        "bad \u{FFFD} byte"
    );
}

#[test]
fn ffprobe_is_told_what_to_read() {
    let args = args();
    assert_eq!(args.len(), 14);
    assert_eq!(args[args.len() - 2..], ["-i", "pipe:0"]);
    assert_eq!(args[2..4], ["-f", "mpegts"]);
}
