use acestream_proxy::format::{OutputFormat, TrackMode};
use acestream_proxy::json::Json;
use acestream_proxy::probe::Probe;
use acestream_proxy::registry::encoder::Join;
use acestream_proxy::registry::{Encoder, EngineStream};
use acestream_proxy::status::{document, output_of, snapshot, stream_of};
use bytes::Bytes;
use serde_json::Value;

fn text(j: Option<&Json>) -> &str {
    j.unwrap().as_str().unwrap()
}

fn count(j: Option<&Json>) -> u64 {
    match j {
        Some(Json::Count(n)) => *n,
        other => panic!("{other:?}"),
    }
}

fn list(j: Option<&Json>) -> &Vec<Json> {
    j.unwrap().as_array().unwrap()
}

#[test]
fn reports_every_pull_with_its_encoders_and_listeners() {
    let mut enc = Encoder::new(
        "c".repeat(40),
        OutputFormat::Adts,
        2_000_000_000,
        TrackMode::Dropped,
        TrackMode::Transcode,
    );
    match enc.subscribe("10.0.0.5:51234".into(), 1_000_000_000, 0) {
        Join::Joined(_) => {}
        other => panic!("{other:?}"),
    }
    enc.drain(Bytes::from_static(b"sound"), 1_000_000_000);

    let mut stream: EngineStream<()> = EngineStream::new("c".repeat(40), 1_000_000_000);
    stream.feed(Bytes::from_static(b"raw ts"));
    stream.ready(Probe {
        video: Some("h264".into()),
        audio: None,
    });
    let engine: Value = serde_json::from_str(r#"{"peers":12,"speed":7.5}"#).unwrap();
    stream.set_stats(engine.clone());
    assert!(stream
        .start_encoder(OutputFormat::Adts, 0, (), 0, None)
        .is_ok());

    let now = 5_000_000_000;
    let output = output_of(&enc, now, 4_500_000_000);
    let one = stream_of(&stream, now, vec![output]);
    let idle: EngineStream<()> = EngineStream::new("d".repeat(40), 0);
    let two = stream_of(&idle, now, vec![]);
    let doc = snapshot(41, &vec![one, two]);

    assert_eq!(count(doc.get("uptime_s")), 41);
    let summary = doc.get("summary").unwrap();
    assert_eq!(count(summary.get("engine_pulls")), 2);
    assert_eq!(count(summary.get("encoders")), 1);
    assert_eq!(count(summary.get("listeners")), 1);

    let streams = list(doc.get("streams"));
    let s = &streams[0];
    assert_eq!(text(s.get("content_id")), "c".repeat(40));
    assert_eq!(count(s.get("uptime_s")), 4);
    assert_eq!(count(s.get("bytes_from_engine")), 6);
    assert!(matches!(s.get("lingering"), Some(Json::Bool(false))));
    assert_eq!(text(s.get("source").unwrap().get("video")), "h264");
    assert!(matches!(
        s.get("source").unwrap().get("audio"),
        Some(Json::Null)
    ));
    assert!(matches!(s.get("engine"), Some(Json::Verbatim(v)) if *v == engine));

    let o = &list(s.get("outputs"))[0];
    assert_eq!(text(o.get("format")), "adts");
    assert_eq!(text(o.get("video")), "drop");
    assert_eq!(text(o.get("audio")), "transcode");
    assert_eq!(count(o.get("uptime_s")), 3);
    assert_eq!(count(o.get("bytes_out")), 5);
    assert!(matches!(o.get("lingering"), Some(Json::Bool(false))));
    let l = &list(o.get("listeners"))[0];
    assert_eq!(text(l.get("peer")), "10.0.0.5:51234");
    assert_eq!(count(l.get("uptime_s")), 3);
    assert_eq!(count(l.get("bytes_sent")), 5);

    let idle = &streams[1];
    assert!(matches!(idle.get("lingering"), Some(Json::Bool(true))));
    assert!(matches!(idle.get("engine"), Some(Json::Null)));
    assert!(list(idle.get("outputs")).is_empty());
    assert!(idle.get("missing").is_none());
}

#[test]
fn an_idle_service_reports_nothing() {
    let doc = snapshot(0, &vec![]);
    assert!(list(doc.get("streams")).is_empty());
    assert_eq!(count(doc.get("summary").unwrap().get("listeners")), 0);
}

#[test]
fn the_report_is_served_as_compact_json() {
    assert_eq!(
        document(7, &vec![]),
        r#"{"streams":[],"summary":{"encoders":0,"engine_pulls":0,"listeners":0},"uptime_s":7}"#
    );
    let mut stream: EngineStream<()> = EngineStream::new("e".into(), 0);
    stream.set_stats(serde_json::from_str(r#"{"peers":12,"speed":7.5,"x":["\u00e9"]}"#).unwrap());
    let text = document(0, &vec![stream_of(&stream, 0, vec![])]);
    let back: Value = serde_json::from_str(&text).unwrap();
    let s = &back["streams"][0];
    assert_eq!(s["content_id"].as_str(), Some("e"));
    assert_eq!(s["engine"]["speed"].as_f64(), Some(7.5));
    assert_eq!(s["engine"]["x"][0].as_str(), Some("\u{e9}"));
    assert!(s["source"]["video"].is_null());
    assert_eq!(s["lingering"].as_bool(), Some(true));
}
