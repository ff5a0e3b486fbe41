use acestream_proxy::format::OutputFormat;
use acestream_proxy::route::{
    frag_duration, handle, normalise_addr, preflight, probe_answer, query_param, reply,
    start_failure, status_answer, stream_head, valid_content_id, Route,
};
#[test]
fn accepts_only_40_char_hex_ids() {
    assert!(valid_content_id(&"a".repeat(40)));
    assert!(valid_content_id("0123456789ABCDEFabcdef0123456789abcdef01"));
    assert!(!valid_content_id(&"a".repeat(39)));
    assert!(!valid_content_id(&"a".repeat(41)));
    assert!(!valid_content_id(""));
    assert!(!valid_content_id(&"g".repeat(40)));
    // Server-side url construction plus this check is what keeps a caller
    // from steering the engine request somewhere else.
    assert!(!valid_content_id("../../etc/passwd"));
    assert!(!valid_content_id("http://internal/admin"));
}

#[test]
fn reads_query_parameters() {
    let url = "/audio?id=abc&fmt=mp3";
    assert_eq!(query_param(url, "id").as_deref(), Some("abc"));
    assert_eq!(query_param(url, "fmt").as_deref(), Some("mp3"));
    assert_eq!(query_param(url, "missing"), None);
    assert_eq!(query_param("/audio", "id"), None);
    assert_eq!(query_param("/audio?", "id"), None);
}

#[test]
fn query_parameters_do_not_match_by_prefix() {
    let url = "/audio?xid=nope&id=yes";
    assert_eq!(query_param(url, "id").as_deref(), Some("yes"));
}

#[test]
fn normalises_the_go_style_listen_address() {
    assert_eq!(normalise_addr(":8080"), "0.0.0.0:8080");
    assert_eq!(normalise_addr("127.0.0.1:9000"), "127.0.0.1:9000");
    assert_eq!(normalise_addr("0.0.0.0:8080"), "0.0.0.0:8080");
}

fn wire(r: acestream_proxy::http::Response) -> String {
    let mut out = Vec::new();
    r.write_to(&mut out, false);
    String::from_utf8(out).unwrap()
}

#[test]
fn routes_by_method_and_path() {
    let id = "a".repeat(40);
    assert_eq!(
        handle("GET", &format!("/audio?id={id}")),
        Route::Stream(id.clone(), OutputFormat::Adts)
    );
    assert_eq!(
        handle("GET", &format!("/audio?fmt=mp3&id={id}")),
        Route::Stream(id.clone(), OutputFormat::Mp3)
    );
    assert_eq!(
        handle("GET", &format!("/video?id={id}&fmt=mp3")),
        Route::Stream(id.clone(), OutputFormat::Fmp4)
    );
    assert_eq!(handle("GET", "/healthz"), Route::Reply(200, "ok"));
    assert_eq!(handle("GET", "/healthz?x"), Route::Reply(200, "ok"));
    assert_eq!(handle("GET", "/status"), Route::Status);
    assert_eq!(handle("OPTIONS", "/anything"), Route::Preflight);
    assert_eq!(
        handle("POST", "/status"),
        Route::Reply(405, "method not allowed")
    );
    assert!(matches!(handle("GET", "/"), Route::Reply(200, u) if u.starts_with("usage:\n")));
    assert!(matches!(handle("HEAD", "/nope"), Route::Reply(404, u) if u.ends_with("GET /status\n")));
}

#[test]
fn refuses_bad_ids_and_formats() {
    let id = "0".repeat(40);
    for url in ["/audio", "/audio?id=", "/video?id=xyz", "/audio?id=..%2F"] {
        assert_eq!(
            handle("GET", url),
            Route::Reply(400, "id must be a 40-char hex content id"),
            "{url}"
        );
    }
    assert_eq!(
        handle("GET", &format!("/audio?id={id}&fmt=fmp4")),
        Route::Reply(400, "fmt must be adts or mp3")
    );
    assert_eq!(
        handle("GET", &format!("/audio?id={id}&fmt=")),
        Route::Reply(400, "fmt must be adts or mp3")
    );
}

#[test]
fn a_head_starts_nothing() {
    let id = "f".repeat(40);
    assert_eq!(
        handle("HEAD", &format!("/video?id={id}")),
        Route::Probe(OutputFormat::Fmp4)
    );
    assert_eq!(
        handle("HEAD", &format!("/audio?id={id}")),
        Route::Probe(OutputFormat::Adts)
    );
    assert!(matches!(handle("HEAD", "/video"), Route::Reply(400, _)));
}

#[test]
fn the_first_pair_with_the_key_wins() {
    assert_eq!(query_param("/a?x&id=1&id=2", "id").as_deref(), Some("1"));
    assert_eq!(query_param("/a?id=a=b", "id").as_deref(), Some("a=b"));
    assert_eq!(query_param("/a?id=?&y=1", "id").as_deref(), Some("?"));
    assert_eq!(query_param("/a?id", "id"), None);
    assert_eq!(query_param("/a?=v", "").as_deref(), Some("v"));
}

#[test]
fn fragment_durations_are_whole_milliseconds() {
    assert_eq!(frag_duration("1000"), Some(Some(1000)));
    assert_eq!(frag_duration("0"), Some(None));
    assert_eq!(frag_duration("+5"), Some(Some(5)));
    assert_eq!(frag_duration("4294967295"), Some(Some(u32::MAX)));
    assert_eq!(frag_duration("4294967296"), None);
    for bad in ["", "-1", "1.5", " 1", "1s", "+", "99999999999999999999"] {
        assert_eq!(frag_duration(bad), None, "{bad:?}");
    }
}

#[test]
fn answers_as_they_go_over_the_wire() {
    assert_eq!(
        wire(reply(404, "no")),
        "HTTP/1.1 404 Not Found\r\nAccess-Control-Allow-Origin: *\r\n\
         Content-Length: 2\r\nConnection: close\r\n\r\nno"
    );
    assert_eq!(
        wire(preflight()),
        "HTTP/1.1 204 No Content\r\nAccess-Control-Allow-Origin: *\r\n\
         Access-Control-Allow-Methods: GET, OPTIONS\r\n\
         Access-Control-Allow-Headers: *\r\nConnection: close\r\n\r\n"
    );
    assert_eq!(
        wire(status_answer("{}")),
        "HTTP/1.1 200 OK\r\nContent-Type: application/json\r\nCache-Control: no-store\r\n\
         Access-Control-Allow-Origin: *\r\nContent-Length: 2\r\nConnection: close\r\n\r\n{}"
    );
    assert_eq!(
        wire(probe_answer(OutputFormat::Mp3)),
        "HTTP/1.1 200 OK\r\nContent-Type: audio/mpeg\r\nAccess-Control-Allow-Origin: *\r\n\
         Content-Length: 0\r\nConnection: close\r\n\r\n"
    );
    assert!(wire(start_failure("engine returned http 500"))
        .ends_with("\r\n\r\ncould not start stream: engine returned http 500"));
    assert!(wire(start_failure("x")).starts_with("HTTP/1.1 502 Bad Gateway\r\n"));
    assert_eq!(
        stream_head(OutputFormat::Fmp4),
        "HTTP/1.1 200 OK\r\nContent-Type: video/mp4\r\nCache-Control: no-store\r\n\
         Access-Control-Allow-Origin: *\r\nConnection: close\r\n\r\n"
    );
}
