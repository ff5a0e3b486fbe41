use acestream_proxy::http::head::{MAX_HEADER_LINES, MAX_HEAD_BYTES};
use acestream_proxy::http::{error_response, header_ok, io_error, read_head, reason, Error, Head, Response};

fn parse(raw: &[u8]) -> Result<Head, Error> {
    read_head(raw, true).unwrap()
}

fn head(method: &str, target: &str) -> Head {
    Head {
        method: method.into(),
        target: target.into(),
    }
}

#[test]
fn parses_a_minimal_request() {
    let raw = b"GET /audio?id=abc HTTP/1.1\r\nHost: x\r\nUser-Agent: mpv\r\n\r\n";
    assert_eq!(parse(raw).unwrap(), head("GET", "/audio?id=abc"));
}

#[test]
fn parses_head_and_options() {
    assert_eq!(
        parse(b"HEAD /video?id=a HTTP/1.1\r\n\r\n").unwrap(),
        head("HEAD", "/video?id=a")
    );
    assert_eq!(
        parse(b"OPTIONS /audio HTTP/1.1\r\nOrigin: http://x\r\n\r\n").unwrap(),
        head("OPTIONS", "/audio")
    );
}

#[test]
fn accepts_http_1_0() {
    // Close-delimited framing is valid for 1.0, and that is all we emit.
    assert_eq!(parse(b"GET / HTTP/1.0\r\n\r\n").unwrap(), head("GET", "/"));
}

// -- CR and LF must not survive parsing ----

#[test]
fn rejects_bare_lf_line_endings() {
    let raw = b"GET / HTTP/1.1\nHost: x\n\n";
    assert!(matches!(parse(raw), Err(Error::Malformed(_))));
}

#[test]
fn rejects_a_bare_lf_inside_a_header_value() {
    let raw = b"GET / HTTP/1.1\r\nX-Thing: a\nb\r\n\r\n";
    assert!(matches!(parse(raw), Err(Error::Malformed(_))));
}

#[test]
fn rejects_a_bare_cr_inside_a_header_value() {
    let raw = b"GET / HTTP/1.1\r\nX-Thing: a\rb\r\n\r\n";
    assert!(matches!(parse(raw), Err(Error::Malformed(_))));
}

#[test]
fn rejects_a_nul_in_the_head() {
    let raw = b"GET / HTTP/1.1\r\nX-Thing: a\0b\r\n\r\n";
    assert!(matches!(parse(raw), Err(Error::Malformed(_))));
}

// -- no body means no framing to disagree about ----------

#[test]
fn rejects_any_transfer_encoding() {
    for value in ["chunked", "identity", "gzip, chunked", "chunked, gzip"] {
        let raw = format!("POST / HTTP/1.1\r\nTransfer-Encoding: {value}\r\n\r\n");
        assert!(
            matches!(parse(raw.as_bytes()), Err(Error::TransferEncoding)),
            "accepted Transfer-Encoding: {value}"
        );
    }
}

#[test]
fn rejects_transfer_encoding_whatever_its_case() {
    let raw = b"POST / HTTP/1.1\r\ntRaNsFeR-eNcOdInG: chunked\r\n\r\n";
    assert!(matches!(parse(raw), Err(Error::TransferEncoding)));
}

#[test]
fn rejects_a_declared_body() {
    let raw = b"POST /audio HTTP/1.1\r\nContent-Length: 12\r\n\r\n";
    assert!(matches!(parse(raw), Err(Error::BodyNotAllowed)));
}

#[test]
fn allows_an_explicit_zero_length_body() {
    // Some clients send this on a plain GET.
    let raw = b"GET / HTTP/1.1\r\nContent-Length: 0\r\n\r\n";
    assert_eq!(parse(raw).unwrap(), head("GET", "/"));
}

#[test]
fn rejects_a_content_length_that_is_not_a_number() {
    let raw = b"GET / HTTP/1.1\r\nContent-Length: 1x\r\n\r\n";
    assert!(matches!(parse(raw), Err(Error::Malformed(_))));
}

#[test]
fn rejects_a_space_before_the_header_colon() {
    // The desync trick: one parser reads a header here, the other does not.
    let raw = b"GET / HTTP/1.1\r\nContent-Length : 12\r\n\r\n";
    assert!(matches!(parse(raw), Err(Error::Malformed(_))));
}

// -- Bounds -------------------------------------------------------------

#[test]
fn rejects_a_head_over_the_byte_cap() {
    let mut raw = b"GET / HTTP/1.1\r\n".to_vec();
    raw.extend_from_slice(b"X-Pad: ");
    raw.extend(std::iter::repeat_n(b'a', MAX_HEAD_BYTES));
    raw.extend_from_slice(b"\r\n\r\n");
    assert!(matches!(parse(&raw), Err(Error::TooLarge)));
}

#[test]
fn rejects_a_line_that_never_ends() {
    let mut raw = b"GET / HTTP/1.1\r\nX-Pad: ".to_vec();
    raw.extend(std::iter::repeat_n(b'a', MAX_HEAD_BYTES * 4));
    // No CRLF, ever. Must be bounded rather than buffered whole.
    assert!(matches!(parse(&raw), Err(Error::TooLarge)));
}

#[test]
fn rejects_too_many_header_lines() {
    let mut raw = b"GET / HTTP/1.1\r\n".to_vec();
    for i in 0..=MAX_HEADER_LINES {
        raw.extend_from_slice(format!("X-{i}: v\r\n").as_bytes());
    }
    raw.extend_from_slice(b"\r\n");
    assert!(matches!(parse(&raw), Err(Error::TooLarge)));
}

#[test]
fn rejects_a_head_with_no_blank_line() {
    let raw = b"GET / HTTP/1.1\r\nHost: x\r\n";
    assert!(matches!(parse(raw), Err(Error::Malformed(_))));
}

// -- Request line -------------------------------------------------------

#[test]
fn rejects_an_absolute_form_target() {
    // Routing a request somewhere other than where the front end intended.
    let raw = b"GET http://elsewhere/admin HTTP/1.1\r\n\r\n";
    assert!(matches!(parse(raw), Err(Error::Malformed(_))));
}

#[test]
fn rejects_a_malformed_request_line() {
    for raw in [
        &b"GET\r\n\r\n"[..],
        &b"GET /\r\n\r\n"[..],
        &b"GET / HTTP/1.1 extra\r\n\r\n"[..],
        &b"GET / RTSP/1.0\r\n\r\n"[..],
        &b"G3T / HTTP/1.1\r\n\r\n"[..],
        &b" / HTTP/1.1\r\n\r\n"[..],
    ] {
        assert!(
            matches!(parse(raw), Err(Error::Malformed(_))),
            "accepted {:?}",
            String::from_utf8_lossy(raw)
        );
    }
}

// -- Responses ----------------------------------------------------------

#[test]
fn writes_a_response_with_framing_and_close() {
    let mut out = Vec::new();
    Response::from_string("ok")
        .with_header("Content-Type", "text/plain")
        .write_to(&mut out, false);
    assert_eq!(
        String::from_utf8(out).unwrap(),
        "HTTP/1.1 200 OK\r\nContent-Type: text/plain\r\n\
         Content-Length: 2\r\nConnection: close\r\n\r\nok"
    );
}

#[test]
fn head_gets_the_framing_but_not_the_body() {
    let mut out = Vec::new();
    Response::from_string("ok").write_to(&mut out, true);
    let text = String::from_utf8(out).unwrap();
    assert!(text.contains("Content-Length: 2\r\n"));
    assert!(text.ends_with("\r\n\r\n"), "no body after the head: {text:?}");
}

#[test]
fn omits_content_length_on_204() {
    let mut out = Vec::new();
    Response::empty(204).write_to(&mut out, false);
    let text = String::from_utf8(out).unwrap();
    assert!(text.starts_with("HTTP/1.1 204 No Content\r\n"));
    assert!(!text.contains("Content-Length"));
}

#[test]
fn a_header_that_would_split_the_response_is_not_ok() {
    assert!(header_ok("X-Thing", "a"));
    assert!(header_ok("X-Thing", ""));
    assert!(!header_ok("X-Thing", "a\r\nInjected: yes"));
    assert!(!header_ok("X-Thing", "a\nb"));
    assert!(!header_ok("X-Thing", "a\0b"));
    for name in ["", "a b", "a:b", "a\r", "\u{e9}"] {
        assert!(!header_ok(name, "v"), "{name:?}");
    }
}

// -- Reading piecemeal --------------------------------------------------------

#[test]
fn asks_for_more_until_the_outcome_is_settled() {
    let raw = b"GET /audio HTTP/1.1\r\nHost: x\r\n\r\n";
    for n in 0..raw.len() {
        assert!(read_head(&raw[..n], false).is_none(), "{n} bytes");
        assert!(read_head(&raw[..n], true).is_some(), "{n} bytes and no more");
    }
    assert_eq!(
        read_head(raw, false).unwrap().unwrap(),
        head("GET", "/audio")
    );
    // What follows the blank line changes nothing.
    let mut more = raw.to_vec();
    more.extend(b"junk\n\0");
    assert_eq!(
        read_head(&more, false).unwrap().unwrap(),
        head("GET", "/audio")
    );
}

#[test]
fn refuses_as_soon_as_the_line_is_there() {
    assert!(matches!(
        read_head(b"GET /\r\n", false),
        Some(Err(Error::Malformed("no version")))
    ));
    let long = vec![b'a'; MAX_HEAD_BYTES];
    assert!(read_head(&long[1..], false).is_none());
    assert!(matches!(read_head(&long, false), Some(Err(Error::TooLarge))));
}

#[test]
fn the_caps_are_exact() {
    let mut raw = b"GET / HTTP/1.1\r\nX: ".to_vec();
    raw.resize(MAX_HEAD_BYTES - 4, b'a');
    raw.extend(b"\r\n\r\n");
    assert_eq!(raw.len(), MAX_HEAD_BYTES);
    assert_eq!(parse(&raw).unwrap(), head("GET", "/"));
    raw.insert(30, b'a');
    assert!(matches!(parse(&raw), Err(Error::TooLarge)));

    let mut raw = b"GET / HTTP/1.1\r\n".to_vec();
    for _ in 0..MAX_HEADER_LINES {
        raw.extend(b"A: b\r\n");
    }
    raw.extend(b"\r\n");
    assert_eq!(parse(&raw).unwrap(), head("GET", "/"));
}

#[test]
fn each_refusal_has_its_reason() {
    for (raw, what) in [
        (&b""[..], "line not CRLF-terminated"),
        (b"GET / HTTP/1.1\n", "line not CRLF-terminated"),
        (b"G\rT / HTTP/1.1\r\n", "control byte in head"),
        (b"GET\r\n", "no request target"),
        (b"GET /\r\n", "no version"),
        (b"GET / HTTP/1.1 x\r\n", "extra field in request line"),
        (b" / HTTP/1.1\r\n", "bad method"),
        (b"ABCDEFGHIJKLMNOPQ / HTTP/1.1\r\n", "bad method"),
        (b"GET / HTTP/2.0\r\n", "unsupported version"),
        (b"GET x HTTP/1.1\r\n", "bad request target"),
        (b"GET /\x7F HTTP/1.1\r\n", "bad request target"),
        (b"GET / HTTP/1.1\r\nHost\r\n", "header without a colon"),
        (b"GET / HTTP/1.1\r\n: x\r\n", "bad header name"),
        (b"GET / HTTP/1.1\r\nA\tB: x\r\n", "bad header name"),
        (b"GET / HTTP/1.1\r\nContent-Length: \xFF\r\n", "non-ascii content-length"),
        (b"GET / HTTP/1.1\r\nContent-Length:\r\n", "bad content-length"),
        (b"GET / HTTP/1.1\r\nContent-Length: -0\r\n", "bad content-length"),
        (
            b"GET / HTTP/1.1\r\nContent-Length: 18446744073709551616\r\n",
            "bad content-length",
        ),
    ] {
        match parse(raw) {
            Err(Error::Malformed(got)) => assert_eq!(got, what, "{raw:?}"),
            other => panic!("{raw:?}: {other:?}"),
        }
    }
}

#[test]
fn content_lengths_are_read_as_numbers() {
    for zero in ["0", " 0 ", "000", "+0", "\u{a0}0\u{2003}"] {
        let raw = format!("GET / HTTP/1.1\r\nCONTENT-length:{zero}\r\n\r\n");
        assert_eq!(parse(raw.as_bytes()).unwrap(), head("GET", "/"), "{zero:?}");
    }
    for some in ["1", "+7", "18446744073709551615"] {
        let raw = format!("GET / HTTP/1.1\r\nContent-Length: {some}\r\n\r\n");
        assert!(
            matches!(parse(raw.as_bytes()), Err(Error::BodyNotAllowed)),
            "{some:?}"
        );
    }
}

#[test]
fn errors_are_answered_with_their_status_and_words() {
    for (e, status, words) in [
        (Error::Malformed("no version"), 400, "malformed request (no version)"),
        (Error::TooLarge, 431, "request head too large"),
        (Error::BodyNotAllowed, 400, "request body not allowed"),
        (Error::TransferEncoding, 501, "transfer-encoding not supported"),
        (io_error(true, "late".into()), 408, "timed out reading the request head"),
        (io_error(false, "reset".into()), 400, "reset"),
    ] {
        assert_eq!(e.status(), status);
        assert_eq!(e.describe(), words);
        let mut out = Vec::new();
        error_response(&e).write_to(&mut out, false);
        let text = String::from_utf8(out).unwrap();
        assert_eq!(
            text,
            format!(
                "HTTP/1.1 {status} {}\r\nContent-Length: {}\r\nConnection: close\r\n\r\n{words}\n",
                reason(status),
                words.len() + 1
            )
        );
    }
}

#[test]
fn unknown_statuses_still_have_a_reason() {
    assert_eq!(reason(418), "Status");
    assert_eq!(reason(502), "Bad Gateway");
}

#[test]
fn a_204_or_304_is_sent_without_a_body() {
    for (status, phrase) in [(204, "No Content"), (304, "Status")] {
        for head_only in [false, true] {
            let mut out = Vec::new();
            Response::from_string("x")
                .with_status_code(status)
                .write_to(&mut out, head_only);
            assert_eq!(
                String::from_utf8(out).unwrap(),
                format!("HTTP/1.1 {status} {phrase}\r\nConnection: close\r\n\r\n")
            );
        }
    }
}
