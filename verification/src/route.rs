//! What each request is answered, and the settings it depends on.
use crate::http::{Response, ResponseView};
use crate::text;
use crate::format::{FragDurationMs, OutputFormat};
use vstd::prelude::*;

pub mod laws;

verus! {

/// The listen address for a setting: a bare `:port` listens on every address.
pub open spec fn address(setting: Seq<char>) -> Seq<char> {
    if setting.len() > 0 && setting[0] == ':' {
        "0.0.0.0"@ + setting
    } else {
        setting
    }
}

/// Accept Go's `:8080` shorthand alongside a full `host:port`.
pub fn normalise_addr(addr: &str) -> (r: String)
    ensures
        r@ == address(addr@),
{
    if addr.unicode_len() > 0 && addr.get_char(0) == ':' {
        let mut r = "0.0.0.0".to_owned();
        r.append(addr);
        r
    } else {
        addr.to_owned()
    }
}

/// What a fragment duration setting means: 0 restores keyframe-only
/// fragmentation. None if it is not a number of milliseconds.
pub open spec fn fragments(setting: Seq<char>) -> Option<FragDurationMs> {
    match text::number(setting) {
        Some(n) => if n == 0 {
            Some(None)
        } else if n <= u32::MAX {
            Some(Some(n as u32))
        } else {
            None
        },
        None => None,
    }
}

/// Read the fragment duration setting. `None` if it is not a number.
///
/// Fragments are cut on a timer as well as on keyframes: the moof cannot be
/// written until its fragment is complete, so with keyframe-only fragmentation
/// a viewer sits a whole GOP behind. Late joiners are still aligned to a
/// keyframe fragment (see `mp4::Piece::keyframe`), so the timed cut costs no
/// artifacts. 0 restores keyframe-only fragmentation.
pub fn frag_duration(setting: &str) -> (r: Option<FragDurationMs>)
    ensures
        r == fragments(setting@),
{
    match text::parse_number(setting) {
        Some(n) => if n == 0 {
            Some(None)
        } else if n <= u32::MAX as u64 {
            Some(Some(n as u32))
        } else {
            None
        },
        None => None,
    }
}

/// The path of a target: what stands before the query.
pub open spec fn path_of(url: Seq<char>) -> Seq<char> {
    url.take(text::position(url, '?'))
}

/// The value of the first pair in a query with the given key.
pub open spec fn value_in(query: Seq<char>, key: Seq<char>) -> Option<Seq<char>>
    decreases query.len(),
{
    let end = text::position(query, '&');
    let pair = query.take(end);
    let eq = text::position(pair, '=');
    if eq < pair.len() && pair.take(eq) == key {
        Some(pair.skip(eq + 1))
    } else if 0 <= end < query.len() {
        value_in(query.skip(end + 1), key)
    } else {
        None
    }
}

/// The value of a query parameter.
pub open spec fn param(url: Seq<char>, key: Seq<char>) -> Option<Seq<char>> {
    let q = text::position(url, '?');
    if q < url.len() {
        value_in(url.skip(q + 1), key)
    } else {
        None
    }
}

/// Extract a query parameter. Values here are a hex id and a fixed word list,
/// neither of which can be percent-encoded, so no decoding is needed.
pub fn query_param(url: &str, key: &str) -> (r: Option<String>)
    ensures
        crate::probe::name_of(r) == param(url@, key@),
{
    let mut rest: &str = match text::split_once(url, '?') {
        Some((_, query)) => query,
        None => {
            return None;
        },
    };
    loop
        invariant
            param(url@, key@) == value_in(rest@, key@),
        decreases rest@.len(),
    {
        proof {
            lemma_position(rest@, '&');
        }
        let (pair, more): (&str, Option<&str>) = match text::split_once(rest, '&') {
            Some((pair, more)) => (pair, Some(more)),
            None => (rest, None),
        };
        assert(pair@ =~= rest@.take(text::position(rest@, '&')));
        match text::split_once(pair, '=') {
            Some((k, v)) => {
                if text::same(k, key) {
                    return Some(v.to_owned());
                }
            },
            None => {},
        }
        match more {
            Some(m) => {
                rest = m;
            },
            None => {
                return None;
            },
        }
    }
}

/// Where the first `c` stands.
pub proof fn lemma_position(s: Seq<char>, c: char)
    ensures
        0 <= text::position(s, c) <= s.len(),
        text::position(s, c) < s.len() ==> s[text::position(s, c)] == c,
        forall|i: int| 0 <= i < text::position(s, c) ==> s[i] != c,
    decreases s.len(),
{
    if s.len() > 0 && s[0] != c {
        let rest = s.skip(1);
        lemma_position(rest, c);
        assert forall|i: int| 0 <= i < text::position(s, c) implies s[i] != c by {
            if i > 0 {
                assert(s[i] == rest[i - 1]);
            }
        }
    }
}

pub open spec fn is_hex(c: char) -> bool {
    '0' <= c <= '9' || 'a' <= c <= 'f' || 'A' <= c <= 'F'
}

/// Whether a text is a content id: forty hexadecimal digits.
pub open spec fn content_id(id: Seq<char>) -> bool {
    id.len() == 40 && forall|i: int| 0 <= i < id.len() ==> is_hex(#[trigger] id[i])
}

/// Whether a text is a content id. Server-side url construction plus this
/// check is what keeps a caller from steering the engine request somewhere
/// else.
pub fn valid_content_id(id: &str) -> (r: bool)
    ensures
        r == content_id(id@),
{
    if id.unicode_len() != 40 {
        return false;
    }
    let mut i: usize = 0;
    while i < 40
        invariant
            i <= 40,
            id@.len() == 40,
            forall|j: int| 0 <= j < i ==> is_hex(#[trigger] id@[j]),
        decreases 40 - i,
    {
        let c: char = id.get_char(i);
        if !((c >= '0' && c <= '9') || (c >= 'a' && c <= 'f') || (c >= 'A' && c <= 'F')) {
            assert(!is_hex(id@[i as int]));
            return false;
        }
        i = i + 1;
    }
    true
}

/// How a request is answered.
#[derive(Debug, PartialEq, Eq)]
pub enum Route {
    /// A CORS preflight. We advertise CORS, so it is answered even though a
    /// plain GET of a media URL does not trigger one.
    Preflight,
    /// At once, with a status and a text.
    Reply(u16, &'static str),
    /// With the state of the service.
    Status,
    /// With the head of a stream alone. Players commonly probe with a HEAD
    /// before the GET; starting the stream for it would start an engine pull
    /// and an ffmpeg, wait for a first fragment, and tear the lot down again.
    Probe(OutputFormat),
    /// With a stream.
    Stream(String, OutputFormat),
}

#[verifier::ext_equal]
pub enum RouteView {
    Preflight,
    Reply(u16, Seq<char>),
    Status,
    Probe(OutputFormat),
    Stream(Seq<char>, OutputFormat),
}

impl View for Route {
    type V = RouteView;

    open spec fn view(&self) -> RouteView {
        match self {
            Route::Preflight => RouteView::Preflight,
            Route::Reply(code, body) => RouteView::Reply(*code, body@),
            Route::Status => RouteView::Status,
            Route::Probe(fmt) => RouteView::Probe(*fmt),
            Route::Stream(id, fmt) => RouteView::Stream(id@, *fmt),
        }
    }
}

pub open spec fn usage() -> Seq<char> {
    "usage:\n  GET /audio?id=<40-hex content id>[&fmt=adts|mp3]\n  GET /video?id=<40-hex content id>\n  GET /status\n"@
}

/// How a request for a stream is answered.
pub open spec fn stream_route(method: Seq<char>, url: Seq<char>, video: bool) -> RouteView {
    let id = match param(url, "id"@) {
        Some(id) => id,
        None => ""@,
    };
    let fmt = if video {
        Some(OutputFormat::Fmp4)
    } else {
        crate::format::audio_format(
            match param(url, "fmt"@) {
                Some(word) => word,
                None => "adts"@,
            },
        )
    };
    if !content_id(id) {
        RouteView::Reply(400, "id must be a 40-char hex content id"@)
    } else if fmt is None {
        RouteView::Reply(400, "fmt must be adts or mp3"@)
    } else if method == "HEAD"@ {
        RouteView::Probe(fmt->0)
    } else {
        RouteView::Stream(id, fmt->0)
    }
}

/// How a request is answered.
pub open spec fn route_of(method: Seq<char>, url: Seq<char>) -> RouteView {
    let path = path_of(url);
    if method == "OPTIONS"@ {
        RouteView::Preflight
    } else if method != "GET"@ && method != "HEAD"@ {
        RouteView::Reply(405, "method not allowed"@)
    } else if path == "/audio"@ {
        stream_route(method, url, false)
    } else if path == "/video"@ {
        stream_route(method, url, true)
    } else if path == "/healthz"@ {
        RouteView::Reply(200, "ok"@)
    } else if path == "/status"@ {
        RouteView::Status
    } else if path == "/"@ {
        RouteView::Reply(200, usage())
    } else {
        RouteView::Reply(404, usage())
    }
}

/// How a request for a stream is answered.
fn serve_stream(method: &str, url: &str, video: bool) -> (r: Route)
    ensures
        r@ == stream_route(method@, url@, video),
{
    let id: String = match query_param(url, "id") {
        Some(id) => id,
        None => "".to_owned(),
    };
    if !valid_content_id(id.as_str()) {
        return Route::Reply(400, "id must be a 40-char hex content id");
    }
    let fmt: OutputFormat = if video {
        OutputFormat::Fmp4
    } else {
        let raw: String = match query_param(url, "fmt") {
            Some(word) => word,
            None => "adts".to_owned(),
        };
        match OutputFormat::parse_audio(raw.as_str()) {
            Some(f) => f,
            None => {
                return Route::Reply(400, "fmt must be adts or mp3");
            },
        }
    };
    // Answered before anything is started.
    if text::same(method, "HEAD") {
        return Route::Probe(fmt);
    }
    Route::Stream(id, fmt)
}

/// How a request is answered, from its method and its target.
pub fn handle(method: &str, url: &str) -> (r: Route)
    ensures
        r@ == route_of(method@, url@),
{
    if text::same(method, "OPTIONS") {
        return Route::Preflight;
    }
    if !text::same(method, "GET") && !text::same(method, "HEAD") {
        return Route::Reply(405, "method not allowed");
    }
    proof {
        lemma_position(url@, '?');
    }
    let path: &str = match text::split_once(url, '?') {
        Some((path, _)) => path,
        None => url,
    };
    assert(path@ =~= path_of(url@));
    if text::same(path, "/audio") {
        serve_stream(method, url, false)
    } else if text::same(path, "/video") {
        serve_stream(method, url, true)
    } else if text::same(path, "/healthz") {
        Route::Reply(200, "ok")
    } else if text::same(path, "/status") {
        Route::Status
    } else if text::same(path, "/") {
        Route::Reply(
            200,
            "usage:\n  GET /audio?id=<40-hex content id>[&fmt=adts|mp3]\n  GET /video?id=<40-hex content id>\n  GET /status\n",
        )
    } else {
        Route::Reply(
            404,
            "usage:\n  GET /audio?id=<40-hex content id>[&fmt=adts|mp3]\n  GET /video?id=<40-hex content id>\n  GET /status\n",
        )
    }
}

/// A plain answer: a status and a text, open to every origin.
pub open spec fn plain_answer(code: u16, body: Seq<char>) -> ResponseView {
    ResponseView {
        status: code,
        headers: seq![("Access-Control-Allow-Origin"@, "*"@)],
        body: vstd::utf8::encode_utf8(body),
    }
}

proof fn lemma_origin_header()
    ensures
        crate::http::good_header("Access-Control-Allow-Origin"@, "*"@),
{
    reveal_strlit("Access-Control-Allow-Origin");
    reveal_strlit("*");
}

pub fn reply(code: u16, body: &str) -> (r: Response)
    ensures
        r@ == plain_answer(code, body@),
        r@.wf(),
{
    proof {
        lemma_origin_header();
    }
    let r = Response::from_string(body).with_status_code(code).with_header(
        "Access-Control-Allow-Origin",
        "*",
    );
    assert(r@ =~= plain_answer(code, body@));
    r
}

/// The answer to a CORS preflight.
pub open spec fn preflight_answer() -> ResponseView {
    ResponseView {
        status: 204,
        headers: seq![
            ("Access-Control-Allow-Origin"@, "*"@),
            ("Access-Control-Allow-Methods"@, "GET, OPTIONS"@),
            ("Access-Control-Allow-Headers"@, "*"@),
        ],
        body: Seq::empty(),
    }
}

/// The answer to a status request.
pub open spec fn json_answer(document: Seq<char>) -> ResponseView {
    ResponseView {
        status: 200,
        headers: seq![
            ("Content-Type"@, "application/json"@),
            ("Cache-Control"@, "no-store"@),
            ("Access-Control-Allow-Origin"@, "*"@),
        ],
        body: vstd::utf8::encode_utf8(document),
    }
}

/// The answer to a probe of a stream.
pub open spec fn head_answer(fmt: OutputFormat) -> ResponseView {
    ResponseView {
        status: 200,
        headers: seq![
            ("Content-Type"@, crate::format::media_type(fmt)),
            ("Access-Control-Allow-Origin"@, "*"@),
        ],
        body: Seq::empty(),
    }
}

/// The answer to a stream that could not be started.
pub open spec fn failure_answer(why: Seq<char>) -> ResponseView {
    plain_answer(502, "could not start stream: "@ + why)
}

/// The answer to a stream that could not be started.
pub fn start_failure(why: &str) -> (r: Response)
    ensures
        r@ == plain_answer(502, "could not start stream: "@ + why@),
        r@ == failure_answer(why@),
        r@.wf(),
{
    let mut body = "could not start stream: ".to_owned();
    body.append(why);
    reply(502, body.as_str())
}

/// The answer to a CORS preflight.
pub fn preflight() -> (r: Response)
    ensures
        r@ == (ResponseView {
            status: 204,
            headers: seq![
                ("Access-Control-Allow-Origin"@, "*"@),
                ("Access-Control-Allow-Methods"@, "GET, OPTIONS"@),
                ("Access-Control-Allow-Headers"@, "*"@),
            ],
            body: Seq::empty(),
        }),
        r@ == preflight_answer(),
        r@.wf(),
{
    proof {
        lemma_origin_header();
        reveal_strlit("Access-Control-Allow-Methods");
        reveal_strlit("GET, OPTIONS");
        reveal_strlit("Access-Control-Allow-Headers");
        reveal_strlit("*");
    }
    let r = Response::empty(204).with_header("Access-Control-Allow-Origin", "*").with_header(
        "Access-Control-Allow-Methods",
        "GET, OPTIONS",
    ).with_header("Access-Control-Allow-Headers", "*");
    assert(r@.headers =~= seq![
        ("Access-Control-Allow-Origin"@, "*"@),
        ("Access-Control-Allow-Methods"@, "GET, OPTIONS"@),
        ("Access-Control-Allow-Headers"@, "*"@),
    ]);
    r
}

/// The answer to a status request: a JSON document.
pub fn status_answer(body: &str) -> (r: Response)
    ensures
        r@ == (ResponseView {
            status: 200,
            headers: seq![
                ("Content-Type"@, "application/json"@),
                ("Cache-Control"@, "no-store"@),
                ("Access-Control-Allow-Origin"@, "*"@),
            ],
            body: vstd::utf8::encode_utf8(body@),
        }),
        r@ == json_answer(body@),
        r@.wf(),
{
    proof {
        lemma_origin_header();
        reveal_strlit("Content-Type");
        reveal_strlit("application/json");
        reveal_strlit("Cache-Control");
        reveal_strlit("no-store");
    }
    let r = Response::from_string(body).with_header("Content-Type", "application/json").with_header(
        "Cache-Control",
        "no-store",
    ).with_header("Access-Control-Allow-Origin", "*");
    assert(r@.headers =~= seq![
        ("Content-Type"@, "application/json"@),
        ("Cache-Control"@, "no-store"@),
        ("Access-Control-Allow-Origin"@, "*"@),
    ]);
    r
}

/// The answer to a probe of a stream: its media type, and nothing started.
pub fn probe_answer(fmt: OutputFormat) -> (r: Response)
    ensures
        r@ == (ResponseView {
            status: 200,
            headers: seq![
                ("Content-Type"@, crate::format::media_type(fmt)),
                ("Access-Control-Allow-Origin"@, "*"@),
            ],
            body: Seq::empty(),
        }),
        r@ == head_answer(fmt),
        r@.wf(),
{
    proof {
        lemma_origin_header();
        reveal_strlit("Content-Type");
        reveal_strlit("audio/aac");
        reveal_strlit("audio/mpeg");
        reveal_strlit("video/mp4");
    }
    let r = Response::empty(200).with_header("Content-Type", fmt.content_type()).with_header(
        "Access-Control-Allow-Origin",
        "*",
    );
    assert(r@.headers =~= seq![
        ("Content-Type"@, crate::format::media_type(fmt)),
        ("Access-Control-Allow-Origin"@, "*"@),
    ]);
    r
}

/// The head that a stream is served under. A stream has no length to know, so
/// it is delimited by the close of the connection (RFC 9112 section 6.3),
/// which is valid for both HTTP/1.0 and HTTP/1.1 and costs only keep-alive,
/// worthless when a connection carries exactly one hours-long stream.
pub open spec fn stream_head_of(fmt: OutputFormat) -> Seq<char> {
    "HTTP/1.1 200 OK\r\nContent-Type: "@ + crate::format::media_type(fmt)
        + "\r\nCache-Control: no-store\r\nAccess-Control-Allow-Origin: *\r\nConnection: close\r\n\r\n"@
}

/// The head that a stream is served under.
pub fn stream_head(fmt: OutputFormat) -> (r: String)
    ensures
        r@ == stream_head_of(fmt),
{
    let mut head = "HTTP/1.1 200 OK\r\nContent-Type: ".to_owned();
    head.append(fmt.content_type());
    head.append(
        "\r\nCache-Control: no-store\r\nAccess-Control-Allow-Origin: *\r\nConnection: close\r\n\r\n",
    );
    head
}

/// A stream is started only for a GET, and only with a valid content id, which
/// is one that the target names.
pub proof fn law_a_stream_needs_a_get_and_a_valid_id(method: Seq<char>, url: Seq<char>)
    ensures
        route_of(method, url) matches RouteView::Stream(id, _) ==> {
            &&& method == "GET"@
            &&& content_id(id)
            &&& param(url, "id"@) == Some(id)
        },
{
    reveal_strlit("");
}

/// A HEAD is answered without starting anything.
pub proof fn law_head_starts_nothing(url: Seq<char>)
    ensures
        !(route_of("HEAD"@, url) is Stream),
{
    reveal_strlit("HEAD");
    reveal_strlit("OPTIONS");
}

/// /video is always served as fragmented MP4, and /audio never.
pub proof fn law_the_path_decides_about_video(method: Seq<char>, url: Seq<char>)
    ensures
        route_of(method, url) matches RouteView::Stream(_, fmt) ==> (fmt == OutputFormat::Fmp4
            <==> path_of(url) == "/video"@),
        route_of(method, url) matches RouteView::Probe(fmt) ==> (fmt == OutputFormat::Fmp4
            <==> path_of(url) == "/video"@),
{
    reveal_strlit("/video");
    reveal_strlit("/audio");
    assert("/video"@[1] != "/audio"@[1]);
}

/// A pair put into a query is read back from it, unless a pair before it has
/// the same key.
pub proof fn law_a_parameter_is_read_back(
    before: Seq<char>,
    key: Seq<char>,
    value: Seq<char>,
    behind: Seq<char>,
)
    requires
        !key.contains('=') && !key.contains('&'),
        !value.contains('&'),
        before.len() == 0 || before.last() == '&' && value_in(before.drop_last(), key) is None,
        behind.len() == 0 || behind[0] == '&',
    ensures
        value_in(before + key + seq!['='] + value + behind, key) == Some(value),
    decreases before.len(),
{
    let pair = key + seq!['='] + value;
    let query = before + key + seq!['='] + value + behind;
    let end = text::position(query, '&');
    lemma_position(query, '&');
    if before.len() == 0 {
        assert(query =~= pair + behind);
        assert(!pair.contains('&')) by {
            if pair.contains('&') {
                let i = choose|i: int| 0 <= i < pair.len() && pair[i] == '&';
                if i < key.len() {
                    assert(key[i] == '&');
                } else if i > key.len() {
                    assert(value[i - key.len() - 1] == '&');
                }
            }
        }
        if end < pair.len() {
            assert(pair[end] == '&');
        }
        if end > pair.len() {
            assert(query[pair.len() as int] == '&');
        }
        assert(query.take(end) =~= pair);
        lemma_position(pair, '=');
        let eq = text::position(pair, '=');
        assert(pair[key.len() as int] == '=');
        if eq < key.len() {
            assert(key[eq] == '=');
        }
        assert(pair.take(eq) =~= key);
        assert(pair.skip(eq + 1) =~= value);
    } else {
        let front = before.drop_last();
        let cut = text::position(front, '&');
        lemma_position(front, '&');
        assert(query[before.len() - 1] == '&');
        assert forall|i: int| 0 <= i < front.len() implies query[i] == front[i] by {}
        if end < cut {
            assert(front[end] == '&');
        }
        if cut < front.len() {
            assert(query[cut] == '&');
        }
        assert(end == cut);
        assert(query.take(end) =~= front.take(cut));
        let rest = before.skip(end + 1);
        assert(query.skip(end + 1) =~= rest + key + seq!['='] + value + behind);
        if cut < front.len() {
            assert(rest.drop_last() =~= front.skip(cut + 1));
        } else {
            assert(rest =~= Seq::empty());
        }
        law_a_parameter_is_read_back(rest, key, value, behind);
    }
}

} // verus!
