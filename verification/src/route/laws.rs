//! What requests are answered, by their words.
use super::RouteView;
use crate::format::OutputFormat;
use crate::text;
use vstd::prelude::*;

verus! {

proof fn lemma_behind(a: Seq<char>, c: char, b: Seq<char>)
    requires
        !a.contains(c),
    ensures
        text::position(a, c) == a.len(),
        text::position(a + seq![c] + b, c) == a.len(),
        (a + seq![c] + b).take(a.len() as int) == a,
        (a + seq![c] + b).skip(a.len() as int + 1) == b,
{
    let s = a + seq![c] + b;
    let n = a.len() as int;
    super::lemma_position(a, c);
    super::lemma_position(s, c);
    let p = text::position(s, c);
    assert(s[n] == c);
    if p < n {
        assert(a[p] == c);
    }
    if text::position(a, c) < n {
        assert(a[text::position(a, c)] == c);
    }
    assert(s.take(n) =~= a);
    assert(s.skip(n + 1) =~= b);
}

/// A query is read pair by pair, in order: what its first pair says counts
/// before what the others do.
pub proof fn law_a_query_is_read_pair_by_pair(a: Seq<char>, b: Seq<char>, key: Seq<char>)
    requires
        !a.contains('&'),
    ensures
        super::value_in(a + seq!['&'] + b, key) == if super::value_in(a, key) is Some {
            super::value_in(a, key)
        } else {
            super::value_in(b, key)
        },
{
    lemma_behind(a, '&', b);
    assert(a.take(a.len() as int) =~= a);
}

/// One pair gives its value to its key and to no other; a text without an
/// equals sign is no pair.
pub proof fn law_a_pair_gives_its_value_to_its_key(
    name: Seq<char>,
    value: Seq<char>,
    key: Seq<char>,
)
    requires
        !name.contains('=') && !name.contains('&'),
        !value.contains('&'),
    ensures
        super::value_in(name + seq!['='] + value, key) == if name == key {
            Some(value)
        } else {
            None
        },
        super::value_in(name, key) is None,
{
    let pair = name + seq!['='] + value;
    assert(!pair.contains('&')) by {
        if pair.contains('&') {
            let i = choose|i: int| 0 <= i < pair.len() && pair[i] == '&';
            if i < name.len() {
                assert(name[i] == '&');
            } else if i > name.len() {
                assert(value[i - name.len() - 1] == '&');
            }
        }
    }
    lemma_behind(pair, '&', Seq::empty());
    lemma_behind(name, '&', Seq::empty());
    lemma_behind(name, '=', value);
    assert(pair.take(pair.len() as int) =~= pair);
    assert(name.take(name.len() as int) =~= name);
}

/// The path and the parameters of a target are what stands before and behind
/// its first question mark; without one it has no parameters.
pub proof fn law_a_target_is_a_path_and_a_query(
    path: Seq<char>,
    query: Seq<char>,
    key: Seq<char>,
)
    requires
        !path.contains('?'),
    ensures
        super::path_of(path + seq!['?'] + query) == path,
        super::param(path + seq!['?'] + query, key) == super::value_in(query, key),
        super::path_of(path) == path,
        super::param(path, key) is None,
{
    lemma_behind(path, '?', query);
    assert(path.take(path.len() as int) =~= path);
}

/// Whether a text is forty hexadecimal digits, of either case.
pub open spec fn forty_hex(id: Seq<char>) -> bool {
    &&& id.len() == 40
    &&& forall|i: int|
        #![trigger id[i]]
        0 <= i < id.len() ==> seq![
            '0', '1', '2', '3', '4', '5', '6', '7', '8', '9', 'a', 'b', 'c', 'd', 'e', 'f', 'A',
            'B', 'C', 'D', 'E', 'F',
        ].contains(id[i])
}

/// A content id is forty hexadecimal digits and nothing else.
pub proof fn law_a_content_id_is_forty_hex_digits(id: Seq<char>)
    ensures
        super::content_id(id) <==> forty_hex(id),
{
    let all = seq![
        '0', '1', '2', '3', '4', '5', '6', '7', '8', '9', 'a', 'b', 'c', 'd', 'e', 'f', 'A', 'B',
        'C', 'D', 'E', 'F',
    ];
    assert forall|c: char| all.contains(c) <==> #[trigger] super::is_hex(c) by {
        if super::is_hex(c) {
            let n = c as int;
            let i = if n <= 57 {
                n - 48
            } else if n >= 97 {
                n - 87
            } else {
                n - 49
            };
            assert(0 <= i < 22);
            assert(all[i] as int == n);
            assert(all[i] == c);
        }
        if all.contains(c) {
            let i = choose|i: int| 0 <= i < all.len() && all[i] == c;
            assert(super::is_hex(all[i]));
        }
    }
    if super::content_id(id) {
        assert forall|i: int| #![trigger id[i]] 0 <= i < id.len() implies all.contains(id[i]) by {
            assert(super::is_hex(id[i]));
        }
    }
    if forty_hex(id) {
        assert forall|i: int| 0 <= i < id.len() implies super::is_hex(#[trigger] id[i]) by {
            assert(all.contains(id[i]));
        }
    }
}

proof fn lemma_words()
    ensures
        "GET"@ != "HEAD"@,
        "GET"@ != "OPTIONS"@,
        "HEAD"@ != "OPTIONS"@,
        "/audio"@ != "/video"@,
        "adts"@ != "mp3"@,
        !forty_hex(""@),
        !"/audio"@.contains('?'),
        !"/video"@.contains('?'),
{
    reveal_strlit("GET");
    reveal_strlit("HEAD");
    reveal_strlit("OPTIONS");
    reveal_strlit("/audio");
    reveal_strlit("/video");
    reveal_strlit("adts");
    reveal_strlit("mp3");
    reveal_strlit("");
    assert("GET"@.len() != "HEAD"@.len());
    assert("GET"@.len() != "OPTIONS"@.len());
    assert("HEAD"@.len() != "OPTIONS"@.len());
    assert("/audio"@[1] != "/video"@[1]);
    assert("adts"@.len() != "mp3"@.len());
}

/// A request for a stream with a valid id is served that stream: /video as
/// fragmented MP4, /audio as what `fmt` asks for, ADTS if it does not; a HEAD
/// is told the format alone. Any other `fmt` is refused.
pub proof fn law_a_valid_request_is_served(query: Seq<char>, id: Seq<char>)
    requires
        super::value_in(query, "id"@) == Some(id),
        forty_hex(id),
    ensures
        ({
            let audio = "/audio"@ + seq!['?'] + query;
            let video = "/video"@ + seq!['?'] + query;
            let fmt = super::value_in(query, "fmt"@);
            &&& super::route_of("GET"@, video) == RouteView::Stream(id, OutputFormat::Fmp4)
            &&& super::route_of("HEAD"@, video) == RouteView::Probe(OutputFormat::Fmp4)
            &&& fmt is None || fmt == Some("adts"@) ==> {
                &&& super::route_of("GET"@, audio) == RouteView::Stream(id, OutputFormat::Adts)
                &&& super::route_of("HEAD"@, audio) == RouteView::Probe(OutputFormat::Adts)
            }
            &&& fmt == Some("mp3"@) ==> {
                &&& super::route_of("GET"@, audio) == RouteView::Stream(id, OutputFormat::Mp3)
                &&& super::route_of("HEAD"@, audio) == RouteView::Probe(OutputFormat::Mp3)
            }
            &&& fmt is Some && fmt != Some("adts"@) && fmt != Some("mp3"@) ==> super::route_of(
                "GET"@,
                audio,
            ) == RouteView::Reply(400, "fmt must be adts or mp3"@)
        }),
{
    lemma_words();
    law_a_content_id_is_forty_hex_digits(id);
    law_a_target_is_a_path_and_a_query("/audio"@, query, "id"@);
    law_a_target_is_a_path_and_a_query("/audio"@, query, "fmt"@);
    law_a_target_is_a_path_and_a_query("/video"@, query, "id"@);
}

/// A request for a stream without a valid id is refused, whatever else it asks
/// for.
pub proof fn law_an_invalid_id_is_refused(method: Seq<char>, query: Seq<char>, video: bool)
    requires
        method == "GET"@ || method == "HEAD"@,
        super::value_in(query, "id"@) matches Some(id) ==> !forty_hex(id),
    ensures
        super::route_of(
            method,
            (if video {
                "/video"@
            } else {
                "/audio"@
            }) + seq!['?'] + query,
        ) == RouteView::Reply(400, "id must be a 40-char hex content id"@),
        super::route_of(
            method,
            if video {
                "/video"@
            } else {
                "/audio"@
            },
        ) == RouteView::Reply(400, "id must be a 40-char hex content id"@),
{
    lemma_words();
    law_a_target_is_a_path_and_a_query("/audio"@, query, "id"@);
    law_a_target_is_a_path_and_a_query("/video"@, query, "id"@);
    law_a_content_id_is_forty_hex_digits(""@);
    if let Some(id) = super::value_in(query, "id"@) {
        law_a_content_id_is_forty_hex_digits(id);
    }
}

/// Requests for anything but a stream: a preflight for OPTIONS, 405 for any
/// method but GET and HEAD, and for those the health check, the status, the
/// usage, and 404 with the usage for every path that is none of these.
pub proof fn law_other_requests_are_answered_at_once(method: Seq<char>, url: Seq<char>)
    ensures
        super::route_of("OPTIONS"@, url) is Preflight,
        method != "OPTIONS"@ && method != "GET"@ && method != "HEAD"@ ==> super::route_of(
            method,
            url,
        ) == RouteView::Reply(405, "method not allowed"@),
        method == "GET"@ || method == "HEAD"@ ==> {
            let path = super::path_of(url);
            &&& path == "/healthz"@ ==> super::route_of(method, url) == RouteView::Reply(
                200,
                "ok"@,
            )
            &&& path == "/status"@ ==> super::route_of(method, url) is Status
            &&& path == "/"@ ==> super::route_of(method, url) == RouteView::Reply(
                200,
                super::usage(),
            )
            &&& path != "/healthz"@ && path != "/status"@ && path != "/"@ && path != "/audio"@
                && path != "/video"@ ==> super::route_of(method, url) == RouteView::Reply(
                404,
                super::usage(),
            )
        },
{
    lemma_words();
    reveal_strlit("/healthz");
    reveal_strlit("/status");
    reveal_strlit("/");
    reveal_strlit("/audio");
    reveal_strlit("/video");
    assert("/healthz"@.len() == 8 && "/status"@.len() == 7 && "/"@.len() == 1 && "/audio"@.len()
        == 6 && "/video"@.len() == 6);
}

/// A plain answer has the status and the text that it was given, and is open
/// to every origin.
pub proof fn law_an_answer_is_open_to_every_origin(code: u16, body: Seq<char>)
    ensures
        ({
            let r = super::plain_answer(code, body);
            &&& r.status == code
            &&& r.body == vstd::utf8::encode_utf8(body)
            &&& r.headers == seq![("Access-Control-Allow-Origin"@, "*"@)]
        }),
{
}

/// A stream is served under a head that names its media type, forbids storing
/// it, opens it to every origin, and ends with the connection.
pub proof fn law_a_stream_is_served_as_its_media_type()
    ensures
        super::stream_head_of(OutputFormat::Adts) == "HTTP/1.1 200 OK\r\nContent-Type: "@
            + "audio/aac"@
            + "\r\nCache-Control: no-store\r\nAccess-Control-Allow-Origin: *\r\nConnection: close\r\n\r\n"@,
        super::stream_head_of(OutputFormat::Mp3) == "HTTP/1.1 200 OK\r\nContent-Type: "@
            + "audio/mpeg"@
            + "\r\nCache-Control: no-store\r\nAccess-Control-Allow-Origin: *\r\nConnection: close\r\n\r\n"@,
        super::stream_head_of(OutputFormat::Fmp4) == "HTTP/1.1 200 OK\r\nContent-Type: "@
            + "video/mp4"@
            + "\r\nCache-Control: no-store\r\nAccess-Control-Allow-Origin: *\r\nConnection: close\r\n\r\n"@,
{
}

/// A bare port listens on every address; any other setting stands as it is.
pub proof fn law_a_bare_port_listens_everywhere(port: Seq<char>, other: Seq<char>)
    requires
        other.len() == 0 || other[0] != ':',
    ensures
        super::address(seq![':'] + port) == "0.0.0.0:"@ + port,
        super::address(other) == other,
{
    reveal_strlit("0.0.0.0");
    reveal_strlit("0.0.0.0:");
    assert(super::address(seq![':'] + port) =~= "0.0.0.0:"@ + port);
}

/// A fragment duration is a number of milliseconds, of which zero means none;
/// what is no number, or too large a one, is no setting.
pub proof fn law_a_fragment_duration_is_read_back(ms: u64, setting: Seq<char>)
    ensures
        super::fragments(text::decimal(ms as nat)) == if ms == 0 {
            Some(None)
        } else if ms < 0x1_0000_0000 {
            Some(Some(ms as u32))
        } else {
            None
        },
        text::number(setting) is None ==> super::fragments(setting) is None,
{
    text::laws::law_a_number_is_read_back(ms);
}

/// The answers that are not plain: a preflight allows every origin and header,
/// and GET; a status is JSON that is not to be stored; a probe names the media
/// type and nothing more; a failed start is a bad gateway, with why.
pub proof fn law_every_answer_says_what_it_is(document: Seq<char>, why: Seq<char>)
    ensures
        ({
            let r = super::preflight_answer();
            &&& r.status == 204 && r.body.len() == 0
            &&& r.headers.contains(("Access-Control-Allow-Origin"@, "*"@))
            &&& r.headers.contains(("Access-Control-Allow-Methods"@, "GET, OPTIONS"@))
            &&& r.headers.contains(("Access-Control-Allow-Headers"@, "*"@))
        }),
        ({
            let r = super::json_answer(document);
            &&& r.status == 200 && r.body == vstd::utf8::encode_utf8(document)
            &&& r.headers.contains(("Content-Type"@, "application/json"@))
            &&& r.headers.contains(("Cache-Control"@, "no-store"@))
            &&& r.headers.contains(("Access-Control-Allow-Origin"@, "*"@))
        }),
        forall|fmt: OutputFormat|
            {
                let r = #[trigger] super::head_answer(fmt);
                &&& r.status == 200 && r.body.len() == 0
                &&& r.headers[0] == ("Content-Type"@, match fmt {
                    OutputFormat::Adts => "audio/aac"@,
                    OutputFormat::Mp3 => "audio/mpeg"@,
                    OutputFormat::Fmp4 => "video/mp4"@,
                })
                &&& r.headers[1] == ("Access-Control-Allow-Origin"@, "*"@)
                &&& r.headers.len() == 2
            },
        super::failure_answer(why) == super::plain_answer(502, "could not start stream: "@ + why),
        super::usage()
            == "usage:\n  GET /audio?id=<40-hex content id>[&fmt=adts|mp3]\n  GET /video?id=<40-hex content id>\n  GET /status\n"@,
{
    let p = super::preflight_answer().headers;
    assert(p[0] == ("Access-Control-Allow-Origin"@, "*"@));
    assert(p[1] == ("Access-Control-Allow-Methods"@, "GET, OPTIONS"@));
    assert(p[2] == ("Access-Control-Allow-Headers"@, "*"@));
    let j = super::json_answer(document).headers;
    assert(j[0] == ("Content-Type"@, "application/json"@));
    assert(j[1] == ("Cache-Control"@, "no-store"@));
    assert(j[2] == ("Access-Control-Allow-Origin"@, "*"@));
}

} // verus!
