//! Requests and responses as they go over the wire: what is written that way
//! is read back.
use super::head;
use super::head::HeadView;
use super::laws;
use super::{ErrorView, ResponseView};
use crate::text;
use vstd::prelude::*;

verus! {

/// Whether these bytes are letters.
pub open spec fn letters(m: Seq<u8>) -> bool {
    forall|i: int|
        #![trigger m[i]]
        0 <= i < m.len() ==> 0x41 <= m[i] <= 0x5A || 0x61 <= m[i] <= 0x7A
}

/// Whether these bytes are visible ASCII.
pub open spec fn visible(t: Seq<u8>) -> bool {
    forall|i: int| #![trigger t[i]] 0 <= i < t.len() ==> 0x21 <= t[i] <= 0x7E
}

/// `HTTP/1.`
pub open spec fn http_1() -> Seq<u8> {
    seq![0x48u8, 0x54, 0x54, 0x50, 0x2F, 0x31, 0x2E]
}

/// A method, a target and a version, with one space between them.
pub open spec fn request_line(m: Seq<u8>, t: Seq<u8>, v: Seq<u8>) -> Seq<u8> {
    m + seq![0x20u8] + t + seq![0x20u8] + v
}

/// Whether a method is one to sixteen letters, a target begins with a slash
/// and is visible throughout, and a version is one of HTTP/1.
pub open spec fn understood(m: Seq<u8>, t: Seq<u8>, v: Seq<u8>) -> bool {
    &&& 1 <= m.len() <= 16
    &&& letters(m)
    &&& t.len() > 0
    &&& t[0] == 0x2F
    &&& visible(t)
    &&& v.len() >= 7
    &&& v.take(7) == http_1()
    &&& !v.contains(0x20)
}

/// Bytes as characters, one for one.
pub open spec fn spelt(b: Seq<u8>) -> Seq<char> {
    b.map_values(|x: u8| x as char)
}

/// A request line that is understood is read as its method and its target.
pub proof fn law_a_request_line_is_read_back(m: Seq<u8>, t: Seq<u8>, v: Seq<u8>)
    requires
        understood(m, t, v),
    ensures
        head::request_in(request_line(m, t, v)) == Ok::<HeadView, ErrorView>(
            HeadView { method: spelt(m), target: spelt(t) },
        ),
{
    let line = request_line(m, t, v);
    let i = m.len() as int;
    let j = i + 1 + t.len();
    assert(line[i] == 0x20 && line[j] == 0x20);
    assert(forall|k: int| 0 <= k < i ==> line[k] == m[k]);
    assert(forall|k: int| i < k < j ==> line[k] == t[k - i - 1]);
    assert(forall|k: int| j < k < line.len() ==> line[k] == v[k - j - 1]);
    head::lemma_find(line, 32, 0);
    let a = head::find(line, 32, 0);
    if a < i {
        assert(m[a] == 0x20);
    }
    assert(a == i);
    head::lemma_find(line, 32, i + 1);
    let b = head::find(line, 32, i + 1);
    if b < j {
        assert(t[b - i - 1] == 0x20);
    }
    assert(b == j);
    head::lemma_find(line, 32, j + 1);
    let c = head::find(line, 32, j + 1);
    if c < line.len() {
        assert(v[c - j - 1] == 0x20);
    }
    assert(line.take(i) =~= m);
    assert(line.subrange(i + 1, j) =~= t);
    assert(line.skip(j + 1) =~= v);
    assert(v.take(7) == seq![72u8, 84, 84, 80, 47, 49, 46]);
    assert(forall|k: int| 0 <= k < m.len() ==> head::is_alpha(#[trigger] m[k]));
    assert(forall|k: int| 0 <= k < t.len() ==> head::is_visible(#[trigger] t[k]));
    assert(text::ascii(m) =~= spelt(m));
    assert(text::ascii(t) =~= spelt(t));
}

/// Only a request line that is understood is read at all, and as nothing but
/// what it says; any other is malformed.
pub proof fn law_only_such_a_request_line_is_read(line: Seq<u8>) -> (r: (
    Seq<u8>,
    Seq<u8>,
    Seq<u8>,
))
    ensures
        head::request_in(line) matches Ok(h) ==> {
            &&& line == request_line(r.0, r.1, r.2)
            &&& understood(r.0, r.1, r.2)
            &&& h == (HeadView { method: spelt(r.0), target: spelt(r.1) })
        },
        head::request_in(line) matches Err(e) ==> e is Malformed,
{
    head::lemma_find(line, 32, 0);
    let i = head::find(line, 32, 0);
    if i < line.len() {
        head::lemma_find(line, 32, i + 1);
    }
    let j = head::find(line, 32, i + 1);
    if i < line.len() && j < line.len() {
        head::lemma_find(line, 32, j + 1);
    }
    let m = line.take(i);
    let t = line.subrange(i + 1, j);
    let v = line.skip(j + 1);
    if let Ok(h) = head::request_in(line) {
        assert(line =~= request_line(m, t, v));
        assert(forall|k: int| 0 <= k < m.len() ==> head::is_alpha(#[trigger] m[k]));
        assert(forall|k: int| 0 <= k < t.len() ==> head::is_visible(#[trigger] t[k]));
        assert(!v.contains(0x20)) by {
            if v.contains(0x20) {
                let k = choose|k: int| 0 <= k < v.len() && v[k] == 0x20;
                assert(line[j + 1 + k] == 0x20);
            }
        }
        assert(v.take(7) =~= http_1());
        assert(text::ascii(m) =~= spelt(m));
        assert(text::ascii(t) =~= spelt(t));
    }
    (m, t, v)
}

/// Whether a name is a lower-case word, in any case.
pub open spec fn spells(name: Seq<u8>, word: Seq<char>) -> bool {
    &&& name.len() == word.len()
    &&& forall|i: int|
        #![trigger name[i]]
        #![trigger word[i]]
        0 <= i < name.len() ==> name[i] == word[i] as int || ('a' <= word[i] <= 'z' && name[i] + 32
            == word[i] as int)
}

proof fn lemma_spells(name: Seq<u8>, word: Seq<char>)
    requires
        forall|i: int| 0 <= i < word.len() ==> !('A' <= #[trigger] word[i] <= 'Z'),
    ensures
        head::is_named(name, word) <==> spells(name, word),
{
    let low = text::ascii(name.map_values(|c: u8| head::lower(c)));
    assert(low.len() == name.len());
    assert(forall|i: int| 0 <= i < name.len() ==> low[i] == head::lower(name[i]) as char);
    if low == word {
        assert forall|i: int|
            #![trigger name[i]]
            0 <= i < name.len() implies name[i] == word[i] as int || ('a' <= word[i] <= 'z'
            && name[i] + 32 == word[i] as int) by {
            assert(low[i] == word[i]);
        }
    }
    if spells(name, word) {
        assert forall|i: int| 0 <= i < name.len() implies low[i] == word[i] by {
            assert(name[i] == name[i]);
            assert(!('A' <= word[i] <= 'Z'));
        }
        assert(low =~= word);
    }
}

/// A header line.
pub open spec fn header_line(name: Seq<u8>, value: Seq<u8>) -> Seq<u8> {
    name + seq![0x3Au8] + value
}

/// Whether a name may be a header's: not empty, and without a colon or a
/// blank.
pub open spec fn plain_name(name: Seq<u8>) -> bool {
    &&& name.len() > 0
    &&& !name.contains(0x3A)
    &&& !name.contains(0x20) && !name.contains(0x09) && !name.contains(0x0A) && !name.contains(0x0C)
        && !name.contains(0x0D)
}

proof fn lemma_header_line(name: Seq<u8>, value: Seq<u8>)
    requires
        !name.contains(0x3A),
    ensures
        ({
            let line = header_line(name, value);
            &&& head::find(line, 58, 0) == name.len() < line.len()
            &&& line.take(name.len() as int) == name
            &&& line.skip(name.len() as int + 1) == value
        }),
{
    let line = header_line(name, value);
    let n = name.len() as int;
    head::lemma_find(line, 58, 0);
    let c = head::find(line, 58, 0);
    assert(line[n] == 0x3A);
    if c < n {
        assert(name[c] == 0x3A);
    }
    assert(line.take(n) =~= name);
    assert(line.skip(n + 1) =~= value);
}

proof fn lemma_framing_words()
    ensures
        forall|i: int|
            0 <= i < "transfer-encoding"@.len() ==> !('A' <= #[trigger] "transfer-encoding"@[i]
                <= 'Z'),
        forall|i: int|
            0 <= i < "content-length"@.len() ==> !('A' <= #[trigger] "content-length"@[i] <= 'Z'),
        "transfer-encoding"@.len() == 17,
        "content-length"@.len() == 14,
{
    reveal_strlit("transfer-encoding");
    reveal_strlit("content-length");
}

proof fn lemma_plain(name: Seq<u8>)
    requires
        plain_name(name),
    ensures
        forall|i: int| 0 <= i < name.len() ==> !head::is_blank(#[trigger] name[i]),
{
    assert forall|i: int| 0 <= i < name.len() implies !head::is_blank(#[trigger] name[i]) by {
        assert(name.contains(name[i]));
    }
}

/// A transfer coding is refused as such, whatever it is and however its name
/// is written.
pub proof fn law_a_transfer_coding_is_refused(name: Seq<u8>, value: Seq<u8>)
    requires
        plain_name(name),
        spells(name, "transfer-encoding"@),
    ensures
        head::refusal(header_line(name, value)) == Some(ErrorView::TransferEncoding),
{
    lemma_framing_words();
    lemma_header_line(name, value);
    lemma_plain(name);
    lemma_spells(name, "transfer-encoding"@);
}

/// A declared length is refused unless it is zero: a number as a body that is
/// not allowed, anything else as malformed.
pub proof fn law_a_declared_body_is_refused(
    name: Seq<u8>,
    value: Seq<u8>,
    a: Seq<char>,
    n: u64,
    b: Seq<char>,
)
    requires
        plain_name(name),
        spells(name, "content-length"@),
        forall|i: int| 0 <= i < a.len() ==> #[trigger] a[i] == ' ',
        forall|i: int| 0 <= i < b.len() ==> #[trigger] b[i] == ' ',
    ensures
        vstd::utf8::valid_utf8(value) && vstd::utf8::decode_utf8(value) == a + text::decimal(
            n as nat,
        ) + b ==> head::refusal(header_line(name, value)) == if n == 0 {
            None
        } else {
            Some(ErrorView::BodyNotAllowed)
        },
        !vstd::utf8::valid_utf8(value) ==> head::refusal(
            header_line(name, value),
        ) matches Some(ErrorView::Malformed(_)),
{
    lemma_framing_words();
    lemma_header_line(name, value);
    lemma_plain(name);
    lemma_spells(name, "content-length"@);
    lemma_spells(name, "transfer-encoding"@);
    let s = text::decimal(n as nat);
    text::laws::law_a_number_is_read_back(n);
    text::laws::lemma_decimal(n as nat);
    assert(text::is_digit(s[0]) && text::is_digit(s[s.len() - 1]));
    assert(forall|i: int| 0 <= i < a.len() ==> text::is_space(#[trigger] a[i]));
    assert(forall|i: int| 0 <= i < b.len() ==> text::is_space(#[trigger] b[i]));
    text::laws::law_trimming_takes_the_space_around(a, s, b);
}

/// Every other header is let pass, and none with a name that two readers could
/// take for different ones.
pub proof fn law_other_headers_are_let_pass(name: Seq<u8>, value: Seq<u8>)
    requires
        !name.contains(0x3A),
    ensures
        plain_name(name) && !spells(name, "transfer-encoding"@) && !spells(name, "content-length"@)
            ==> head::refusal(header_line(name, value)) is None,
        !plain_name(name) ==> head::refusal(
            header_line(name, value),
        ) matches Some(ErrorView::Malformed(_)),
        head::refusal(name) matches Some(ErrorView::Malformed(_)),
{
    lemma_framing_words();
    lemma_header_line(name, value);
    lemma_spells(name, "content-length"@);
    lemma_spells(name, "transfer-encoding"@);
    if plain_name(name) {
        lemma_plain(name);
    } else if name.len() > 0 {
        let c: u8 = if name.contains(0x20) {
            0x20
        } else if name.contains(0x09) {
            0x09
        } else if name.contains(0x0A) {
            0x0A
        } else if name.contains(0x0C) {
            0x0C
        } else {
            0x0D
        };
        assert(name.contains(c));
        let i = choose|i: int| 0 <= i < name.len() && name[i] == c;
        assert(head::is_blank(name[i]));
    }
    head::lemma_find(name, 58, 0);
    if head::find(name, 58, 0) < name.len() {
        assert(name.contains(0x3A));
    }
}

proof fn lemma_too_many(
    b: Seq<u8>,
    at: int,
    seen: int,
    hs: Seq<Seq<u8>>,
    eof: bool,
    h: HeadView,
)
    requires
        0 <= at,
        0 <= seen <= 64,
        seen + hs.len() == 65,
        laws::bodiless(hs),
        ({
            let text = laws::lines_text(hs);
            &&& at + text.len() <= b.len()
            &&& at + text.len() <= 8192
            &&& b.subrange(at, at + text.len()) == text
        }),
    ensures
        head::headers_from(b, at, seen, eof, h) == Some(Err::<HeadView, ErrorView>(
            ErrorView::TooLarge,
        )),
    decreases hs.len(),
{
    let text = laws::lines_text(hs);
    let line = hs[0];
    let rest = hs.skip(1);
    let next = at + line.len() + 2;
    let tail = laws::lines_text(rest);
    assert(text =~= line + laws::crlf() + tail);
    assert(b.subrange(at, next) =~= line + laws::crlf()) by {
        assert(b.subrange(at, at + text.len()).take(next - at) =~= b.subrange(at, next));
        assert(text.take(next - at) =~= line + laws::crlf());
    }
    laws::lemma_line_got(b, at, line, eof);
    if seen < 64 {
        assert(b.subrange(next, next + tail.len()) =~= tail) by {
            assert(b.subrange(at, at + text.len()).skip(next - at) =~= b.subrange(
                next,
                next + tail.len(),
            ));
            assert(text.skip(next - at) =~= tail);
        }
        assert forall|i: int| 0 <= i < rest.len() implies {
            &&& (#[trigger] rest[i]).len() > 0
            &&& laws::clean(rest[i])
            &&& head::refusal(rest[i]) is None
        } by {
            assert(rest[i] == hs[i + 1]);
        }
        lemma_too_many(b, next, seen + 1, rest, eof, h);
    }
}

/// A head of up to 64 header lines and 8192 bytes is read, whatever follows it;
/// a 65th line makes it too large.
pub proof fn law_a_head_is_read_within_its_bounds(
    m: Seq<u8>,
    t: Seq<u8>,
    v: Seq<u8>,
    hs: Seq<Seq<u8>>,
    rest: Seq<u8>,
    eof: bool,
)
    requires
        understood(m, t, v),
        laws::clean(v),
        laws::bodiless(hs),
        ({
            let lines = request_line(m, t, v) + seq![13u8, 10] + laws::lines_text(hs);
            lines.len() + 2 <= 8192
        }),
    ensures
        ({
            let lines = request_line(m, t, v) + seq![13u8, 10] + laws::lines_text(hs);
            let whole = lines + seq![13u8, 10] + rest;
            &&& hs.len() <= 64 ==> head::head_in(whole, eof) == Some(
                Ok::<HeadView, ErrorView>(HeadView { method: spelt(m), target: spelt(t) }),
            )
            &&& hs.len() == 65 ==> head::head_in(whole, eof) == Some(
                Err::<HeadView, ErrorView>(ErrorView::TooLarge),
            )
        }),
{
    let line = request_line(m, t, v);
    let h = HeadView { method: spelt(m), target: spelt(t) };
    let lines = line + seq![13u8, 10] + laws::lines_text(hs);
    let whole = lines + seq![13u8, 10] + rest;
    law_a_request_line_is_read_back(m, t, v);
    assert(laws::clean(line)) by {
        assert forall|c: u8| c == 13 || c == 10 || c == 0 implies !#[trigger] line.contains(c) by {
            if line.contains(c) {
                let k = choose|k: int| 0 <= k < line.len() && line[k] == c;
                let i = m.len() as int;
                let j = i + 1 + t.len();
                if k < i {
                    assert(line[k] == m[k]);
                } else if i < k < j {
                    assert(line[k] == t[k - i - 1]);
                } else if k > j {
                    assert(line[k] == v[k - j - 1]);
                    assert(v.contains(c));
                }
            }
        }
    }
    assert(laws::crlf() =~= seq![13u8, 10]);
    if hs.len() <= 64 {
        assert(whole =~= laws::head_text(line, hs) + rest);
        laws::law_servable_heads_are_accepted(line, hs, h, rest, eof);
    } else if hs.len() == 65 {
        let at = line.len() as int + 2;
        let text = laws::lines_text(hs);
        assert(whole.subrange(0, at) =~= line + laws::crlf());
        laws::lemma_line_got(whole, 0, line, eof);
        assert(whole.subrange(at, at + text.len()) =~= text);
        lemma_too_many(whole, at, 0, hs, eof, h);
    }
}

/// What goes over the wire: the status line, a line for each header, the
/// length of the body and the close, a blank line, the body. A status that has
/// no body has no length either.
pub proof fn law_a_response_is_framed_by_its_length(r: ResponseView, head_only: bool)
    ensures
        r.status != 204 && r.status != 304 ==> r.wire(head_only) == vstd::utf8::encode_utf8(
            "HTTP/1.1 "@ + text::decimal(r.status as nat) + " "@ + super::reason_of(r.status)
                + "\r\n"@ + super::header_lines(r.headers) + ("Content-Length: "@ + text::decimal(
                r.body.len(),
            ) + "\r\n"@) + "Connection: close\r\n\r\n"@,
        ) + if head_only {
            Seq::empty()
        } else {
            r.body
        },
        r.status == 204 || r.status == 304 ==> r.wire(head_only) == vstd::utf8::encode_utf8(
            "HTTP/1.1 "@ + text::decimal(r.status as nat) + " "@ + super::reason_of(r.status)
                + "\r\n"@ + super::header_lines(r.headers) + "Connection: close\r\n\r\n"@,
        ),
{
    if r.status == 204 || r.status == 304 {
        let none = Seq::<char>::empty();
        let before = "HTTP/1.1 "@ + text::decimal(r.status as nat) + " "@ + super::reason_of(
            r.status,
        ) + "\r\n"@ + super::header_lines(r.headers);
        assert(before + none =~= before);
        assert(r.wire(head_only) =~= vstd::utf8::encode_utf8(r.head()));
    }
}

/// Headers are written one to a line, in order, as name, colon, space, value.
pub proof fn law_headers_are_written_one_to_a_line(
    hs: Seq<(Seq<char>, Seq<char>)>,
    name: Seq<char>,
    value: Seq<char>,
)
    ensures
        super::header_lines(Seq::empty()) == Seq::<char>::empty(),
        super::header_lines(hs.push((name, value))) == super::header_lines(hs) + (name + ": "@
            + value + "\r\n"@),
{
    let all = hs.push((name, value));
    assert(all.drop_last() =~= hs);
    assert(super::header_lines(all) =~= super::header_lines(hs) + (name + ": "@ + value
        + "\r\n"@));
}

/// A header can be sent exactly if its name is visible ASCII without a colon
/// and its value holds nothing that ends a line.
pub proof fn law_a_good_header_splits_nothing(name: Seq<char>, value: Seq<char>)
    ensures
        super::good_header(name, value) <==> {
            &&& name.len() > 0
            &&& forall|i: int|
                #![trigger name[i]]
                0 <= i < name.len() ==> '!' <= name[i] <= '~' && name[i] != ':'
            &&& !value.contains('\r') && !value.contains('\n') && !value.contains('\0')
        },
{
    if super::good_header(name, value) {
        assert forall|i: int|
            #![trigger name[i]]
            0 <= i < name.len() implies '!' <= name[i] <= '~' && name[i] != ':' by {
            assert(super::name_char(name[i]));
        }
        assert forall|c: char| c == '\r' || c == '\n' || c == '\0' implies !#[trigger] value.contains(
            c,
        ) by {
            if value.contains(c) {
                let i = choose|i: int| 0 <= i < value.len() && value[i] == c;
                assert(super::value_char(value[i]));
            }
        }
    } else if name.len() > 0 && (forall|i: int|
        #![trigger name[i]]
        0 <= i < name.len() ==> '!' <= name[i] <= '~' && name[i] != ':') {
        assert(forall|i: int| 0 <= i < name.len() ==> super::name_char(#[trigger] name[i]));
        let i = choose|i: int| 0 <= i < value.len() && !super::value_char(#[trigger] value[i]);
        assert(value.contains(value[i]));
    }
}

/// What each error is answered: 400 for what is wrong with the request, 431
/// for too much of it, 501 for a transfer coding, 408 for too slow a one.
pub proof fn law_an_error_has_its_status(what: Seq<char>)
    ensures
        super::status_of(ErrorView::Malformed(what)) == 400,
        super::status_of(ErrorView::TooLarge) == 431,
        super::status_of(ErrorView::BodyNotAllowed) == 400,
        super::status_of(ErrorView::TransferEncoding) == 501,
        super::status_of(ErrorView::Timeout) == 408,
        super::status_of(ErrorView::Io(what)) == 400,
        super::words_of(ErrorView::Malformed(what)) == "malformed request ("@ + what + ")"@,
        super::words_of(ErrorView::TooLarge) == "request head too large"@,
        super::words_of(ErrorView::BodyNotAllowed) == "request body not allowed"@,
        super::words_of(ErrorView::TransferEncoding) == "transfer-encoding not supported"@,
        super::words_of(ErrorView::Timeout) == "timed out reading the request head"@,
        super::words_of(ErrorView::Io(what)) == what,
{
}

/// The phrase of every status that is sent.
pub proof fn law_a_status_has_its_phrase()
    ensures
        super::reason_of(200) == "OK"@,
        super::reason_of(204) == "No Content"@,
        super::reason_of(400) == "Bad Request"@,
        super::reason_of(404) == "Not Found"@,
        super::reason_of(405) == "Method Not Allowed"@,
        super::reason_of(408) == "Request Timeout"@,
        super::reason_of(431) == "Request Header Fields Too Large"@,
        super::reason_of(500) == "Internal Server Error"@,
        super::reason_of(501) == "Not Implemented"@,
        super::reason_of(502) == "Bad Gateway"@,
{
}

/// A refused request is answered what was wrong with it, in a line of its own;
/// a read that took too long is told apart from one that failed.
pub proof fn law_a_refusal_says_what_was_wrong(e: ErrorView, what: Seq<char>)
    ensures
        super::error_answer(e).status == super::status_of(e),
        super::error_answer(e).headers.len() == 0,
        super::error_answer(e).body == vstd::utf8::encode_utf8(super::words_of(e) + "\n"@),
        super::read_error(true, what) is Timeout,
        super::read_error(false, what) == ErrorView::Io(what),
{
}

/// A declared length that is no number is malformed.
pub proof fn law_a_length_that_is_no_number_is_malformed(
    name: Seq<u8>,
    value: Seq<u8>,
    a: Seq<char>,
    s: Seq<char>,
    b: Seq<char>,
    i: int,
)
    requires
        plain_name(name),
        spells(name, "content-length"@),
        forall|i: int| 0 <= i < a.len() ==> #[trigger] a[i] == ' ',
        forall|i: int| 0 <= i < b.len() ==> #[trigger] b[i] == ' ',
        s.len() > 0,
        !text::is_space(s[0]),
        !text::is_space(s.last()),
        0 <= i < s.len(),
        !text::laws::digits().contains(s[i]),
        i > 0 || s[0] != '+',
        vstd::utf8::valid_utf8(value),
        vstd::utf8::decode_utf8(value) == a + s + b,
    ensures
        head::refusal(header_line(name, value)) matches Some(ErrorView::Malformed(_)),
{
    lemma_framing_words();
    lemma_header_line(name, value);
    lemma_plain(name);
    lemma_spells(name, "content-length"@);
    lemma_spells(name, "transfer-encoding"@);
    assert(forall|i: int| 0 <= i < a.len() ==> text::is_space(#[trigger] a[i]));
    assert(forall|i: int| 0 <= i < b.len() ==> text::is_space(#[trigger] b[i]));
    text::laws::law_trimming_takes_the_space_around(a, s, b);
    text::laws::law_what_is_no_number_is_refused(s, i);
}

/// A first line without an end is too large once it fills 8192 bytes, broken
/// off at the end of the input, and until then waited for.
pub proof fn law_a_line_without_an_end_is_waited_for(b: Seq<u8>)
    requires
        forall|i: int| 0 <= i < b.len() && i < 8192 ==> #[trigger] b[i] != 10,
    ensures
        b.len() >= 8192 ==> head::head_in(b, false) == Some(
            Err::<HeadView, ErrorView>(ErrorView::TooLarge),
        ),
        b.len() < 8192 ==> head::head_in(b, false) is None,
        b.len() < 8192 ==> head::head_in(b, true) == Some(
            Err::<HeadView, ErrorView>(ErrorView::Malformed("line not CRLF-terminated"@)),
        ),
{
    head::lemma_find(b, 10, 0);
    let lf = head::find(b, 10, 0);
    if lf < b.len() && lf < 8192 {
        assert(b[lf] == 10);
    }
}

/// A first line that ends in a bare LF, or has a CR or a NUL in it, is
/// malformed.
pub proof fn law_a_stray_line_end_is_malformed(line: Seq<u8>, rest: Seq<u8>, eof: bool)
    requires
        line.len() < 8000,
        !line.contains(10),
    ensures
        line.len() == 0 || line.last() != 13 ==> head::head_in(line + seq![10u8] + rest, eof)
            == Some(
            Err::<HeadView, ErrorView>(ErrorView::Malformed("line not CRLF-terminated"@)),
        ),
        line.contains(13) || line.contains(0) ==> head::head_in(
            line + seq![13u8, 10] + rest,
            eof,
        ) == Some(Err::<HeadView, ErrorView>(ErrorView::Malformed("control byte in head"@))),
{
    let n = line.len() as int;
    let bare = line + seq![10u8] + rest;
    head::lemma_find(bare, 10, 0);
    let p = head::find(bare, 10, 0);
    assert(bare[n] == 10);
    if p < n {
        assert(line[p] == 10);
    }
    assert(n > 0 ==> bare[n - 1] == line.last());
    let whole = line + seq![13u8, 10] + rest;
    head::lemma_find(whole, 10, 0);
    let q = head::find(whole, 10, 0);
    assert(whole[n] == 13 && whole[n + 1] == 10);
    if q < n {
        assert(line[q] == 10);
    }
    assert(whole.subrange(0, n) =~= line);
}

} // verus!
