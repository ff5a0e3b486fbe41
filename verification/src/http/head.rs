//! Reading a request head.
//!
//! Three properties fall out of the shape rather than out of careful coding.
//! A connection carries one request, so nobody can disagree about where it
//! ends and the next begins. Bodies are refused rather than parsed, so there
//! is no decoder to be confused about a coding it does not recognise. And no
//! request header value reaches the application, so nothing in one can be
//! reflected.
use super::{Error, ErrorView};
use crate::text;
use vstd::prelude::*;

verus! {

/// The whole head, that is the request line, every header, and the blank
/// line, must fit.
pub const MAX_HEAD_BYTES: usize = 8192;

/// A second bound, so a head of many tiny lines is rejected on count before it
/// reaches the byte cap.
pub const MAX_HEADER_LINES: usize = 64;

/// The only two things this service takes from a request head.
#[derive(Debug, PartialEq)]
pub struct Head {
    pub method: String,
    pub target: String,
}

#[verifier::ext_equal]
pub struct HeadView {
    pub method: Seq<char>,
    pub target: Seq<char>,
}

impl View for Head {
    type V = HeadView;

    open spec fn view(&self) -> HeadView {
        HeadView { method: self.method@, target: self.target@ }
    }
}

/// The index of the first `c` at or behind `i`, or the length if there is none.
pub open spec fn find(b: Seq<u8>, c: u8, i: int) -> int
    decreases b.len() - i,
{
    if i >= b.len() {
        b.len() as int
    } else if b[i] == c {
        i
    } else {
        find(b, c, i + 1)
    }
}

pub open spec fn malformed(what: Seq<char>) -> ErrorView {
    ErrorView::Malformed(what)
}

/// What reading one line leads to.
pub enum Line {
    /// The line has not ended yet.
    More,
    /// A line without its CRLF, and where the next begins.
    Got(Seq<u8>, int),
    Bad(ErrorView),
}

/// Where a line that begins at `at` ends, its terminator included: behind the
/// first LF, or where the byte cap falls, or at the end of the input.
pub open spec fn line_end(b: Seq<u8>, at: int, eof: bool) -> Option<int> {
    let lf = find(b, 10, at);
    if lf < b.len() && lf < MAX_HEAD_BYTES {
        Some(lf + 1)
    } else if b.len() >= MAX_HEAD_BYTES {
        Some(MAX_HEAD_BYTES as int)
    } else if eof {
        Some(b.len() as int)
    } else {
        None
    }
}

/// One line, which must end in CRLF. A bare CR or LF, or a NUL, is refused,
/// not kept: a peer that reads it otherwise would see another request.
pub open spec fn line_at(b: Seq<u8>, at: int, eof: bool) -> Line {
    if at >= MAX_HEAD_BYTES {
        Line::Bad(ErrorView::TooLarge)
    } else {
        match line_end(b, at, eof) {
            None => Line::More,
            Some(end) => if end - at < 2 || b[end - 2] != 13 || b[end - 1] != 10 {
                Line::Bad(
                    if end == MAX_HEAD_BYTES {
                        ErrorView::TooLarge
                    } else {
                        malformed("line not CRLF-terminated"@)
                    },
                )
            } else {
                let line = b.subrange(at, end - 2);
                if line.contains(13) || line.contains(0) {
                    Line::Bad(malformed("control byte in head"@))
                } else {
                    Line::Got(line, end)
                }
            },
        }
    }
}

pub open spec fn is_alpha(c: u8) -> bool {
    65 <= c <= 90 || 97 <= c <= 122
}

pub open spec fn is_visible(c: u8) -> bool {
    0x21 <= c <= 0x7E
}

/// Whether a method is one to sixteen letters.
pub open spec fn good_method(m: Seq<u8>) -> bool {
    0 < m.len() <= 16 && forall|i: int| 0 <= i < m.len() ==> is_alpha(#[trigger] m[i])
}

/// Whether a version is one of HTTP/1.
pub open spec fn good_version(v: Seq<u8>) -> bool {
    v.len() >= 7 && v.take(7) == seq![72u8, 84, 84, 80, 47, 49, 46]
}

/// Whether a target is in origin form, in visible ASCII.
pub open spec fn good_target(t: Seq<u8>) -> bool {
    t.len() > 0 && t[0] == 47 && forall|i: int| 0 <= i < t.len() ==> is_visible(#[trigger] t[i])
}

/// What a request line asks for: method, target and version, with one space
/// between them.
pub open spec fn request_in(line: Seq<u8>) -> Result<HeadView, ErrorView> {
    let i = find(line, 32, 0);
    let j = find(line, 32, i + 1);
    let k = find(line, 32, j + 1);
    if i == line.len() {
        Err(malformed("no request target"@))
    } else if j == line.len() {
        Err(malformed("no version"@))
    } else if k < line.len() {
        Err(malformed("extra field in request line"@))
    } else if !good_method(line.take(i)) {
        Err(malformed("bad method"@))
    } else if !good_version(line.skip(j + 1)) {
        Err(malformed("unsupported version"@))
    } else if !good_target(line.subrange(i + 1, j)) {
        Err(malformed("bad request target"@))
    } else {
        Ok(
            HeadView {
                method: text::ascii(line.take(i)),
                target: text::ascii(line.subrange(i + 1, j)),
            },
        )
    }
}

/// White space as ASCII knows it.
pub open spec fn is_blank(c: u8) -> bool {
    c == 32 || c == 9 || c == 10 || c == 12 || c == 13
}

/// A letter in lower case, any other byte as it is.
pub open spec fn lower(c: u8) -> u8 {
    if 65 <= c <= 90 {
        (c + 32) as u8
    } else {
        c
    }
}

/// Whether a header name is the given lower-case word, in any case.
pub open spec fn is_named(name: Seq<u8>, word: Seq<char>) -> bool {
    text::ascii(name.map_values(|c: u8| lower(c))) == word
}

/// What a header line is answered, if anything: any declared body is refused.
pub open spec fn refusal(line: Seq<u8>) -> Option<ErrorView> {
    let colon = find(line, 58, 0);
    let name = line.take(colon);
    let value = line.skip(colon + 1);
    if colon == line.len() {
        Some(malformed("header without a colon"@))
    } else if colon == 0 || exists|i: int| 0 <= i < colon && is_blank(#[trigger] name[i]) {
        Some(malformed("bad header name"@))
    } else if is_named(name, "transfer-encoding"@) {
        Some(ErrorView::TransferEncoding)
    } else if is_named(name, "content-length"@) {
        if !vstd::utf8::valid_utf8(value) {
            Some(malformed("non-ascii content-length"@))
        } else {
            match text::number(
                text::trimmed_end(text::trimmed_start(vstd::utf8::decode_utf8(value))),
            ) {
                None => Some(malformed("bad content-length"@)),
                Some(n) => if n == 0 {
                    None
                } else {
                    Some(ErrorView::BodyNotAllowed)
                },
            }
        }
    } else {
        None
    }
}

/// What the header lines from `at` on lead to, `seen` of them being read.
pub open spec fn headers_from(b: Seq<u8>, at: int, seen: int, eof: bool, head: HeadView) -> Option<
    Result<HeadView, ErrorView>,
>
    decreases MAX_HEAD_BYTES - at,
{
    match line_at(b, at, eof) {
        Line::More => None,
        Line::Bad(e) => Some(Err(e)),
        Line::Got(line, next) => if line.len() == 0 {
            Some(Ok(head))
        } else if seen + 1 > MAX_HEADER_LINES {
            Some(Err(ErrorView::TooLarge))
        } else {
            match refusal(line) {
                Some(e) => Some(Err(e)),
                None => headers_from(b, next, seen + 1, eof, head),
            }
        },
    }
}

/// What the bytes received so far come to: nothing yet, a head, or a refusal.
pub open spec fn head_in(b: Seq<u8>, eof: bool) -> Option<Result<HeadView, ErrorView>> {
    match line_at(b, 0, eof) {
        Line::More => None,
        Line::Bad(e) => Some(Err(e)),
        Line::Got(line, next) => match request_in(line) {
            Err(e) => Some(Err(e)),
            Ok(head) => headers_from(b, next, 0, eof, head),
        },
    }
}

/// The view of what [`read_head`] returns.
pub open spec fn outcome(r: Option<Result<Head, Error>>) -> Option<Result<HeadView, ErrorView>> {
    match r {
        None => None,
        Some(Ok(head)) => Some(Ok(head@)),
        Some(Err(e)) => Some(Err(e@)),
    }
}

fn position(b: &[u8], c: u8, from: usize) -> (r: usize)
    requires
        from <= b@.len(),
    ensures
        r == find(b@, c, from as int),
        from <= r <= b@.len(),
{
    let mut i: usize = from;
    while i < b.len() && b[i] != c
        invariant
            from <= i <= b@.len(),
            find(b@, c, i as int) == find(b@, c, from as int),
        decreases b.len() - i,
    {
        i = i + 1;
    }
    i
}

pub(crate) proof fn lemma_find(b: Seq<u8>, c: u8, i: int)
    requires
        0 <= i <= b.len(),
    ensures
        i <= find(b, c, i) <= b.len(),
        find(b, c, i) < b.len() ==> b[find(b, c, i)] == c,
        forall|j: int| i <= j < find(b, c, i) ==> b[j] != c,
    decreases b.len() - i,
{
    if i < b.len() && b[i] != c {
        lemma_find(b, c, i + 1);
    }
}

/// What [`read_line`] returns.
enum GotLine<'a> {
    More,
    Got(&'a [u8], usize),
    Bad(Error),
}

impl<'a> View for GotLine<'a> {
    type V = Line;

    closed spec fn view(&self) -> Line {
        match self {
            GotLine::More => Line::More,
            GotLine::Got(line, next) => Line::Got(line@, *next as int),
            GotLine::Bad(e) => Line::Bad(e@),
        }
    }
}

/// Read one line, requiring CRLF termination, and return it without that CRLF.
///
/// A lone LF that survived inside a value would reach a backend that treats
/// bare LF as a terminator, which then reads one request as two. Refusing
/// bare CR and bare LF outright costs nothing and ends that.
fn read_line<'a>(b: &'a [u8], at: usize, eof: bool) -> (r: GotLine<'a>)
    requires
        at <= b@.len(),
    ensures
        r@ == line_at(b@, at as int, eof),
        r matches GotLine::Got(_, next) ==> at < next <= b@.len() && next <= MAX_HEAD_BYTES,
{
    if at >= MAX_HEAD_BYTES {
        return GotLine::Bad(Error::TooLarge);
    }
    proof {
        lemma_find(b@, 10, at as int);
    }
    let lf: usize = position(b, 10, at);
    let end: usize = if lf < b.len() && lf < MAX_HEAD_BYTES {
        lf + 1
    } else if b.len() >= MAX_HEAD_BYTES {
        MAX_HEAD_BYTES
    } else if eof {
        b.len()
    } else {
        return GotLine::More;
    };
    if end - at < 2 || b[end - 2] != 13 || b[end - 1] != 10 {
        // Either the cap fell mid-line, or the peer closed, or the line ended
        // in a bare LF.
        return if end == MAX_HEAD_BYTES {
            GotLine::Bad(Error::TooLarge)
        } else {
            GotLine::Bad(Error::Malformed("line not CRLF-terminated"))
        };
    }
    let line = &b[at..end - 2];
    // A CR here is a bare CR mid-line. A LF cannot appear: the line ends at
    // the first one.
    if has_byte(line, 13) || has_byte(line, 0) {
        return GotLine::Bad(Error::Malformed("control byte in head"));
    }
    GotLine::Got(line, end)
}

fn has_byte(b: &[u8], c: u8) -> (r: bool)
    ensures
        r == b@.contains(c),
{
    proof {
        lemma_find(b@, c, 0);
    }
    let i: usize = position(b, c, 0);
    if i < b.len() {
        assert(b@[i as int] == c);
        true
    } else {
        assert(!b@.contains(c));
        false
    }
}

fn method_ok(m: &[u8]) -> (r: bool)
    ensures
        r == good_method(m@),
{
    if m.len() == 0 || m.len() > 16 {
        return false;
    }
    let mut i: usize = 0;
    while i < m.len()
        invariant
            i <= m@.len(),
            0 < m@.len() <= 16,
            forall|j: int| 0 <= j < i ==> is_alpha(#[trigger] m@[j]),
        decreases m.len() - i,
    {
        let c: u8 = m[i];
        if !((c >= 65 && c <= 90) || (c >= 97 && c <= 122)) {
            assert(!is_alpha(m@[i as int]));
            return false;
        }
        i = i + 1;
    }
    true
}

fn target_ok(t: &[u8]) -> (r: bool)
    ensures
        r == good_target(t@),
{
    if t.len() == 0 || t[0] != 47 {
        return false;
    }
    let mut i: usize = 0;
    while i < t.len()
        invariant
            i <= t@.len(),
            t@.len() > 0,
            t@[0] == 47,
            forall|j: int| 0 <= j < i ==> is_visible(#[trigger] t@[j]),
        decreases t.len() - i,
    {
        if t[i] < 0x21 || t[i] > 0x7E {
            assert(!is_visible(t@[i as int]));
            return false;
        }
        i = i + 1;
    }
    true
}

fn version_ok(v: &[u8]) -> (r: bool)
    ensures
        r == good_version(v@),
{
    if v.len() < 7 {
        return false;
    }
    let r: bool = v[0] == 72 && v[1] == 84 && v[2] == 84 && v[3] == 80 && v[4] == 47 && v[5] == 49
        && v[6] == 46;
    proof {
        let p = seq![72u8, 84, 84, 80, 47, 49, 46];
        if r {
            assert(v@.take(7) =~= p);
        } else if v@.take(7) == p {
            assert(forall|i: int| 0 <= i < 7 ==> v@[i] == v@.take(7)[i]);
            assert(v@[0] == p[0] && v@[1] == p[1] && v@[2] == p[2] && v@[3] == p[3] && v@[4] == p[4]
                && v@[5] == p[5] && v@[6] == p[6]);
        }
    }
    r
}

/// Parse `METHOD SP request-target SP HTTP-version`.
///
/// Origin-form targets only. Absolute-form (`GET http://host/path`) is what
/// lets a request be routed somewhere other than where the front end thought it
/// was going, and nothing here needs it.
fn parse_request_line(line: &[u8]) -> (r: Result<Head, Error>)
    ensures
        match r {
            Ok(head) => request_in(line@) == Ok::<HeadView, ErrorView>(head@),
            Err(e) => request_in(line@) == Err::<HeadView, ErrorView>(e@),
        },
{
    let n: usize = line.len();
    let i: usize = position(line, 32, 0);
    if i == n {
        return Err(Error::Malformed("no request target"));
    }
    let j: usize = position(line, 32, i + 1);
    if j == n {
        return Err(Error::Malformed("no version"));
    }
    if position(line, 32, j + 1) < n {
        return Err(Error::Malformed("extra field in request line"));
    }
    let method = &line[0..i];
    let target = &line[i + 1..j];
    let version = &line[j + 1..n];
    assert(method@ =~= line@.take(i as int));
    assert(version@ =~= line@.skip(j + 1));
    if !method_ok(method) {
        return Err(Error::Malformed("bad method"));
    }
    if !version_ok(version) {
        return Err(Error::Malformed("unsupported version"));
    }
    // Visible ASCII only. The target reaches query parsing and the log, so
    // nothing invisible has any business being in it.
    if !target_ok(target) {
        return Err(Error::Malformed("bad request target"));
    }
    Ok(Head { method: text::ascii_text(method), target: text::ascii_text(target) })
}

/// Whether a header name is the given lower-case word, in any case.
fn named(name: &[u8], word: &str) -> (r: bool)
    requires
        vstd::string::is_ascii(word),
    ensures
        r == is_named(name@, word@),
{
    let ghost lowered = text::ascii(name@.map_values(|c: u8| lower(c)));
    if name.len() != word.unicode_len() {
        return false;
    }
    let mut i: usize = 0;
    while i < name.len()
        invariant
            i <= name@.len(),
            name@.len() == word@.len(),
            vstd::string::is_ascii(word),
            lowered == text::ascii(name@.map_values(|c: u8| lower(c))),
            lowered.len() == name@.len(),
            forall|j: int| 0 <= j < i ==> #[trigger] lowered[j] == word@[j],
        decreases name.len() - i,
    {
        let c: u8 = name[i];
        let low: u8 = if c >= 65 && c <= 90 {
            c + 32
        } else {
            c
        };
        assert(lowered[i as int] == low as char);
        if low != word.get_ascii(i) {
            assert(lowered[i as int] != word@[i as int]);
            return false;
        }
        i = i + 1;
    }
    assert(lowered =~= word@);
    true
}

fn has_blank(name: &[u8]) -> (r: bool)
    ensures
        r == exists|i: int| 0 <= i < name@.len() && is_blank(#[trigger] name@[i]),
{
    let mut i: usize = 0;
    while i < name.len()
        invariant
            i <= name@.len(),
            forall|j: int| 0 <= j < i ==> !is_blank(#[trigger] name@[j]),
        decreases name.len() - i,
    {
        let c: u8 = name[i];
        if c == 32 || c == 9 || c == 10 || c == 12 || c == 13 {
            assert(is_blank(name@[i as int]));
            return true;
        }
        i = i + 1;
    }
    false
}

/// Refuse any request that declares a body.
///
/// This is the whole of our framing logic: a request either has no body and is
/// served, or declares one and is rejected. There is no third path in which
/// two parties could disagree about a length.
fn check_no_body(line: &[u8]) -> (r: Result<(), Error>)
    ensures
        match r {
            Ok(_) => refusal(line@) is None,
            Err(e) => refusal(line@) == Some(e@),
        },
{
    let colon: usize = position(line, 58, 0);
    if colon == line.len() {
        return Err(Error::Malformed("header without a colon"));
    }
    let name = &line[0..colon];
    assert(name@ =~= line@.take(colon as int));
    if colon == 0 || has_blank(name) {
        // A space before the colon is the classic way to get two parsers to
        // disagree about whether a header exists at all.
        return Err(Error::Malformed("bad header name"));
    }
    proof {
        reveal_strlit("transfer-encoding");
        reveal_strlit("content-length");
    }
    if named(name, "transfer-encoding") {
        return Err(Error::TransferEncoding);
    }
    if named(name, "content-length") {
        let raw = &line[colon + 1..line.len()];
        assert(raw@ =~= line@.skip(colon + 1));
        let value: &str = match text::from_utf8(raw) {
            Some(s) => text::trim(s),
            None => {
                return Err(Error::Malformed("non-ascii content-length"));
            },
        };
        match text::parse_number(value) {
            Some(n) => {
                if n != 0 {
                    return Err(Error::BodyNotAllowed);
                }
            },
            None => {
                return Err(Error::Malformed("bad content-length"));
            },
        }
    }
    Ok(())
}

/// Validate a request head, discarding every header that is not a framing
/// header. Nothing else in this service reads request headers, so keeping none
/// of them is both simpler and one less thing to reflect.
///
/// `input` is what has been received so far and `eof` says that no more will
/// come. `None` asks for more.
pub fn read_head(input: &[u8], eof: bool) -> (r: Option<Result<Head, Error>>)
    ensures
        outcome(r) == head_in(input@, eof),
{
    let (head, start): (Head, usize) = match read_line(input, 0, eof) {
        GotLine::More => {
            return None;
        },
        GotLine::Bad(e) => {
            return Some(Err(e));
        },
        GotLine::Got(line, next) => match parse_request_line(line) {
            Ok(head) => (head, next),
            Err(e) => {
                return Some(Err(e));
            },
        },
    };
    let mut at: usize = start;
    let mut lines: usize = 0;
    loop
        invariant
            at <= input@.len(),
            at <= MAX_HEAD_BYTES,
            lines <= MAX_HEADER_LINES,
            head_in(input@, eof) == headers_from(input@, at as int, lines as int, eof, head@),
        decreases MAX_HEAD_BYTES - at,
    {
        match read_line(input, at, eof) {
            GotLine::More => {
                return None;
            },
            GotLine::Bad(e) => {
                return Some(Err(e));
            },
            GotLine::Got(line, next) => {
                if line.len() == 0 {
                    return Some(Ok(head));
                }
                if lines + 1 > MAX_HEADER_LINES {
                    return Some(Err(Error::TooLarge));
                }
                match check_no_body(line) {
                    Err(e) => {
                        return Some(Err(e));
                    },
                    Ok(_) => {},
                }
                lines = lines + 1;
                at = next;
            },
        }
    }
}

} // verus!
