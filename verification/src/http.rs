//! A small HTTP/1.1 server's parsing and framing: read a request head, write
//! a response.
//!
//! This service needs almost nothing from HTTP: three routes, GET, HEAD and
//! OPTIONS, and no request body anywhere. Every connection carries one request
//! and is answered `Connection: close`.
use crate::text;
use vstd::prelude::*;

pub use head::read_head;
pub use head::Head;

pub mod head;
pub mod laws;
pub mod requests;

verus! {

#[derive(Debug)]
pub enum Error {
    /// The head did not parse. Deliberately vague: the client does not need to
    /// know which of our checks it tripped.
    Malformed(&'static str),
    /// Head exceeded [`head::MAX_HEAD_BYTES`] or [`head::MAX_HEADER_LINES`].
    TooLarge,
    /// A body was declared. This service has no endpoint that reads one.
    BodyNotAllowed,
    /// Any `Transfer-Encoding` at all. Answered 501 rather than 400 because
    /// RFC 9112 section 7 asks a server that does not support a coding to say
    /// so.
    TransferEncoding,
    Timeout,
    /// The connection failed, and how.
    Io(String),
}

#[verifier::ext_equal]
pub enum ErrorView {
    Malformed(Seq<char>),
    TooLarge,
    BodyNotAllowed,
    TransferEncoding,
    Timeout,
    Io(Seq<char>),
}

impl View for Error {
    type V = ErrorView;

    open spec fn view(&self) -> ErrorView {
        match self {
            Error::Malformed(what) => ErrorView::Malformed(what@),
            Error::TooLarge => ErrorView::TooLarge,
            Error::BodyNotAllowed => ErrorView::BodyNotAllowed,
            Error::TransferEncoding => ErrorView::TransferEncoding,
            Error::Timeout => ErrorView::Timeout,
            Error::Io(e) => ErrorView::Io(e@),
        }
    }
}

/// The status that an error is answered with.
pub open spec fn status_of(e: ErrorView) -> u16 {
    match e {
        ErrorView::Malformed(_) => 400,
        ErrorView::TooLarge => 431,
        ErrorView::BodyNotAllowed => 400,
        ErrorView::TransferEncoding => 501,
        ErrorView::Timeout => 408,
        ErrorView::Io(_) => 400,
    }
}

/// An error in words.
pub open spec fn words_of(e: ErrorView) -> Seq<char> {
    match e {
        ErrorView::Malformed(what) => "malformed request ("@ + what + ")"@,
        ErrorView::TooLarge => "request head too large"@,
        ErrorView::BodyNotAllowed => "request body not allowed"@,
        ErrorView::TransferEncoding => "transfer-encoding not supported"@,
        ErrorView::Timeout => "timed out reading the request head"@,
        ErrorView::Io(e) => e,
    }
}

impl Error {
    pub fn status(&self) -> (r: u16)
        ensures
            r == status_of(self@),
    {
        match self {
            Error::Malformed(_) => 400,
            Error::TooLarge => 431,
            Error::BodyNotAllowed => 400,
            Error::TransferEncoding => 501,
            Error::Timeout => 408,
            Error::Io(_) => 400,
        }
    }

    /// The error in words.
    pub fn describe(&self) -> (r: String)
        ensures
            r@ == words_of(self@),
    {
        match self {
            Error::Malformed(what) => {
                let mut s = "malformed request (".to_owned();
                s.append(*what);
                s.append(")");
                s
            },
            Error::TooLarge => "request head too large".to_owned(),
            Error::BodyNotAllowed => "request body not allowed".to_owned(),
            Error::TransferEncoding => "transfer-encoding not supported".to_owned(),
            Error::Timeout => "timed out reading the request head".to_owned(),
            Error::Io(e) => e.clone(),
        }
    }
}

/// The error for a failed read.
pub open spec fn read_error(timed_out: bool, what: Seq<char>) -> ErrorView {
    if timed_out {
        ErrorView::Timeout
    } else {
        ErrorView::Io(what)
    }
}

/// The error for a failed read. A read timeout is told apart from the rest,
/// which keep their words.
pub fn io_error(timed_out: bool, what: String) -> (r: Error)
    ensures
        r@ == (if timed_out {
            ErrorView::Timeout
        } else {
            ErrorView::Io(what@)
        }),
        r@ == read_error(timed_out, what@),
{
    if timed_out {
        Error::Timeout
    } else {
        Error::Io(what)
    }
}

#[derive(Debug)]
pub struct Response {
    status: u16,
    headers: Vec<(&'static str, String)>,
    body: Vec<u8>,
}

#[verifier::ext_equal]
pub struct ResponseView {
    pub status: u16,
    pub headers: Seq<(Seq<char>, Seq<char>)>,
    pub body: Seq<u8>,
}

spec fn header_view(h: (&'static str, String)) -> (Seq<char>, Seq<char>) {
    (h.0@, h.1@)
}

impl View for Response {
    type V = ResponseView;

    closed spec fn view(&self) -> ResponseView {
        ResponseView {
            status: self.status,
            headers: self.headers@.map_values(|h: (&'static str, String)| header_view(h)),
            body: self.body@,
        }
    }
}

/// Whether a character may stand in a header name: visible ASCII, no colon.
pub open spec fn name_char(c: char) -> bool {
    0x21 <= c as int <= 0x7E && c != ':'
}

/// Whether a character may stand in a header value: anything that cannot
/// split the response.
pub open spec fn value_char(c: char) -> bool {
    c as int != 13 && c as int != 10 && c as int != 0
}

/// Whether a header can be sent as it is.
pub open spec fn good_header(name: Seq<char>, value: Seq<char>) -> bool {
    &&& name.len() > 0
    &&& forall|i: int| 0 <= i < name.len() ==> name_char(#[trigger] name[i])
    &&& forall|i: int| 0 <= i < value.len() ==> value_char(#[trigger] value[i])
}

/// Whether a header can be sent as it is. One that cannot is a bug in our own
/// source rather than anything a client can reach.
pub fn header_ok(name: &str, value: &str) -> (r: bool)
    ensures
        r == good_header(name@, value@),
{
    let n: usize = name.unicode_len();
    if n == 0 {
        return false;
    }
    let mut i: usize = 0;
    while i < n
        invariant
            i <= n,
            n == name@.len(),
            forall|j: int| 0 <= j < i ==> name_char(#[trigger] name@[j]),
        decreases n - i,
    {
        let c: char = name.get_char(i);
        if c < '!' || c > '~' || c == ':' {
            assert(!name_char(name@[i as int]));
            return false;
        }
        i = i + 1;
    }
    let m: usize = value.unicode_len();
    let mut k: usize = 0;
    while k < m
        invariant
            k <= m,
            m == value@.len(),
            forall|j: int| 0 <= j < k ==> value_char(#[trigger] value@[j]),
        decreases m - k,
    {
        let c: char = value.get_char(k);
        if c == '\r' || c == '\n' || c == '\0' {
            assert(!value_char(value@[k as int]));
            return false;
        }
        k = k + 1;
    }
    true
}

/// The header lines of a response.
pub open spec fn header_lines(hs: Seq<(Seq<char>, Seq<char>)>) -> Seq<char>
    decreases hs.len(),
{
    if hs.len() == 0 {
        Seq::empty()
    } else {
        header_lines(hs.drop_last()) + hs.last().0 + ": "@ + hs.last().1 + "\r\n"@
    }
}

/// The reason phrase of a status.
pub open spec fn reason_of(status: u16) -> Seq<char> {
    if status == 200 {
        "OK"@
    } else if status == 204 {
        "No Content"@
    } else if status == 400 {
        "Bad Request"@
    } else if status == 404 {
        "Not Found"@
    } else if status == 405 {
        "Method Not Allowed"@
    } else if status == 408 {
        "Request Timeout"@
    } else if status == 431 {
        "Request Header Fields Too Large"@
    } else if status == 500 {
        "Internal Server Error"@
    } else if status == 501 {
        "Not Implemented"@
    } else if status == 502 {
        "Bad Gateway"@
    } else {
        "Status"@
    }
}

impl ResponseView {
    /// Whether the status is one that carries a body. 204 and 304 are defined
    /// to carry none.
    pub open spec fn has_body(self) -> bool {
        self.status != 204 && self.status != 304
    }

    /// The length line. Framing a response without a body as though it might
    /// have one is how a client is led to wait for bytes never sent.
    pub open spec fn length_line(self) -> Seq<char> {
        if self.has_body() {
            "Content-Length: "@ + text::decimal(self.body.len()) + "\r\n"@
        } else {
            Seq::empty()
        }
    }

    /// The bytes behind the head, for a request that is not a HEAD.
    pub open spec fn payload(self) -> Seq<u8> {
        if self.has_body() {
            self.body
        } else {
            Seq::empty()
        }
    }

    /// The response head. Every connection carries exactly one request, and
    /// says so.
    pub open spec fn head(self) -> Seq<char> {
        "HTTP/1.1 "@ + text::decimal(self.status as nat) + " "@ + reason_of(self.status) + "\r\n"@
            + header_lines(self.headers) + self.length_line() + "Connection: close\r\n\r\n"@
    }

    /// The bytes that go out. A HEAD request gets the head alone, with the
    /// Content-Length the GET would have carried.
    pub open spec fn wire(self, head_only: bool) -> Seq<u8> {
        vstd::utf8::encode_utf8(self.head()) + if head_only {
            Seq::empty()
        } else {
            self.payload()
        }
    }

    /// Every header can be sent as it is.
    pub open spec fn wf(self) -> bool {
        forall|i: int|
            0 <= i < self.headers.len() ==> good_header(
                (#[trigger] self.headers[i]).0,
                self.headers[i].1,
            )
    }
}

impl Response {
    pub fn empty(status: u16) -> (r: Response)
        ensures
            r@ == (ResponseView { status, headers: Seq::empty(), body: Seq::empty() }),
            r@.wf(),
    {
        let r = Response { status, headers: Vec::new(), body: Vec::new() };
        assert(r@ =~= ResponseView { status, headers: Seq::empty(), body: Seq::empty() });
        r
    }

    pub fn from_string(body: &str) -> (r: Response)
        ensures
            r@ == (ResponseView {
                status: 200,
                headers: Seq::empty(),
                body: vstd::utf8::encode_utf8(body@),
            }),
            r@.wf(),
    {
        let mut bytes: Vec<u8> = Vec::new();
        bytes.extend_from_slice(body.as_bytes());
        let r = Response { status: 200, headers: Vec::new(), body: bytes };
        assert(r@ =~= ResponseView {
            status: 200,
            headers: Seq::empty(),
            body: vstd::utf8::encode_utf8(body@),
        });
        r
    }

    pub fn with_status_code(self, status: u16) -> (r: Response)
        ensures
            r@ == (ResponseView { status, ..self@ }),
            self@.wf() ==> r@.wf(),
    {
        let r = Response { status, headers: self.headers, body: self.body };
        assert(r@ =~= ResponseView { status, ..self@ });
        r
    }

    /// Add a header.
    ///
    /// A CR or LF in a value would split the response. Every value this
    /// service sends is a literal or `OutputFormat::content_type`, so such a
    /// value is a bug in our own source rather than anything a client can
    /// reach. See [`header_ok`].
    pub fn with_header(self, name: &'static str, value: &str) -> (r: Response)
        requires
            good_header(name@, value@),
        ensures
            r@ == (ResponseView { headers: self@.headers.push((name@, value@)), ..self@ }),
            self@.wf() ==> r@.wf(),
    {
        let ghost before = self@;
        let mut headers = self.headers;
        let ghost hs = headers@;
        let h: (&'static str, String) = (name, value.to_owned());
        headers.push(h);
        let r = Response { status: self.status, headers, body: self.body };
        proof {
            assert(headers@.map_values(|h: (&'static str, String)| header_view(h))
                =~= hs.map_values(|h: (&'static str, String)| header_view(h)).push(
                header_view(h),
            ));
            assert(r@ =~= ResponseView { headers: before.headers.push((name@, value@)), ..before });
        }
        r
    }

    /// Append the response to `out`, as it goes over the wire.
    pub fn write_to(&self, out: &mut Vec<u8>, head_only: bool)
        ensures
            final(out)@ == old(out)@ + self@.wire(head_only),
    {
        let ghost v = self@;
        let mut head = "HTTP/1.1 ".to_owned();
        head.append(text::decimal_text(self.status as u64).as_str());
        head.append(" ");
        head.append(reason(self.status));
        head.append("\r\n");
        let ghost start = head@;
        let mut i: usize = 0;
        assert(v.headers.take(0) =~= Seq::empty());
        assert(head@ =~= start + header_lines(v.headers.take(0)));
        while i < self.headers.len()
            invariant
                i <= self.headers@.len(),
                v == self@,
                head@ == start + header_lines(v.headers.take(i as int)),
            decreases self.headers.len() - i,
        {
            let ghost before = head@;
            let h = &self.headers[i];
            head.append(h.0);
            head.append(": ");
            head.append(h.1.as_str());
            head.append("\r\n");
            proof {
                let hs = v.headers.take(i + 1);
                assert(hs.drop_last() =~= v.headers.take(i as int));
                assert(hs.last() == header_view(self.headers@[i as int]));
                assert(head@ =~= start + header_lines(hs));
            }
            i = i + 1;
        }
        assert(v.headers.take(i as int) =~= v.headers);
        let ghost listed = head@;
        // 204 and 304 are defined to carry no body, and framing them as though
        // they might is how a client is led to wait for bytes never sent.
        let has_body: bool = self.status != 204 && self.status != 304;
        if has_body {
            head.append("Content-Length: ");
            head.append(text::decimal_text(self.body.len() as u64).as_str());
            head.append("\r\n");
        }
        assert(head@ =~= listed + v.length_line());
        // Every connection carries exactly one request, and says so.
        head.append("Connection: close\r\n\r\n");
        assert(head@ =~= v.head());
        let ghost out0 = out@;
        out.extend_from_slice(head.as_str().as_bytes());
        assert(out@ =~= out0 + vstd::utf8::encode_utf8(v.head()));
        if has_body && !head_only {
            out.extend_from_slice(self.body.as_slice());
        }
        assert(out@ =~= out0 + v.wire(head_only));
    }
}

/// Reason phrases for the statuses this service actually emits. Clients ignore
/// these, but a human reading a curl trace does not.
pub fn reason(status: u16) -> (r: &'static str)
    ensures
        r@ == reason_of(status),
{
    match status {
        200 => "OK",
        204 => "No Content",
        400 => "Bad Request",
        404 => "Not Found",
        405 => "Method Not Allowed",
        408 => "Request Timeout",
        431 => "Request Header Fields Too Large",
        500 => "Internal Server Error",
        501 => "Not Implemented",
        502 => "Bad Gateway",
        _ => "Status",
    }
}

/// The answer to a request that was not served.
pub open spec fn error_answer(e: ErrorView) -> ResponseView {
    ResponseView {
        status: status_of(e),
        headers: Seq::empty(),
        body: vstd::utf8::encode_utf8(words_of(e) + "\n"@),
    }
}

/// The answer to a request that was not served: what was wrong with it, in a
/// line of its own.
pub fn error_response(e: &Error) -> (r: Response)
    ensures
        r@ == (ResponseView {
            status: status_of(e@),
            headers: Seq::empty(),
            body: vstd::utf8::encode_utf8(words_of(e@) + "\n"@),
        }),
        r@ == error_answer(e@),
        r@.wf(),
{
    let mut body = e.describe();
    body.append("\n");
    Response::from_string(body.as_str()).with_status_code(e.status())
}

/// A HEAD is answered what the GET would have been, less the body. A 204 or
/// 304 has none to leave out.
pub proof fn law_head_is_the_get_without_the_body(r: ResponseView)
    ensures
        r.wire(true) + r.payload() == r.wire(false),
        r.status == 204 || r.status == 304 ==> r.wire(true) == r.wire(false),
{
    assert(r.wire(true) + r.payload() =~= r.wire(false));
}

} // verus!
