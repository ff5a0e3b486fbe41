//! What can be relied on of request heads.
use super::head;
use super::head::{HeadView, Line, MAX_HEADER_LINES, MAX_HEAD_BYTES};
use super::ErrorView;
use vstd::prelude::*;

verus! {

proof fn lemma_find_more(a: Seq<u8>, b: Seq<u8>, c: u8, i: int)
    requires
        0 <= i <= a.len(),
    ensures
        head::find(a, c, i) < a.len() ==> head::find(a + b, c, i) == head::find(a, c, i),
        head::find(a, c, i) == a.len() ==> head::find(a + b, c, i) >= a.len(),
    decreases a.len() - i,
{
    if i < a.len() {
        if a[i] != c {
            lemma_find_more(a, b, c, i + 1);
        }
    } else {
        head::lemma_find(a + b, c, i);
    }
}

/// A line that is settled stays settled, whatever follows.
proof fn lemma_line_more(a: Seq<u8>, b: Seq<u8>, at: int, eof: bool)
    requires
        0 <= at <= a.len(),
        !(head::line_at(a, at, false) is More),
    ensures
        head::line_at(a + b, at, eof) == head::line_at(a, at, false),
        head::line_at(a, at, false) matches Line::Got(_, next) ==> at < next <= a.len(),
{
    if at < MAX_HEAD_BYTES {
        head::lemma_find(a, 10, at);
        lemma_find_more(a, b, 10, at);
        let end = head::line_end(a, at, false)->0;
        assert(head::line_end(a + b, at, eof) == Some(end));
        if end - at >= 2 {
            assert((a + b).subrange(at, end - 2) =~= a.subrange(at, end - 2));
        }
    }
}

proof fn lemma_headers_more(
    a: Seq<u8>,
    b: Seq<u8>,
    at: int,
    seen: int,
    eof: bool,
    h: HeadView,
)
    requires
        0 <= at <= a.len(),
        head::headers_from(a, at, seen, false, h) is Some,
    ensures
        head::headers_from(a + b, at, seen, eof, h) == head::headers_from(a, at, seen, false, h),
    decreases MAX_HEAD_BYTES - at,
{
    lemma_line_more(a, b, at, eof);
    if let Line::Got(line, next) = head::line_at(a, at, false) {
        if line.len() > 0 && seen + 1 <= MAX_HEADER_LINES && head::refusal(line) is None {
            lemma_headers_more(a, b, next, seen + 1, eof, h);
        }
    }
}

/// What the bytes received so far settle stays settled: neither more bytes nor
/// the end of the input changes the outcome.
pub proof fn law_a_settled_head_stays_settled(a: Seq<u8>, b: Seq<u8>, eof: bool)
    requires
        head::head_in(a, false) is Some,
    ensures
        head::head_in(a + b, eof) == head::head_in(a, false),
{
    lemma_line_more(a, b, 0, eof);
    if let Line::Got(line, next) = head::line_at(a, 0, false) {
        if let Ok(h) = head::request_in(line) {
            lemma_headers_more(a, b, next, 0, eof, h);
        }
    }
}

proof fn lemma_headers_settle(b: Seq<u8>, at: int, seen: int, eof: bool, h: HeadView)
    requires
        eof || b.len() >= MAX_HEAD_BYTES,
    ensures
        head::headers_from(b, at, seen, eof, h) is Some,
    decreases MAX_HEAD_BYTES - at,
{
    if let Line::Got(line, next) = head::line_at(b, at, eof) {
        if line.len() > 0 && seen + 1 <= MAX_HEADER_LINES && head::refusal(line) is None {
            lemma_headers_settle(b, next, seen + 1, eof, h);
        }
    }
}

/// Reading is bounded: with the byte cap reached, or the input ended, the
/// outcome is settled.
pub proof fn law_reading_is_bounded(b: Seq<u8>, eof: bool)
    requires
        eof || b.len() >= MAX_HEAD_BYTES,
    ensures
        head::head_in(b, eof) is Some,
{
    if let Line::Got(line, next) = head::line_at(b, 0, eof) {
        if let Ok(h) = head::request_in(line) {
            lemma_headers_settle(b, next, 0, eof, h);
        }
    }
}

/// A line end.
pub open spec fn crlf() -> Seq<u8> {
    seq![13u8, 10]
}

/// Lines, each with its line end.
pub open spec fn lines_text(ls: Seq<Seq<u8>>) -> Seq<u8>
    decreases ls.len(),
{
    if ls.len() == 0 {
        Seq::empty()
    } else {
        ls[0] + crlf() + lines_text(ls.skip(1))
    }
}

/// Whether a line holds none of the bytes that end one.
pub open spec fn clean(line: Seq<u8>) -> bool {
    !line.contains(13) && !line.contains(10) && !line.contains(0)
}

/// Whether these are header lines of a request without a body.
pub open spec fn bodiless(hs: Seq<Seq<u8>>) -> bool {
    forall|i: int|
        0 <= i < hs.len() ==> {
            &&& (#[trigger] hs[i]).len() > 0
            &&& clean(hs[i])
            &&& head::refusal(hs[i]) is None
        }
}

/// The bytes of a head: request line, header lines, blank line.
pub open spec fn head_text(request: Seq<u8>, hs: Seq<Seq<u8>>) -> Seq<u8> {
    request + crlf() + lines_text(hs) + crlf()
}

/// Whether a head is one that this service serves: a request line it
/// understands, no body declared, within the caps.
pub open spec fn servable(request: Seq<u8>, hs: Seq<Seq<u8>>, h: HeadView) -> bool {
    &&& clean(request)
    &&& head::request_in(request) == Ok::<HeadView, ErrorView>(h)
    &&& bodiless(hs)
    &&& hs.len() <= MAX_HEADER_LINES
    &&& head_text(request, hs).len() <= MAX_HEAD_BYTES
}

/// A clean line with its line end reads as that line.
pub(crate) proof fn lemma_line_got(b: Seq<u8>, at: int, line: Seq<u8>, eof: bool)
    requires
        0 <= at,
        at + line.len() + 2 <= b.len(),
        at + line.len() + 2 <= MAX_HEAD_BYTES,
        clean(line),
        b.subrange(at, at + line.len() + 2) == line + crlf(),
    ensures
        head::line_at(b, at, eof) == Line::Got(line, at + line.len() + 2),
{
    let end = at + line.len() + 2;
    let piece = b.subrange(at, end);
    assert forall|j: int| at <= j < end implies b[j] == #[trigger] (line + crlf())[j - at] by {
        assert(piece[j - at] == b[j]);
    }
    assert((line + crlf())[end - 1 - at] == 10);
    assert((line + crlf())[end - 2 - at] == 13);
    head::lemma_find(b, 10, at);
    let lf = head::find(b, 10, at);
    if lf < end - 1 {
        assert((line + crlf())[lf - at] == 10);
        if lf - at < line.len() {
            assert(line[lf - at] == 10);
            assert(line.contains(10));
        }
        assert(false);
    }
    assert(lf == end - 1);
    assert(b.subrange(at, end - 2) =~= line);
}

proof fn lemma_headers_accept(
    b: Seq<u8>,
    at: int,
    seen: int,
    hs: Seq<Seq<u8>>,
    eof: bool,
    h: HeadView,
)
    requires
        0 <= at,
        0 <= seen,
        bodiless(hs),
        seen + hs.len() <= MAX_HEADER_LINES,
        ({
            let text = lines_text(hs) + crlf();
            &&& at + text.len() <= b.len()
            &&& at + text.len() <= MAX_HEAD_BYTES
            &&& b.subrange(at, at + text.len()) == text
        }),
    ensures
        head::headers_from(b, at, seen, eof, h) == Some(Ok::<HeadView, ErrorView>(h)),
    decreases hs.len(),
{
    let text = lines_text(hs) + crlf();
    if hs.len() == 0 {
        let blank = Seq::<u8>::empty();
        assert(text =~= blank + crlf());
        lemma_line_got(b, at, blank, eof);
    } else {
        let line = hs[0];
        let rest = hs.skip(1);
        let next = at + line.len() + 2;
        let tail = lines_text(rest) + crlf();
        assert(text =~= line + crlf() + tail);
        assert(b.subrange(at, next) =~= line + crlf()) by {
            assert(b.subrange(at, at + text.len()).take(next - at) =~= b.subrange(at, next));
            assert(text.take(next - at) =~= line + crlf());
        }
        lemma_line_got(b, at, line, eof);
        assert(b.subrange(next, next + tail.len()) =~= tail) by {
            assert(b.subrange(at, at + text.len()).skip(next - at) =~= b.subrange(
                next,
                next + tail.len(),
            ));
            assert(text.skip(next - at) =~= tail);
        }
        assert forall|i: int| 0 <= i < rest.len() implies {
            &&& (#[trigger] rest[i]).len() > 0
            &&& clean(rest[i])
            &&& head::refusal(rest[i]) is None
        } by {
            assert(rest[i] == hs[i + 1]);
        }
        lemma_headers_accept(b, next, seen + 1, rest, eof, h);
    }
}

/// Every servable head is accepted, as what its request line asks for,
/// whatever follows it on the connection.
pub proof fn law_servable_heads_are_accepted(
    request: Seq<u8>,
    hs: Seq<Seq<u8>>,
    h: HeadView,
    rest: Seq<u8>,
    eof: bool,
)
    requires
        servable(request, hs, h),
    ensures
        head::head_in(head_text(request, hs) + rest, eof) == Some(Ok::<HeadView, ErrorView>(h)),
{
    let b = head_text(request, hs) + rest;
    let at = request.len() as int + 2;
    let text = lines_text(hs) + crlf();
    assert(b.subrange(0, at) =~= request + crlf());
    lemma_line_got(b, 0, request, eof);
    assert(b.subrange(at, at + text.len()) =~= text);
    lemma_headers_accept(b, at, 0, hs, eof, h);
}

/// What a line that was read looks like in the input.
proof fn lemma_got_line(b: Seq<u8>, at: int, eof: bool)
    requires
        0 <= at <= b.len(),
        head::line_at(b, at, eof) is Got,
    ensures
        head::line_at(b, at, eof) matches Line::Got(line, next) && {
            &&& clean(line)
            &&& next == at + line.len() + 2
            &&& next <= b.len()
            &&& next <= MAX_HEAD_BYTES
            &&& b.subrange(at, next) == line + crlf()
        },
{
    head::lemma_find(b, 10, at);
    if let Line::Got(line, next) = head::line_at(b, at, eof) {
        assert(b.subrange(at, next) =~= line + crlf());
        assert(!line.contains(10)) by {
            if line.contains(10) {
                let i = choose|i: int| 0 <= i < line.len() && line[i] == 10;
                assert(b[at + i] == 10);
            }
        }
    }
}

proof fn lemma_headers_sound(b: Seq<u8>, at: int, seen: int, eof: bool, h: HeadView) -> (r: (
    Seq<Seq<u8>>,
    Seq<u8>,
))
    requires
        0 <= at <= b.len(),
        0 <= seen <= MAX_HEADER_LINES,
        head::headers_from(b, at, seen, eof, h) matches Some(Ok(_)),
    ensures
        head::headers_from(b, at, seen, eof, h) == Some(Ok::<HeadView, ErrorView>(h)),
        bodiless(r.0),
        seen + r.0.len() <= MAX_HEADER_LINES,
        at + lines_text(r.0).len() + 2 <= MAX_HEAD_BYTES,
        b.skip(at) == lines_text(r.0) + crlf() + r.1,
    decreases MAX_HEAD_BYTES - at,
{
    lemma_got_line(b, at, eof);
    if let Line::Got(line, next) = head::line_at(b, at, eof) {
        assert(b.skip(at) =~= b.subrange(at, next) + b.skip(next));
        if line.len() == 0 {
            let none = Seq::<Seq<u8>>::empty();
            assert(b.subrange(at, next) =~= lines_text(none) + crlf());
            (none, b.skip(next))
        } else {
            let (hs, rest) = lemma_headers_sound(b, next, seen + 1, eof, h);
            let all = seq![line] + hs;
            assert(all.skip(1) =~= hs);
            assert(lines_text(all) =~= line + crlf() + lines_text(hs));
            assert(b.skip(at) =~= lines_text(all) + crlf() + rest);
            assert forall|i: int| 0 <= i < all.len() implies {
                &&& (#[trigger] all[i]).len() > 0
                &&& clean(all[i])
                &&& head::refusal(all[i]) is None
            } by {
                if i > 0 {
                    assert(all[i] == hs[i - 1]);
                }
            }
            (all, rest)
        }
    } else {
        (Seq::empty(), Seq::empty())
    }
}

/// Only servable heads are accepted: what was received then begins with a
/// request line and header lines that declare no body, each ended by CRLF and
/// free of stray CR, LF and NUL, within the caps.
pub proof fn law_only_servable_heads_are_accepted(b: Seq<u8>, eof: bool) -> (r: (
    Seq<u8>,
    Seq<Seq<u8>>,
    Seq<u8>,
))
    requires
        head::head_in(b, eof) matches Some(Ok(_)),
    ensures
        servable(r.0, r.1, head::head_in(b, eof)->0->Ok_0),
        b == head_text(r.0, r.1) + r.2,
{
    lemma_got_line(b, 0, eof);
    if let Line::Got(line, next) = head::line_at(b, 0, eof) {
        let h = head::request_in(line)->Ok_0;
        let (hs, rest) = lemma_headers_sound(b, next, 0, eof, h);
        assert(b =~= b.subrange(0, next) + b.skip(next));
        assert(b =~= head_text(line, hs) + rest);
        (line, hs, rest)
    } else {
        (Seq::empty(), Seq::empty(), Seq::empty())
    }
}

} // verus!
