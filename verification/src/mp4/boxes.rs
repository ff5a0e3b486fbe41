//! The ISO-BMFF box grammar: a size, a four-character type, a body.
use vstd::prelude::*;

verus! {

/// Box header: 4-byte big-endian size, then 4-byte ASCII type.
pub const SHORT_HEADER: usize = 8;

/// `size == 1` means a 64-bit `largesize` follows the type.
pub const LONG_HEADER: usize = 16;

/// The big-endian number in the four bytes at `at`.
pub open spec fn be32(b: Seq<u8>, at: int) -> int {
    b[at] * 0x100_0000 + b[at + 1] * 0x1_0000 + b[at + 2] * 0x100 + b[at + 3]
}

/// The big-endian number in the eight bytes at `at`.
pub open spec fn be64(b: Seq<u8>, at: int) -> int {
    be32(b, at) * 0x1_0000_0000 + be32(b, at + 4)
}

/// The four bytes at `at` as a number, where all four are there.
pub open spec fn u32_in(b: Seq<u8>, at: int) -> Option<u32> {
    if at + 4 <= b.len() {
        Some(be32(b, at) as u32)
    } else {
        None
    }
}

/// A box: its type, read as a big-endian number, and its body.
#[verifier::ext_equal]
pub struct BoxView {
    pub kind: u32,
    pub body: Seq<u8>,
}

/// The header length of the box at `at`, whose first eight bytes are there.
pub open spec fn header_len(b: Seq<u8>, at: int) -> int {
    if be32(b, at) == 1 {
        LONG_HEADER as int
    } else {
        SHORT_HEADER as int
    }
}

/// The total length that the box at `at` claims, header included. A size of
/// zero claims everything up to the end.
pub open spec fn total_len(b: Seq<u8>, at: int) -> int {
    if be32(b, at) == 1 {
        be64(b, at + 8)
    } else if be32(b, at) == 0 {
        b.len() - at
    } else {
        be32(b, at)
    }
}

/// Whether a whole box, header and body, stands at `at`.
pub open spec fn fits(b: Seq<u8>, at: int) -> bool {
    &&& 0 <= at
    &&& at + SHORT_HEADER <= b.len()
    &&& at + header_len(b, at) <= b.len()
    &&& header_len(b, at) <= total_len(b, at)
    &&& at + total_len(b, at) <= b.len()
}

/// The box at `at`, where one fits.
pub open spec fn box_at(b: Seq<u8>, at: int) -> BoxView {
    BoxView {
        kind: be32(b, at + 4) as u32,
        body: b.subrange(at + header_len(b, at), at + total_len(b, at)),
    }
}

/// The boxes packed in `b` from `at` on, up to the first that does not fit.
pub open spec fn boxes_from(b: Seq<u8>, at: int) -> Seq<BoxView>
    decreases b.len() - at,
{
    if fits(b, at) {
        seq![box_at(b, at)] + boxes_from(b, at + total_len(b, at))
    } else {
        Seq::empty()
    }
}

/// The boxes packed in `b`, up to the first that does not fit.
pub open spec fn boxes_in(b: Seq<u8>) -> Seq<BoxView> {
    boxes_from(b, 0)
}

/// A box borrowed from a buffer.
pub struct BoxRef<'a> {
    pub kind: u32,
    pub body: &'a [u8],
}

impl<'a> View for BoxRef<'a> {
    type V = BoxView;

    open spec fn view(&self) -> BoxView {
        BoxView { kind: self.kind, body: self.body@ }
    }
}

/// The boxes behind a list of borrowed ones.
pub open spec fn box_views(s: Seq<BoxRef<'_>>) -> Seq<BoxView> {
    s.map_values(|r: BoxRef<'_>| r@)
}

/// The big-endian number at `at`, if its four bytes are there.
pub fn u32_at(b: &[u8], at: usize) -> (r: Option<u32>)
    ensures
        r == u32_in(b@, at as int),
{
    if b.len() < 4 || at > b.len() - 4 {
        return None;
    }
    Some(be32_at(b, at))
}

/// The big-endian number at `at`.
pub fn be32_at(b: &[u8], at: usize) -> (r: u32)
    requires
        at + 4 <= b@.len(),
    ensures
        r == be32(b@, at as int),
{
    b[at] as u32 * 0x100_0000 + b[at + 1] as u32 * 0x1_0000 + b[at + 2] as u32 * 0x100
        + b[at + 3] as u32
}

/// The 64-bit big-endian number at `at`.
pub fn be64_at(b: &[u8], at: usize) -> (r: u64)
    requires
        at + 8 <= b@.len(),
    ensures
        r == be64(b@, at as int),
{
    assert(at + 8 <= b.len());
    be32_at(b, at) as u64 * 0x1_0000_0000 + be32_at(b, at + 4) as u64
}

/// Where the box at `at` has its body and where it ends, if it fits.
fn locate(b: &[u8], at: usize) -> (r: Option<(usize, usize)>)
    requires
        at <= b@.len(),
    ensures
        r is Some <==> fits(b@, at as int),
        r matches Some((body, end)) ==> {
            &&& body == at + header_len(b@, at as int)
            &&& end == at + total_len(b@, at as int)
        },
{
    let room: usize = b.len() - at;
    if room < SHORT_HEADER {
        return None;
    }
    let size: u32 = be32_at(b, at);
    let (total, header): (u64, usize) = if size == 1 {
        if room < LONG_HEADER {
            return None;
        }
        (be64_at(b, at + 8), LONG_HEADER)
    } else if size == 0 {
        (room as u64, SHORT_HEADER)
    } else {
        (size as u64, SHORT_HEADER)
    };
    if total < header as u64 || total > room as u64 {
        return None;
    }
    Some((at + header, at + total as usize))
}

/// The boxes packed in `b`, stopping at the first one that does not fit.
pub fn boxes(b: &[u8]) -> (r: Vec<BoxRef<'_>>)
    ensures
        box_views(r@) == boxes_in(b@),
{
    let mut out: Vec<BoxRef<'_>> = Vec::new();
    let mut at: usize = 0;
    assert(box_views(out@) + boxes_from(b@, 0) =~= boxes_in(b@));
    loop
        invariant
            at <= b@.len(),
            box_views(out@) + boxes_from(b@, at as int) == boxes_in(b@),
        ensures
            box_views(out@) == boxes_in(b@),
        decreases b@.len() - at,
    {
        match locate(b, at) {
            None => {
                assert(box_views(out@) + boxes_from(b@, at as int) =~= box_views(out@));
                break;
            },
            Some((body, end)) => {
                let found = BoxRef { kind: be32_at(b, at + 4), body: &b[body..end] };
                let ghost before = out@;
                out.push(found);
                proof {
                    assert(found@ =~= box_at(b@, at as int));
                    assert(box_views(out@) =~= box_views(before).push(found@));
                    assert(box_views(out@) + boxes_from(b@, end as int) =~= box_views(before) + (
                    seq![found@] + boxes_from(b@, end as int)));
                }
                at = end;
            },
        }
    }
    out
}

} // verus!
