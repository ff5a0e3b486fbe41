//! What can be relied on across pushes.
use super::boxes;
use super::model;
use super::model::{Atom, Live, PieceView, Reason, Scan};
use super::tracks;
use vstd::prelude::*;

verus! {

/// Once the structure has stopped making sense the scanner stays a
/// pass-through: every byte comes straight out, and nothing is held.
pub proof fn law_failure_is_final(bytes: Seq<u8>)
    ensures
        Scan::Dead.run(bytes).0 is Dead,
        model::flat(Scan::Dead.run(bytes).1) == bytes,
{
    model::lemma_dead_run(bytes);
    model::law_lossless(Scan::Dead, bytes);
    assert(model::flat(Scan::Dead.run(bytes).1) + Seq::<u8>::empty() =~= model::flat(
        Scan::Dead.run(bytes).1,
    ));
    assert(Seq::<u8>::empty() + bytes =~= bytes);
}

/// Whatever was read, all that is held back is part of one box header, or
/// part of one `moof` of bounded size.
pub proof fn law_only_a_header_or_a_moof_is_held(bytes: Seq<u8>)
    ensures
        ({
            let held = model::fresh().run(bytes).0.held();
            ||| held.len() < boxes::LONG_HEADER
            ||| model::kind_of(held) == model::MOOF && held.len() < model::claimed(held)
                <= model::MAX_MOOF
        }),
{
    model::lemma_run_wf(model::fresh(), bytes);
}

/// The init segment, once there, stays as it is for as long as the structure
/// makes sense, and is withdrawn when it stops.
pub proof fn law_init_segment_is_kept(s: Scan, bytes: Seq<u8>)
    requires
        s.wf(),
        s.init_segment() is Some,
    ensures
        s.run(bytes).0 is Live ==> s.run(bytes).0.init_segment() == s.init_segment(),
        s.run(bytes).0 is Dead ==> s.run(bytes).0.init_segment() is None,
    decreases bytes.len(),
{
    if bytes.len() > 0 {
        law_init_segment_is_kept(s, bytes.drop_last());
    }
}

/// An atom for a `moof` carries one whole `moof` of bounded size.
spec fn sound_atom(a: Atom) -> bool {
    a.why is Moof ==> model::whole_box(a.bytes, model::MOOF) && a.bytes.len() <= model::MAX_MOOF
}

/// An atom for a `moof` says of it what the tracks in `init` say.
spec fn flagged(a: Atom, init: Seq<u8>) -> bool {
    a.why matches Reason::Moof(k) ==> k == tracks::tracks_in(init).keyframe_fragment(a.bytes)
}

proof fn lemma_step_fragments(s: Scan, b: u8)
    requires
        s.wf(),
    ensures
        forall|i: int|
            0 <= i < s.step(b).1.len() ==> sound_atom(#[trigger] s.step(b).1[i]) && (s.step(
                b,
            ).0 matches Scan::Live(l) ==> flagged(s.step(b).1[i], l.init)),
        s matches Scan::Live(l) ==> (s.step(b).0 matches Scan::Live(k) ==> {
            &&& l.in_init || (k.init == l.init && !k.in_init)
            &&& l.in_init && !k.in_init ==> k.init == l.init
        }),
{
    if let Scan::Live(l) = s {
        if l.left > 0 {
            if let Some(m) = l.moof {
                assert(boxes::be32(m.push(b), 0) == boxes::be32(m, 0));
                assert(boxes::be32(m.push(b), 4) == boxes::be32(m, 4));
                assert(boxes::be32(m, 0) == 1 ==> boxes::be64(m.push(b), 8) == boxes::be64(m, 8));
            }
        }
    }
}

proof fn lemma_run_fragments(s: Scan, bytes: Seq<u8>)
    requires
        s.wf(),
    ensures
        forall|i: int|
            0 <= i < s.run(bytes).1.len() ==> sound_atom(#[trigger] s.run(bytes).1[i]) && (s.run(
                bytes,
            ).0 matches Scan::Live(l) ==> flagged(s.run(bytes).1[i], l.init)),
        s.run(bytes).0 matches Scan::Live(l) ==> l.in_init ==> forall|i: int|
            0 <= i < s.run(bytes).1.len() ==> !((#[trigger] s.run(bytes).1[i]).why is Moof),
    decreases bytes.len(),
{
    if bytes.len() > 0 {
        let (before, atoms) = s.run(bytes.drop_last());
        lemma_run_fragments(s, bytes.drop_last());
        model::lemma_run_wf(s, bytes.drop_last());
        lemma_step_fragments(before, bytes.last());
        let (after, more) = before.step(bytes.last());
        assert forall|i: int| 0 <= i < (atoms + more).len() implies sound_atom(
            #[trigger] (atoms + more)[i],
        ) && (after matches Scan::Live(l) ==> flagged((atoms + more)[i], l.init)) && (
        after matches Scan::Live(l) ==> l.in_init ==> !((atoms + more)[i].why is Moof)) by {
            if i < atoms.len() {
                assert((atoms + more)[i] == atoms[i]);
            } else {
                assert((atoms + more)[i] == more[i - atoms.len()]);
            }
        }
    }
}

/// Every fragment that a run marks begins with one whole `moof` of bounded
/// size, and its keyframe flag is what the tracks of the init segment say of
/// that `moof`.
pub proof fn law_fragments_begin_on_a_whole_moof(s: Scan, bytes: Seq<u8>, i: int)
    requires
        s.wf(),
        0 <= i < s.run(bytes).1.len(),
        s.run(bytes).1[i].why is Moof,
    ensures
        model::whole_box(s.run(bytes).1[i].bytes, model::MOOF),
        s.run(bytes).1[i].bytes.len() <= model::MAX_MOOF,
        s.run(bytes).0 matches Scan::Live(l) ==> s.run(bytes).1[i].why == Reason::Moof(
            tracks::tracks_in(l.init).keyframe_fragment(s.run(bytes).1[i].bytes),
        ),
{
    lemma_run_fragments(s, bytes);
}

/// Where the fragments in a run of atoms begin, counted in bytes from the
/// beginning of the run, and whether each is a keyframe.
pub open spec fn atom_marks(atoms: Seq<Atom>) -> Seq<(int, bool)>
    decreases atoms.len(),
{
    if atoms.len() == 0 {
        Seq::empty()
    } else {
        let before = atom_marks(atoms.drop_last());
        match atoms.last().why {
            Reason::Moof(keyframe) => before.push(
                (model::flat(atoms.drop_last()).len() as int, keyframe),
            ),
            _ => before,
        }
    }
}

/// Where the fragments in a run of pieces begin, counted in bytes from the
/// beginning of the run, and whether each is a keyframe.
pub open spec fn piece_marks(pieces: Seq<PieceView>) -> Seq<(int, bool)>
    decreases pieces.len(),
{
    if pieces.len() == 0 {
        Seq::empty()
    } else {
        let before = piece_marks(pieces.drop_last());
        match pieces.last() {
            PieceView::Media { fragment_start: true, keyframe, .. } => before.push(
                (model::joined(pieces.drop_last()).len() as int, keyframe),
            ),
            _ => before,
        }
    }
}

/// Marks counted from `by` bytes further ahead.
pub open spec fn shifted(marks: Seq<(int, bool)>, by: int) -> Seq<(int, bool)> {
    marks.map_values(|m: (int, bool)| (m.0 + by, m.1))
}

/// The pieces of a push mark exactly the fragments that its bytes contain:
/// no fragment is missed, none is made up, each begins its own piece.
pub proof fn law_pieces_mark_every_fragment(atoms: Seq<Atom>)
    ensures
        piece_marks(model::group(atoms)) == atom_marks(atoms),
    decreases atoms.len(),
{
    if atoms.len() > 0 {
        let front = atoms.drop_last();
        let a = atoms.last();
        law_pieces_mark_every_fragment(front);
        model::lemma_group_flat(front);
        let before = model::group(front);
        if atoms.len() > 1 && atoms[atoms.len() - 2].joins(a) {
            let ext = before.drop_last().push(before.last().extended(a.bytes));
            assert(ext.drop_last() =~= before.drop_last());
            assert(piece_marks(ext) == piece_marks(before));
        } else {
            assert(before.push(a.piece()).drop_last() =~= before);
        }
    }
}

proof fn lemma_atom_marks_add(a: Seq<Atom>, b: Seq<Atom>)
    ensures
        atom_marks(a + b) == atom_marks(a) + shifted(atom_marks(b), model::flat(a).len() as int),
    decreases b.len(),
{
    let by = model::flat(a).len() as int;
    if b.len() == 0 {
        assert(a + b =~= a);
        assert(atom_marks(a) + shifted(atom_marks(b), by) =~= atom_marks(a));
    } else {
        let front = b.drop_last();
        assert((a + b).drop_last() =~= a + front);
        lemma_atom_marks_add(a, front);
        model::lemma_flat_add(a, front);
        if let Reason::Moof(k) = b.last().why {
            let at = model::flat(front).len() as int;
            assert(shifted(atom_marks(front).push((at, k)), by) =~= shifted(
                atom_marks(front),
                by,
            ).push((at + by, k)));
            assert(atom_marks(a + b) =~= atom_marks(a) + shifted(atom_marks(b), by));
        }
    }
}

/// However a stream is cut into pushes, its fragments are marked at the same
/// byte offsets with the same keyframe flags.
pub proof fn law_fragments_do_not_depend_on_chunking(s: Scan, a: Seq<u8>, b: Seq<u8>)
    ensures
        ({
            let whole = model::group(s.run(a + b).1);
            let first = model::group(s.run(a).1);
            let second = model::group(s.run(a).0.run(b).1);
            piece_marks(whole) == piece_marks(first) + shifted(
                piece_marks(second),
                model::joined(first).len() as int,
            )
        }),
{
    model::law_chunking_is_immaterial(s, a, b);
    law_pieces_mark_every_fragment(s.run(a + b).1);
    law_pieces_mark_every_fragment(s.run(a).1);
    law_pieces_mark_every_fragment(s.run(a).0.run(b).1);
    lemma_atom_marks_add(s.run(a).1, s.run(a).0.run(b).1);
    model::lemma_group_flat(s.run(a).1);
}

/// Whether these bytes are less than a box header.
pub open spec fn part_header(r: Seq<u8>) -> bool {
    r.len() < boxes::SHORT_HEADER || boxes::be32(r, 0) == 1 && r.len() < boxes::LONG_HEADER
}

/// Part of a box header is held as it comes.
proof fn lemma_part_header(l: Live, r: Seq<u8>)
    requires
        l.left == 0,
        l.header.len() == 0,
        part_header(r),
    ensures
        Scan::Live(l).run(r) == (Scan::Live(Live { header: r, ..l }), Seq::<Atom>::empty()),
    decreases r.len(),
{
    if r.len() == 0 {
        assert(r =~= Seq::empty());
        assert(Live { header: r, ..l } =~= l);
    } else {
        let front = r.drop_last();
        assert(front.len() >= 8 ==> boxes::be32(front, 0) == boxes::be32(r, 0));
        lemma_part_header(l, front);
        assert(front.push(r.last()) =~= r);
        assert(Seq::<Atom>::empty() + Seq::<Atom>::empty() =~= Seq::<Atom>::empty());
    }
}

/// A whole box header, read at a box boundary, opens its box.
proof fn lemma_whole_header(l: Live, h: Seq<u8>)
    requires
        l.left == 0,
        l.header.len() == 0,
        model::whole_header(h),
    ensures
        Scan::Live(l).run(h) == l.open_box(h),
{
    let front = h.drop_last();
    assert(front.len() >= 8 ==> boxes::be32(front, 0) == boxes::be32(h, 0));
    lemma_part_header(l, front);
    model::lemma_run_push(Scan::Live(l), front, h.last());
    assert(front.push(h.last()) =~= h);
    let mid = Live { header: front, ..l };
    assert(mid.step(h.last()) == mid.open_box(h));
    assert(mid.open_box(h) == l.open_box(h));
    assert(Seq::<Atom>::empty() + l.open_box(h).1 =~= l.open_box(h).1);
}

/// The header of a whole box says what the box says.
proof fn lemma_box_header(m: Seq<u8>)
    requires
        model::whole_box(m, model::kind_of(m)),
    ensures
        ({
            let n = boxes::header_len(m, 0);
            let h = m.take(n);
            &&& h + m.skip(n) == m
            &&& model::whole_header(h)
            &&& model::kind_of(h) == model::kind_of(m)
            &&& boxes::be32(h, 0) != 0
            &&& model::claimed(h) == m.len()
            &&& h.len() == n <= m.len()
        }),
{
    let n = boxes::header_len(m, 0);
    let h = m.take(n);
    assert(h + m.skip(n) =~= m);
    assert(boxes::be32(h, 0) == boxes::be32(m, 0));
    assert(boxes::be32(h, 4) == boxes::be32(m, 4));
    assert(n == 16 ==> boxes::be64(h, 8) == boxes::be64(m, 8));
}

/// A box behind its header `h`, which opens it: a `moof` comes out whole,
/// another box passes.
proof fn lemma_box_run(l: Live, h: Seq<u8>, body: Seq<u8>)
    requires
        l.wf(),
        l.left == 0,
        l.header.len() == 0,
        model::whole_header(h),
        !l.breaks(h),
        model::claimed(h) == h.len() + body.len(),
    ensures
        model::kind_of(h) == model::MOOF ==> Scan::Live(l).run(h + body) == l.hold(h + body, 0),
        model::kind_of(h) != model::MOOF ==> Scan::Live(l).run(h + body).0 == l.pass(
            h + body,
            true,
            0,
        ).0,
{
    let s = Scan::Live(l);
    lemma_whole_header(l, h);
    if body.len() == 0 {
        assert(h + body =~= h);
    } else {
        model::law_chunking_is_immaterial(s, h, body);
        model::lemma_run_wf(s, h);
        let after = l.open_box(h).0->Live_0;
        model::lemma_body_run(after, body);
        if model::kind_of(h) == model::MOOF {
            assert(l.open_box(h).1 + l.hold(h + body, 0).1 =~= l.hold(h + body, 0).1);
        } else {
            assert(l.init + h + body =~= l.init + (h + body));
        }
    }
}

/// A whole box that makes sense, read at a box boundary, leads to the next
/// boundary. Before the first `moof` a box joins the init segment; a `moof`
/// comes out as one fragment start; any other box passes through.
pub proof fn law_whole_box(l: Live, m: Seq<u8>)
    requires
        l.wf(),
        l.left == 0,
        l.header.len() == 0,
        model::whole_box(m, model::kind_of(m)),
        l.at_start() ==> model::kind_of(m) == model::FTYP || model::kind_of(m) == model::STYP
            || model::kind_of(m) == model::MOOF,
        model::kind_of(m) == model::MOOF ==> m.len() <= model::MAX_MOOF,
    ensures
        model::kind_of(m) == model::MOOF ==> Scan::Live(l).run(m) == l.hold(m, 0),
        model::kind_of(m) != model::MOOF ==> Scan::Live(l).run(m).0 == l.pass(m, true, 0).0,
        model::kind_of(m) != model::MOOF ==> model::flat(Scan::Live(l).run(m).1) == m,
{
    let n = boxes::header_len(m, 0);
    lemma_box_header(m);
    lemma_box_run(l, m.take(n), m.skip(n));
    if model::kind_of(m) != model::MOOF {
        let s = Scan::Live(l);
        let out = model::flat(s.run(m).1);
        model::law_lossless(s, m);
        assert(s.run(m).0.held() =~= Seq::empty());
        assert(out + Seq::<u8>::empty() =~= out);
        assert(Seq::<u8>::empty() + m =~= m);
    }
}

/// Boxes one after the other.
pub open spec fn packed(bs: Seq<Seq<u8>>) -> Seq<u8>
    decreases bs.len(),
{
    if bs.len() == 0 {
        Seq::empty()
    } else {
        packed(bs.drop_last()) + bs.last()
    }
}

/// Whether these are whole boxes that open a stream, none of them a `moof`.
pub open spec fn opening(bs: Seq<Seq<u8>>) -> bool {
    &&& bs.len() > 0
    &&& model::kind_of(bs[0]) == model::FTYP || model::kind_of(bs[0]) == model::STYP
    &&& forall|i: int|
        0 <= i < bs.len() ==> {
            &&& model::whole_box(#[trigger] bs[i], model::kind_of(bs[i]))
            &&& model::kind_of(bs[i]) != model::MOOF
        }
}

proof fn lemma_opening(bs: Seq<Seq<u8>>)
    requires
        opening(bs),
    ensures
        model::fresh().run(packed(bs)).0 == Scan::Live(
            Live {
                in_init: true,
                init: packed(bs),
                header: Seq::empty(),
                left: 0,
                moof: None,
            },
        ),
        packed(bs).len() > 0,
    decreases bs.len(),
{
    let front = bs.drop_last();
    let m = bs.last();
    model::law_chunking_is_immaterial(model::fresh(), packed(front), m);
    if bs.len() == 1 {
        assert(front =~= Seq::empty());
        assert(packed(front) =~= Seq::empty());
        assert(packed(bs) =~= m);
        assert(model::fresh().run(packed(front)).0 == model::fresh());
    } else {
        lemma_opening(front);
    }
    model::lemma_run_wf(model::fresh(), packed(front));
    law_whole_box(model::fresh().run(packed(front)).0->Live_0, m);
}

/// The init segment is everything before the first `moof`, and is not
/// available until that `moof` arrives: boxes that open a stream give none,
/// and the `moof` behind them makes it those boxes, to the byte. The `moof`
/// itself comes out as a fragment start.
pub proof fn law_init_segment_is_everything_before_the_first_moof(
    bs: Seq<Seq<u8>>,
    moof: Seq<u8>,
)
    requires
        opening(bs),
        model::whole_box(moof, model::MOOF),
        moof.len() <= model::MAX_MOOF,
    ensures
        model::fresh().run(packed(bs)).0.init_segment() is None,
        model::fresh().run(packed(bs) + moof).0.init_segment() == Some(packed(bs)),
        model::fresh().run(packed(bs) + moof).1 == model::fresh().run(packed(bs)).1.push(
            Atom {
                why: Reason::Moof(tracks::tracks_in(packed(bs)).keyframe_fragment(moof)),
                bytes: moof,
            },
        ),
{
    lemma_opening(bs);
    let s = model::fresh().run(packed(bs)).0;
    model::law_chunking_is_immaterial(model::fresh(), packed(bs), moof);
    model::lemma_run_wf(model::fresh(), packed(bs));
    law_whole_box(s->Live_0, moof);
    let atoms = model::fresh().run(packed(bs)).1;
    assert(atoms + s.run(moof).1 =~= atoms.push(s.run(moof).1[0]));
}

/// Where the first top-level `moof` at or behind `at` begins, a box beginning
/// at `at`; none as long as the header of one has not arrived.
pub open spec fn first_moof(b: Seq<u8>, at: int) -> Option<int>
    decreases b.len() - at,
{
    let size = if boxes::be32(b, at) == 1 {
        boxes::be64(b, at + 8)
    } else {
        boxes::be32(b, at)
    };
    if at + boxes::SHORT_HEADER > b.len() || at + boxes::header_len(b, at) > b.len() {
        None
    } else if boxes::be32(b, at + 4) == model::MOOF {
        Some(at)
    } else if size < boxes::header_len(b, at) || at + size > b.len() {
        None
    } else {
        first_moof(b, at + size)
    }
}

/// Once the first `moof` has been reached the init segment stays as it is.
proof fn lemma_init_stays(s: Scan, bytes: Seq<u8>)
    requires
        s.wf(),
        s matches Scan::Live(l) && !l.in_init,
    ensures
        s.run(bytes).0 matches Scan::Live(k) ==> !k.in_init && k.init == s->Live_0.init,
    decreases bytes.len(),
{
    if bytes.len() > 0 {
        let front = bytes.drop_last();
        lemma_init_stays(s, front);
        model::lemma_run_wf(s, front);
        lemma_step_fragments(s.run(front).0, bytes.last());
    }
}

/// A whole box header at `at`, and what it says of the first `moof`.
proof fn lemma_header_at(b: Seq<u8>, at: int)
    requires
        0 <= at <= b.len(),
    ensures
        part_header(b.skip(at)) ==> first_moof(b, at) is None,
        !part_header(b.skip(at)) ==> {
            let n = boxes::header_len(b, at);
            let h = b.skip(at).take(n);
            let end = at + model::claimed(h);
            &&& h + b.skip(at + n) == b.skip(at)
            &&& h.len() == n <= b.len() - at
            &&& model::whole_header(h)
            &&& model::kind_of(h) == model::MOOF ==> first_moof(b, at) == Some(at)
            &&& model::kind_of(h) != model::MOOF && model::claimed(h) >= n ==> first_moof(b, at)
                == if end > b.len() {
                None
            } else {
                first_moof(b, end)
            }
        },
{
    let rest = b.skip(at);
    if rest.len() >= 8 {
        assert(boxes::be32(rest, 0) == boxes::be32(b, at));
    }
    if !part_header(rest) {
        let n = boxes::header_len(b, at);
        let h = rest.take(n);
        assert(h + b.skip(at + n) =~= rest);
        assert(boxes::be32(h, 0) == boxes::be32(b, at));
        assert(boxes::be32(h, 4) == boxes::be32(b, at + 4));
        assert(n == 16 ==> boxes::be64(h, 8) == boxes::be64(b, at + 8));
    }
}

/// Reading a stream from a box boundary before the first `moof` on.
proof fn lemma_init_walk(l: Live, b: Seq<u8>, at: int)
    requires
        l.wf(),
        l.in_init,
        l.left == 0,
        l.header.len() == 0,
        0 <= at <= b.len(),
        l.init == b.take(at),
    ensures
        Scan::Live(l).run(b.skip(at)).0 matches Scan::Live(k) ==> match first_moof(b, at) {
            Some(p) => !k.in_init && k.init == b.take(p),
            None => k.in_init,
        },
    decreases b.len() - at,
{
    let s = Scan::Live(l);
    let rest = b.skip(at);
    lemma_header_at(b, at);
    if part_header(rest) {
        lemma_part_header(l, rest);
    } else {
        let n = boxes::header_len(b, at);
        let h = rest.take(n);
        let body = b.skip(at + n);
        lemma_whole_header(l, h);
        model::law_chunking_is_immaterial(s, h, body);
        model::lemma_run_wf(s, h);
        let after = l.open_box(h).0;
        assert(s.run(rest).0 == after.run(body).0);
        if l.breaks(h) {
            model::lemma_dead_run(body);
        } else if model::kind_of(h) == model::MOOF {
            lemma_init_stays(after, body);
        } else {
            let end = at + model::claimed(h);
            lemma_init_box(l, h, body);
            if end <= b.len() {
                let next = after.run(body.take(end - at - n)).0->Live_0;
                assert(body.skip(end - at - n) =~= b.skip(end));
                assert(next.init =~= b.take(end));
                lemma_init_walk(next, b, end);
            }
        }
    }
}

/// A box before the first `moof`, its header being read: its body, as far as
/// it comes, joins the init segment.
proof fn lemma_init_box(l: Live, h: Seq<u8>, body: Seq<u8>)
    requires
        l.wf(),
        l.in_init,
        l.left == 0,
        l.header.len() == 0,
        model::whole_header(h),
        !l.breaks(h),
        model::kind_of(h) != model::MOOF,
    ensures
        ({
            let left = model::claimed(h) - h.len();
            let after = l.open_box(h).0;
            if left > body.len() {
                after.run(body).0 matches Scan::Live(k) && k.in_init
            } else {
                let next = after.run(body.take(left)).0;
                &&& after.run(body).0 == next.run(body.skip(left)).0
                &&& next matches Scan::Live(k) && k.wf() && k.in_init && k.left == 0
                    && k.header.len() == 0 && k.init == l.init + h + body.take(left)
            }
        }),
{
    let left = model::claimed(h) - h.len();
    let after = l.open_box(h).0;
    let k = after->Live_0;
    lemma_whole_header(l, h);
    model::lemma_run_wf(Scan::Live(l), h);
    if left > body.len() {
        if body.len() > 0 {
            model::lemma_body_run(k, body);
        } else {
            assert(after.run(body).0 == after);
        }
    } else {
        let part = body.take(left);
        let more = body.skip(left);
        assert(part + more =~= body);
        model::law_chunking_is_immaterial(after, part, more);
        model::lemma_run_wf(after, part);
        if left > 0 {
            model::lemma_body_run(k, part);
        } else {
            assert(after.run(part).0 == after);
            assert(l.init + h + part =~= l.init + h);
        }
    }
}

/// Of any stream, read as far as it has come, the init segment is all bytes
/// before the first top-level `moof`: it is there exactly if the structure has
/// made sense so far, the header of that `moof` has arrived and bytes came
/// before it.
pub proof fn law_init_segment_of_any_stream(bytes: Seq<u8>)
    ensures
        model::fresh().run(bytes).0.init_segment() == match (
            model::fresh().run(bytes).0,
            first_moof(bytes, 0),
        ) {
            (Scan::Live(_), Some(p)) => if p > 0 {
                Some(bytes.take(p))
            } else {
                None
            },
            _ => None,
        },
        first_moof(bytes, 0) matches Some(p) ==> 0 <= p < bytes.len(),
{
    let l = model::fresh()->Live_0;
    assert(bytes.skip(0) =~= bytes);
    assert(bytes.take(0) =~= Seq::empty());
    lemma_init_walk(l, bytes, 0);
    lemma_first_moof(bytes, 0);
}

/// A `moof` that has been reached lies inside the stream.
proof fn lemma_first_moof(b: Seq<u8>, at: int)
    requires
        0 <= at,
    ensures
        first_moof(b, at) matches Some(p) ==> at <= p && p + boxes::SHORT_HEADER <= b.len(),
    decreases b.len() - at,
{
    let size = if boxes::be32(b, at) == 1 {
        boxes::be64(b, at + 8)
    } else {
        boxes::be32(b, at)
    };
    if at + boxes::SHORT_HEADER <= b.len() && at + boxes::header_len(b, at) <= b.len() && size
        >= boxes::header_len(b, at) && at + size <= b.len() {
        lemma_first_moof(b, at + size);
    }
}

/// A stream whose init segment names no video track can be joined at every
/// fragment; one that names a video track, only at fragments whose video all
/// begins on sync samples.
pub proof fn law_join_points(init: Seq<u8>, moof: Seq<u8>)
    ensures
        tracks::tracks_in(init).video.len() == 0 ==> tracks::tracks_in(init).keyframe_fragment(
            moof,
        ),
        tracks::tracks_in(init).video.len() > 0 && tracks::tracks_in(init).keyframe_fragment(moof)
            ==> {
            let parts = boxes::boxes_in(boxes::box_at(moof, 0).body);
            &&& exists|i: int|
                0 <= i < parts.len() && tracks::tracks_in(init).video_traf(#[trigger] parts[i], true)
            &&& forall|i: int|
                0 <= i < parts.len() ==> !tracks::tracks_in(init).video_traf(
                    #[trigger] parts[i],
                    false,
                )
        },
{
    reveal(tracks::TracksView::keyframe_fragment);
}

/// What ends the structure, at a box boundary: a box without a size or with
/// one smaller than its header, a first box that is none of `ftyp`, `styp` and
/// `moof`, and a `moof` of more than four mebibytes. Nothing else does.
pub proof fn law_what_makes_no_sense_ends_the_structure(l: Live, h: Seq<u8>)
    requires
        l.left == 0,
        l.header.len() == 0,
        model::whole_header(h),
    ensures
        Scan::Live(l).run(h).0 is Dead <==> {
            let word = boxes::be32(h, 0);
            let size = if word == 1 {
                boxes::be64(h, 8)
            } else {
                word
            };
            let kind = boxes::be32(h, 4);
            ||| word == 0
            ||| size < h.len()
            ||| l.in_init && l.init.len() == 0 && kind != 0x6674_7970 && kind != 0x7374_7970 && kind
                != 0x6D6F_6F66
            ||| kind == 0x6D6F_6F66 && size > 4_194_304
        },
{
    lemma_whole_header(l, h);
}

} // verus!
