//! What the scanner does, byte by byte.
//!
//! The model reads a stream one byte at a time and gives out atoms: runs of
//! bytes that leave the scanner together. A push reads its chunk through the
//! model and hands the atoms back grouped into pieces. Where the chunks are
//! cut therefore changes how the atoms are grouped, and nothing else.
use super::boxes;
use super::tracks;
use vstd::prelude::*;

verus! {

/// A `moof` is held back until it is complete so its sample flags can be read.
/// A real one is a few KB; anything near this is not a moof at all.
pub const MAX_MOOF: u64 = 4_194_304;

pub const FTYP: u32 = 0x6674_7970;

pub const STYP: u32 = 0x7374_7970;

pub const MOOF: u32 = 0x6D6F_6F66;

/// A scanner that has followed the box structure so far.
#[verifier::ext_equal]
pub struct Live {
    /// True until the first `moof` is seen.
    pub in_init: bool,
    /// The init segment: everything before the first `moof`.
    pub init: Seq<u8>,
    /// Partial top-level box header.
    pub header: Seq<u8>,
    /// Bytes still to come in the current box body.
    pub left: int,
    /// The `moof` in progress, header included.
    pub moof: Option<Seq<u8>>,
}

/// The state of a scanner: dead once the box structure stopped making sense.
#[verifier::ext_equal]
pub enum Scan {
    Live(Live),
    Dead,
}

/// Why a run of bytes leaves the scanner.
pub enum Reason {
    /// A box header before the first `moof`.
    InitHeader,
    /// A byte of a box body before the first `moof`.
    InitBody,
    /// A complete `moof`, and whether its video begins on a keyframe.
    Moof(bool),
    /// A box header or a body byte after the first `moof`.
    Media,
    /// The header at which the structure stopped making sense.
    Broken,
    /// A byte after that.
    Raw,
}

/// A run of bytes that leaves the scanner together.
#[verifier::ext_equal]
pub struct Atom {
    pub why: Reason,
    pub bytes: Seq<u8>,
}

/// A piece as callers see it.
#[verifier::ext_equal]
pub enum PieceView {
    Init(Seq<u8>),
    Media { data: Seq<u8>, fragment_start: bool, keyframe: bool },
}

impl PieceView {
    pub open spec fn data(self) -> Seq<u8> {
        match self {
            PieceView::Init(data) => data,
            PieceView::Media { data, .. } => data,
        }
    }

    /// The piece with more bytes behind its own.
    pub open spec fn extended(self, more: Seq<u8>) -> PieceView {
        match self {
            PieceView::Init(data) => PieceView::Init(data + more),
            PieceView::Media { data, fragment_start, keyframe } => PieceView::Media {
                data: data + more,
                fragment_start,
                keyframe,
            },
        }
    }
}

impl Atom {
    /// The piece that this atom begins.
    pub open spec fn piece(self) -> PieceView {
        match self.why {
            Reason::InitHeader | Reason::InitBody => PieceView::Init(self.bytes),
            Reason::Moof(keyframe) => PieceView::Media {
                data: self.bytes,
                fragment_start: true,
                keyframe,
            },
            Reason::Media | Reason::Broken | Reason::Raw => PieceView::Media {
                data: self.bytes,
                fragment_start: false,
                keyframe: false,
            },
        }
    }

    /// Whether `next`, right behind this atom, goes into the same piece: the
    /// bytes of one init box body, of one media run, or of the tail that is
    /// no longer understood.
    pub open spec fn joins(self, next: Atom) -> bool {
        match next.why {
            Reason::InitBody => self.why is InitBody,
            Reason::Media => self.why is Media || self.why is Moof,
            Reason::Raw => self.why is Raw,
            _ => false,
        }
    }
}

/// The pieces that a run of atoms makes.
pub open spec fn group(atoms: Seq<Atom>) -> Seq<PieceView>
    decreases atoms.len(),
{
    if atoms.len() == 0 {
        Seq::empty()
    } else {
        let before = group(atoms.drop_last());
        if atoms.len() > 1 && atoms[atoms.len() - 2].joins(atoms.last()) {
            before.drop_last().push(before.last().extended(atoms.last().bytes))
        } else {
            before.push(atoms.last().piece())
        }
    }
}

/// The bytes of a run of pieces, one after the other.
pub open spec fn joined(pieces: Seq<PieceView>) -> Seq<u8>
    decreases pieces.len(),
{
    if pieces.len() == 0 {
        Seq::empty()
    } else {
        joined(pieces.drop_last()) + pieces.last().data()
    }
}

/// The bytes of a run of atoms, one after the other.
pub open spec fn flat(atoms: Seq<Atom>) -> Seq<u8>
    decreases atoms.len(),
{
    if atoms.len() == 0 {
        Seq::empty()
    } else {
        flat(atoms.drop_last()) + atoms.last().bytes
    }
}

/// The length, header included, that a complete box header claims.
pub open spec fn claimed(h: Seq<u8>) -> int {
    if boxes::be32(h, 0) == 1 {
        boxes::be64(h, 8)
    } else {
        boxes::be32(h, 0)
    }
}

/// The box type in a header.
pub open spec fn kind_of(h: Seq<u8>) -> u32 {
    boxes::be32(h, 4) as u32
}

/// Whether the bytes gathered so far are a whole box header.
pub open spec fn whole_header(h: Seq<u8>) -> bool {
    h.len() >= boxes::SHORT_HEADER && h.len() == boxes::header_len(h, 0)
}

/// Whether `m` is one whole box of the given kind, with an explicit size.
pub open spec fn whole_box(m: Seq<u8>, kind: u32) -> bool {
    &&& boxes::fits(m, 0)
    &&& boxes::be32(m, 0) != 0
    &&& boxes::total_len(m, 0) == m.len()
    &&& kind_of(m) == kind
}

/// A scanner that has read nothing yet.
pub open spec fn fresh() -> Scan {
    Scan::Live(
        Live {
            in_init: true,
            init: Seq::empty(),
            header: Seq::empty(),
            left: 0,
            moof: None,
        },
    )
}

impl Live {
    /// Whether no box has been read yet.
    pub open spec fn at_start(self) -> bool {
        self.in_init && self.init.len() == 0
    }

    /// Whether a whole header `h` stops making sense here: a size of zero or
    /// under the header's own length, a first box that no fragmented stream
    /// opens with, a `moof` too large to be one.
    pub open spec fn breaks(self, h: Seq<u8>) -> bool {
        ||| boxes::be32(h, 0) == 0
        ||| claimed(h) < h.len()
        ||| self.at_start() && kind_of(h) != FTYP && kind_of(h) != STYP && kind_of(h) != MOOF
        ||| kind_of(h) == MOOF && claimed(h) > MAX_MOOF
    }

    /// Bytes that belong to the stream and pass straight through.
    pub open spec fn pass(self, bytes: Seq<u8>, header: bool, left: int) -> (Scan, Seq<Atom>) {
        let why = if !self.in_init {
            Reason::Media
        } else if header {
            Reason::InitHeader
        } else {
            Reason::InitBody
        };
        (
            Scan::Live(
                Live {
                    init: if self.in_init {
                        self.init + bytes
                    } else {
                        self.init
                    },
                    header: Seq::empty(),
                    left,
                    ..self
                },
            ),
            seq![Atom { why, bytes }],
        )
    }

    /// A `moof` as far as it has come, with `left` bytes of it missing.
    pub open spec fn hold(self, moof: Seq<u8>, left: int) -> (Scan, Seq<Atom>) {
        let after = Live { in_init: false, header: Seq::empty(), left, moof: None, ..self };
        if left > 0 {
            (Scan::Live(Live { moof: Some(moof), ..after }), Seq::empty())
        } else {
            let keyframe = tracks::tracks_in(self.init).keyframe_fragment(moof);
            (Scan::Live(after), seq![Atom { why: Reason::Moof(keyframe), bytes: moof }])
        }
    }

    /// A whole header `h`.
    pub open spec fn open_box(self, h: Seq<u8>) -> (Scan, Seq<Atom>) {
        if self.breaks(h) {
            (Scan::Dead, seq![Atom { why: Reason::Broken, bytes: h }])
        } else if kind_of(h) == MOOF {
            self.hold(h, claimed(h) - h.len())
        } else {
            self.pass(h, true, claimed(h) - h.len())
        }
    }

    /// What the next byte does.
    pub open spec fn step(self, b: u8) -> (Scan, Seq<Atom>) {
        if self.left > 0 {
            match self.moof {
                Some(m) => self.hold(m.push(b), self.left - 1),
                None => self.pass(seq![b], false, self.left - 1),
            }
        } else {
            let h = self.header.push(b);
            if whole_header(h) {
                self.open_box(h)
            } else {
                (Scan::Live(Live { header: h, ..self }), Seq::empty())
            }
        }
    }

    /// What holds of every state that a scanner reaches.
    pub open spec fn wf(self) -> bool {
        &&& self.left >= 0
        &&& self.header.len() > 0 ==> self.left == 0
        &&& self.header.len() < boxes::LONG_HEADER
        &&& self.header.len() >= boxes::SHORT_HEADER ==> boxes::be32(self.header, 0) == 1
        &&& self.at_start() ==> self.left == 0
        &&& self.moof matches Some(m) ==> {
            &&& !self.in_init
            &&& self.left > 0
            &&& boxes::SHORT_HEADER <= m.len()
            &&& boxes::header_len(m, 0) <= m.len()
            &&& boxes::be32(m, 0) != 0
            &&& kind_of(m) == MOOF
            &&& m.len() + self.left == claimed(m)
            &&& claimed(m) <= MAX_MOOF
        }
    }
}

impl Scan {
    /// What the next byte does.
    pub open spec fn step(self, b: u8) -> (Scan, Seq<Atom>) {
        match self {
            Scan::Live(l) => l.step(b),
            Scan::Dead => (Scan::Dead, seq![Atom { why: Reason::Raw, bytes: seq![b] }]),
        }
    }

    /// What a run of bytes does: the state behind it and the atoms it frees.
    pub open spec fn run(self, bytes: Seq<u8>) -> (Scan, Seq<Atom>)
        decreases bytes.len(),
    {
        if bytes.len() == 0 {
            (self, Seq::empty())
        } else {
            let (before, atoms) = self.run(bytes.drop_last());
            let (after, more) = before.step(bytes.last());
            (after, atoms + more)
        }
    }

    /// The bytes read but not yet given out.
    pub open spec fn held(self) -> Seq<u8> {
        match self {
            Scan::Live(l) => match l.moof {
                Some(m) => m,
                None => l.header,
            },
            Scan::Dead => Seq::empty(),
        }
    }

    /// The init segment, once the first `moof` has been reached.
    pub open spec fn init_segment(self) -> Option<Seq<u8>> {
        match self {
            Scan::Live(l) => if l.in_init || l.init.len() == 0 {
                None
            } else {
                Some(l.init)
            },
            Scan::Dead => None,
        }
    }

    /// What holds of every state that a scanner reaches.
    pub open spec fn wf(self) -> bool {
        self matches Scan::Live(l) ==> l.wf()
    }
}

/// Every step keeps a state within what a scanner can reach.
pub proof fn lemma_step_wf(s: Scan, b: u8)
    requires
        s.wf(),
    ensures
        s.step(b).0.wf(),
{
    if let Scan::Live(l) = s {
        if l.left > 0 {
            if let Some(m) = l.moof {
                assert(boxes::be32(m.push(b), 0) == boxes::be32(m, 0));
                assert(boxes::be32(m.push(b), 4) == boxes::be32(m, 4));
                assert(boxes::be32(m, 0) == 1 ==> boxes::be64(m.push(b), 8) == boxes::be64(m, 8));
            }
        } else {
            let h = l.header.push(b);
            assert(l.header.len() >= 8 ==> boxes::be32(h, 0) == boxes::be32(l.header, 0));
        }
    }
}

/// A run keeps a state within what a scanner can reach.
pub proof fn lemma_run_wf(s: Scan, bytes: Seq<u8>)
    requires
        s.wf(),
    ensures
        s.run(bytes).0.wf(),
    decreases bytes.len(),
{
    if bytes.len() > 0 {
        lemma_run_wf(s, bytes.drop_last());
        lemma_step_wf(s.run(bytes.drop_last()).0, bytes.last());
    }
}

/// Where a stream is cut into chunks is immaterial: reading it in two parts
/// leaves the same state and frees the same atoms as reading it whole.
pub proof fn law_chunking_is_immaterial(s: Scan, a: Seq<u8>, b: Seq<u8>)
    ensures
        s.run(a + b).0 == s.run(a).0.run(b).0,
        s.run(a + b).1 == s.run(a).1 + s.run(a).0.run(b).1,
    decreases b.len(),
{
    if b.len() == 0 {
        assert(a + b =~= a);
        assert(s.run(a).1 + s.run(a).0.run(b).1 =~= s.run(a).1);
    } else {
        assert((a + b).drop_last() =~= a + b.drop_last());
        law_chunking_is_immaterial(s, a, b.drop_last());
        let (mid, more) = s.run(a).0.run(b.drop_last());
        let last = mid.step(b.last()).1;
        assert((s.run(a).1 + more) + last =~= s.run(a).1 + (more + last));
    }
}

/// One more byte at the end of a run.
pub proof fn lemma_run_push(s: Scan, bytes: Seq<u8>, b: u8)
    ensures
        s.run(bytes.push(b)).0 == s.run(bytes).0.step(b).0,
        s.run(bytes.push(b)).1 == s.run(bytes).1 + s.run(bytes).0.step(b).1,
{
    assert(bytes.push(b).drop_last() =~= bytes);
}

/// The bytes of two runs of atoms.
pub proof fn lemma_flat_add(a: Seq<Atom>, b: Seq<Atom>)
    ensures
        flat(a + b) == flat(a) + flat(b),
    decreases b.len(),
{
    if b.len() == 0 {
        assert(a + b =~= a);
        assert(flat(a) + flat(b) =~= flat(a));
    } else {
        assert((a + b).drop_last() =~= a + b.drop_last());
        lemma_flat_add(a, b.drop_last());
        assert(flat(a) + flat(b) =~= (flat(a) + flat(b.drop_last())) + b.last().bytes);
    }
}

/// Grouping atoms into pieces neither adds nor drops a byte.
pub proof fn lemma_group_flat(atoms: Seq<Atom>)
    ensures
        joined(group(atoms)) == flat(atoms),
        atoms.len() > 0 ==> group(atoms).len() > 0,
    decreases atoms.len(),
{
    if atoms.len() > 0 {
        let before = group(atoms.drop_last());
        lemma_group_flat(atoms.drop_last());
        if atoms.len() > 1 && atoms[atoms.len() - 2].joins(atoms.last()) {
            let ext = before.drop_last().push(before.last().extended(atoms.last().bytes));
            assert(ext.drop_last() =~= before.drop_last());
            assert(joined(ext) =~= joined(before) + atoms.last().bytes);
        } else {
            assert(before.push(atoms.last().piece()).drop_last() =~= before);
        }
    }
}

/// One byte is neither lost nor made up.
proof fn lemma_step_lossless(s: Scan, b: u8)
    requires
        s.wf(),
    ensures
        flat(s.step(b).1) + s.step(b).0.held() == s.held().push(b),
{
    reveal_with_fuel(flat, 2);
    let atoms = s.step(b).1;
    if atoms.len() == 1 {
        assert(atoms.drop_last() =~= Seq::empty());
        assert(flat(atoms) =~= atoms[0].bytes);
    } else {
        assert(atoms.len() == 0);
        assert(flat(atoms) =~= Seq::empty());
    }
}

/// Nothing is lost and nothing is made up: what a run gives out, followed by
/// what is held behind it, is what was held before it followed by the run.
pub proof fn law_lossless(s: Scan, bytes: Seq<u8>)
    requires
        s.wf(),
    ensures
        flat(s.run(bytes).1) + s.run(bytes).0.held() == s.held() + bytes,
        joined(group(s.run(bytes).1)) + s.run(bytes).0.held() == s.held() + bytes,
    decreases bytes.len(),
{
    lemma_group_flat(s.run(bytes).1);
    if bytes.len() == 0 {
        assert(flat(s.run(bytes).1) + s.held() =~= s.held() + bytes);
    } else {
        let (before, atoms) = s.run(bytes.drop_last());
        let (after, more) = before.step(bytes.last());
        law_lossless(s, bytes.drop_last());
        lemma_run_wf(s, bytes.drop_last());
        lemma_step_lossless(before, bytes.last());
        lemma_flat_add(atoms, more);
        assert(flat(atoms + more) + after.held() =~= flat(atoms) + (flat(more) + after.held()));
        assert(flat(atoms) + before.held().push(bytes.last()) =~= (flat(atoms) + before.held()).push(
            bytes.last(),
        ));
        assert((s.held() + bytes.drop_last()).push(bytes.last()) =~= s.held() + bytes);
    }
}

/// One atom per byte.
pub open spec fn singles(why: Reason, bytes: Seq<u8>) -> Seq<Atom> {
    Seq::new(bytes.len(), |i: int| Atom { why, bytes: seq![bytes[i]] })
}

/// Bytes of one box body, taken in one go.
pub proof fn lemma_body_run(l: Live, bytes: Seq<u8>)
    requires
        l.wf(),
        0 < bytes.len() <= l.left,
    ensures
        Scan::Live(l).run(bytes) == (match l.moof {
            Some(m) => l.hold(m + bytes, l.left - bytes.len()),
            None => (
                l.pass(bytes, false, l.left - bytes.len()).0,
                singles(l.pass(bytes, false, 0).1[0].why, bytes),
            ),
        }),
    decreases bytes.len(),
{
    let s = Scan::Live(l);
    let b = bytes.last();
    let front = bytes.drop_last();
    lemma_run_push(s, front, b);
    assert(front.push(b) =~= bytes);
    let why = l.pass(bytes, false, 0).1[0].why;
    if front.len() == 0 {
        assert(s.run(front) == (s, Seq::<Atom>::empty()));
        assert(seq![b] =~= bytes);
        if let Some(m) = l.moof {
            assert(m.push(b) =~= m + bytes);
            assert(s.run(bytes).1 =~= s.step(b).1);
        } else {
            assert(s.run(bytes).1 =~= singles(why, bytes));
        }
    } else {
        lemma_body_run(l, front);
        if let Some(m) = l.moof {
            assert((m + front).push(b) =~= m + bytes);
            assert(s.run(bytes).1 =~= l.hold(m + bytes, l.left - bytes.len()).1);
        } else {
            assert(l.init + front + seq![b] =~= l.init + bytes);
            assert(singles(why, front) + seq![Atom { why, bytes: seq![b] }] =~= singles(why, bytes));
        }
    }
}

/// Bytes behind a failure.
pub proof fn lemma_dead_run(bytes: Seq<u8>)
    ensures
        Scan::Dead.run(bytes) == (Scan::Dead, singles(Reason::Raw, bytes)),
    decreases bytes.len(),
{
    if bytes.len() == 0 {
        assert(singles(Reason::Raw, bytes) =~= Seq::empty());
    } else {
        let front = bytes.drop_last();
        lemma_dead_run(front);
        assert(singles(Reason::Raw, front) + seq![
            Atom { why: Reason::Raw, bytes: seq![bytes.last()] },
        ] =~= singles(Reason::Raw, bytes));
    }
}

/// One atom per byte makes the same pieces as one atom for all of them, where
/// such atoms join.
pub proof fn lemma_group_singles(atoms: Seq<Atom>, why: Reason, bytes: Seq<u8>)
    requires
        bytes.len() > 0,
        why is InitBody || why is Media || why is Raw,
    ensures
        group(atoms + singles(why, bytes)) == group(atoms.push(Atom { why, bytes })),
    decreases bytes.len(),
{
    let front = bytes.drop_last();
    let b = seq![bytes.last()];
    let last = Atom { why, bytes: b };
    let all = atoms + singles(why, bytes);
    let one = atoms.push(Atom { why, bytes });
    assert(all.last() =~= last);
    assert(one.drop_last() =~= atoms);
    lemma_group_flat(atoms);
    if front.len() == 0 {
        assert(b =~= bytes);
        assert(all =~= one);
    } else {
        assert(all.drop_last() =~= atoms + singles(why, front));
        lemma_group_singles(atoms, why, front);
        let most = atoms.push(Atom { why, bytes: front });
        assert(most.drop_last() =~= atoms);
        lemma_group_flat(most);
        assert(all[all.len() - 2].why == why);
        assert(front + b =~= bytes);
        let g = group(atoms);
        if atoms.len() > 0 && atoms.last().joins(last) {
            assert(group(most).last().extended(b) =~= g.last().extended(bytes));
            assert(group(all) =~= group(one));
        } else {
            assert(group(most).last().extended(b) =~= (Atom { why, bytes }).piece());
            assert(group(all) =~= group(one));
        }
    }
}

} // verus!
