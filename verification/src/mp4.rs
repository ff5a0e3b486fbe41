//! Fragmented-MP4 box scanning for late joiners.
//!
//! A client that attaches mid-stream cannot just be handed live bytes: fMP4
//! needs the init segment (`ftyp` + `moov`) before any media, and must start on
//! a fragment boundary, and, since fragments are cut on a timer as well as on
//! keyframes, on a fragment whose video begins with a keyframe, or it decodes
//! garbage until the next one. This scanner is a pass-through: it never
//! consumes bytes, it only reports where the structure boundaries fall and
//! which fragments are safe to join at, so the fan-out layer can cache the
//! init segment and align newcomers.
//!
//! ADTS and MP3 need none of this: they are self-synchronising, so every byte
//! offset is a valid join point.
use bytes::Bytes;

use crate::chunk;
use tracks::Tracks;
use vstd::prelude::*;

pub mod boxes;
pub mod laws;
pub mod model;
pub mod tracks;
pub mod written;

verus! {

#[derive(Debug, Clone, PartialEq, Eq)]
pub enum Piece {
    /// Part of the init segment: everything preceding the first `moof`.
    Init(Bytes),
    /// Media bytes. `fragment_start` marks a run beginning at a `moof` header;
    /// `keyframe` says its video begins on a sync sample, which together mark
    /// where a late joiner may safely be attached.
    Media { data: Bytes, fragment_start: bool, keyframe: bool },
}

impl View for Piece {
    type V = model::PieceView;

    open spec fn view(&self) -> model::PieceView {
        match self {
            Piece::Init(data) => model::PieceView::Init(chunk::contents(*data)),
            Piece::Media { data, fragment_start, keyframe } => model::PieceView::Media {
                data: chunk::contents(*data),
                fragment_start: *fragment_start,
                keyframe: *keyframe,
            },
        }
    }
}

/// The pieces as their views.
pub open spec fn piece_views(pieces: Seq<Piece>) -> Seq<model::PieceView> {
    pieces.map_values(|p: Piece| p@)
}

impl Piece {
    pub fn data(&self) -> (r: &Bytes)
        ensures
            chunk::contents(*r) == self@.data(),
    {
        match self {
            Piece::Init(d) => d,
            Piece::Media { data, .. } => data,
        }
    }

    pub fn fragment_start(&self) -> (r: bool)
        ensures
            r == (self@ matches model::PieceView::Media { fragment_start: true, .. }),
    {
        match self {
            Piece::Init(_) => false,
            Piece::Media { fragment_start, .. } => *fragment_start,
        }
    }

    /// True for a fragment start whose first video sample is a keyframe. Also
    /// true when the stream has no video track: audio fragments are all
    /// joinable.
    pub fn keyframe(&self) -> (r: bool)
        ensures
            r == (self@ matches model::PieceView::Media { keyframe: true, .. }),
    {
        match self {
            Piece::Init(_) => false,
            Piece::Media { keyframe, .. } => *keyframe,
        }
    }
}

/// The bytes of a run of chunks, one after the other.
pub open spec fn concat(parts: Seq<Bytes>) -> Seq<u8>
    decreases parts.len(),
{
    if parts.len() == 0 {
        Seq::empty()
    } else {
        concat(parts.drop_last()) + chunk::contents(parts.last())
    }
}

/// Media bytes accumulated within a single `push`, held only long enough to
/// coalesce a run into one piece. Never held across calls: that would trade
/// latency for tidiness, which is the wrong way round here.
#[derive(Debug)]
struct Pending {
    parts: Vec<Bytes>,
    starts: bool,
    keyframe: bool,
}

impl Pending {
    /// The piece in the making, if there is one.
    spec fn piece(self) -> Option<model::PieceView> {
        if self.parts@.len() == 0 {
            None
        } else {
            Some(
                model::PieceView::Media {
                    data: concat(self.parts@),
                    fragment_start: self.starts,
                    keyframe: self.keyframe,
                },
            )
        }
    }

    spec fn wf(self) -> bool {
        self.parts@.len() == 0 ==> !self.starts && !self.keyframe
    }

    fn take(&mut self) -> (r: Option<Piece>)
        ensures
            r is Some <==> old(self).piece() is Some,
            r matches Some(p) ==> old(self).piece() == Some(p@),
            final(self).piece() is None,
            final(self).wf(),
    {
        let starts = self.starts;
        let keyframe = self.keyframe;
        self.starts = false;
        self.keyframe = false;
        if self.parts.len() == 0 {
            return None;
        }
        if self.parts.len() == 1 {
            // The common case: one contiguous slice, so no copy at all.
            proof {
                reveal_with_fuel(concat, 2);
                assert(self.parts@.drop_last() =~= Seq::<Bytes>::empty());
                assert(concat(self.parts@) =~= chunk::contents(self.parts@[0]));
            }
            let data = self.parts.pop().unwrap();
            return Some(Piece::Media { data, fragment_start: starts, keyframe });
        }
        let mut merged: Vec<u8> = Vec::new();
        let mut i: usize = 0;
        while i < self.parts.len()
            invariant
                i <= self.parts@.len(),
                merged@ == concat(self.parts@.take(i as int)),
            decreases self.parts.len() - i,
        {
            proof {
                assert(self.parts@.take(i + 1).drop_last() =~= self.parts@.take(i as int));
            }
            merged.extend_from_slice(chunk::as_slice(&self.parts[i]));
            assert(merged@ =~= concat(self.parts@.take(i + 1)));
            i = i + 1;
        }
        assert(self.parts@.take(i as int) =~= self.parts@);
        self.parts.clear();
        Some(Piece::Media { data: chunk::from_vec(merged), fragment_start: starts, keyframe })
    }

    /// More bytes for the run in progress.
    fn add_part(&mut self, data: Bytes)
        requires
            old(self).wf(),
        ensures
            final(self).wf(),
            final(self).piece() == appended(old(self).piece(), chunk::contents(data)),
    {
        let ghost before = self.parts@;
        self.parts.push(data);
        proof {
            assert(self.parts@.drop_last() =~= before);
            assert(before.len() == 0 ==> concat(self.parts@) =~= chunk::contents(data));
        }
    }
}

/// A run in progress with more bytes behind it.
spec fn appended(run: Option<model::PieceView>, data: Seq<u8>) -> Option<model::PieceView> {
    match run {
        None => Some(
            model::PieceView::Media { data, fragment_start: false, keyframe: false },
        ),
        Some(p) => Some(p.extended(data)),
    }
}

/// The finished pieces with the one in progress behind them.
spec fn shown(out: Seq<model::PieceView>, run: Option<model::PieceView>) -> Seq<
    model::PieceView,
> {
    match run {
        None => out,
        Some(p) => out.push(p),
    }
}

/// Whether the finished pieces and the one in progress are what the atoms
/// make, and a run is in progress where more media would join it.
spec fn in_step(
    atoms: Seq<model::Atom>,
    out: Seq<model::PieceView>,
    run: Option<model::PieceView>,
) -> bool {
    &&& model::group(atoms) == shown(out, run)
    &&& run is Some <==> atoms.len() > 0 && (atoms.last().why is Media
        || atoms.last().why is Moof)
}

/// Media bytes go into the run in progress.
proof fn lemma_media(
    atoms: Seq<model::Atom>,
    out: Seq<model::PieceView>,
    run: Option<model::PieceView>,
    data: Seq<u8>,
)
    requires
        in_step(atoms, out, run),
    ensures
        in_step(
            atoms.push(model::Atom { why: model::Reason::Media, bytes: data }),
            out,
            appended(run, data),
        ),
{
    let a = model::Atom { why: model::Reason::Media, bytes: data };
    let more = atoms.push(a);
    assert(more.drop_last() =~= atoms);
    if run is Some {
        assert(more[more.len() - 2] == atoms.last());
        assert(shown(out, run).drop_last() =~= out);
    }
}

/// A `moof` begins a new run.
proof fn lemma_moof(
    atoms: Seq<model::Atom>,
    out: Seq<model::PieceView>,
    run: Option<model::PieceView>,
    a: model::Atom,
)
    requires
        in_step(atoms, out, run),
        a.why is Moof,
    ensures
        in_step(atoms.push(a), shown(out, run), Some(a.piece())),
{
    assert(atoms.push(a).drop_last() =~= atoms);
}

/// Any other bytes begin a piece of their own, which is finished at once.
proof fn lemma_apart(
    atoms: Seq<model::Atom>,
    out: Seq<model::PieceView>,
    run: Option<model::PieceView>,
    a: model::Atom,
)
    requires
        in_step(atoms, out, run),
        atoms.len() > 0 ==> !atoms.last().joins(a),
        !(a.why is Media) && !(a.why is Moof),
    ensures
        in_step(atoms.push(a), shown(out, run).push(a.piece()), None),
{
    assert(atoms.push(a).drop_last() =~= atoms);
}

/// Whether the last atom is a byte of an init box body.
spec fn in_body(atoms: Seq<model::Atom>) -> bool {
    atoms.len() > 0 && atoms.last().why is InitBody
}

/// What a failure leaves to hand back: the broken header, then the rest of
/// the chunk, as pieces of their own.
proof fn lemma_tail(
    s: model::Scan,
    done: Seq<u8>,
    rest: Seq<u8>,
    held: Seq<u8>,
    atoms: Seq<model::Atom>,
    out: Seq<model::PieceView>,
    run: Option<model::PieceView>,
)
    requires
        in_step(atoms, out, run),
        s.run(done) == (
            model::Scan::Dead,
            atoms.push(model::Atom { why: model::Reason::Broken, bytes: held }),
        ),
    ensures
        s.run(done + rest).0 is Dead,
        ({
            let before = shown(out, run).push(
                model::PieceView::Media { data: held, fragment_start: false, keyframe: false },
            );
            model::group(s.run(done + rest).1) == if rest.len() == 0 {
                before
            } else {
                before.push(
                    model::PieceView::Media { data: rest, fragment_start: false, keyframe: false },
                )
            }
        }),
{
    let broken = model::Atom { why: model::Reason::Broken, bytes: held };
    let raw = model::Atom { why: model::Reason::Raw, bytes: rest };
    lemma_apart(atoms, out, run, broken);
    model::law_chunking_is_immaterial(s, done, rest);
    model::lemma_dead_run(rest);
    let all = atoms.push(broken);
    if rest.len() > 0 {
        model::lemma_group_singles(all, model::Reason::Raw, rest);
        lemma_apart(all, shown(out, run).push(broken.piece()), None, raw);
    } else {
        assert(all + model::singles(model::Reason::Raw, rest) =~= all);
    }
}

#[derive(Debug)]
pub struct Scanner {
    /// Partial top-level box header carried across a chunk boundary.
    header: Vec<u8>,
    /// Bytes still to come in the current box body.
    body_left: u64,
    /// True until the first `moof` is seen.
    in_init: bool,
    init: Vec<u8>,
    /// Set when the box structure stops making sense. The scanner degrades to a
    /// pass-through rather than corrupting the stream; late joiners can no
    /// longer be served, which the caller checks via `failed`.
    failed: bool,
    pending: Pending,
    /// The `moof` in progress, header included, held until it is complete.
    moof: Option<Vec<u8>>,
    /// Parsed from the init segment when the first `moof` arrives.
    tracks: Option<Tracks>,
}

impl View for Scanner {
    type V = model::Scan;

    closed spec fn view(&self) -> model::Scan {
        if self.failed {
            model::Scan::Dead
        } else {
            model::Scan::Live(self.live())
        }
    }
}

impl Scanner {
    spec fn live(self) -> model::Live {
        model::Live {
            in_init: self.in_init,
            init: self.init@,
            header: self.header@,
            left: self.body_left as int,
            moof: match self.moof {
                Some(m) => Some(m@),
                None => None,
            },
        }
    }

    /// What holds between and during pushes.
    spec fn sound(self) -> bool {
        &&& !self.failed
        &&& self.live().wf()
        &&& self.pending.wf()
        &&& self.in_init <==> self.tracks is None
        &&& self.tracks matches Some(t) ==> t@ == tracks::tracks_in(self.init@)
    }

    /// The scanner's invariant: its state is one that a stream can lead to,
    /// and no media is left over from the last push.
    pub closed spec fn wf(self) -> bool {
        !self.failed ==> self.sound() && self.pending.piece() is None
    }

    /// A scanner is in a state that scanners reach.
    pub proof fn lemma_wf(self)
        requires
            self.wf(),
        ensures
            self@.wf(),
    {
    }

    pub fn new() -> (r: Self)
        ensures
            r.wf(),
            r@ == model::fresh(),
    {
        let r = Scanner {
            header: Vec::new(),
            body_left: 0,
            in_init: true,
            init: Vec::new(),
            failed: false,
            pending: Pending { parts: Vec::new(), starts: false, keyframe: false },
            moof: None,
            tracks: None,
        };
        assert(r.live() =~= model::fresh()->Live_0);
        r
    }

    /// The cached init segment, once the first `moof` has been reached.
    pub fn init_segment(&self) -> (r: Option<Bytes>)
        requires
            self.wf(),
        ensures
            r is Some <==> self@.init_segment() is Some,
            r matches Some(b) ==> self@.init_segment() == Some(chunk::contents(b)),
    {
        if self.failed || self.in_init || self.init.len() == 0 {
            None
        } else {
            Some(Bytes::copy_from_slice(self.init.as_slice()))
        }
    }

    /// True if the byte stream did not parse as fragmented MP4. Late joiners
    /// cannot be served safely once this is set.
    pub fn failed(&self) -> (r: bool)
        ensures
            r == (self@ is Dead),
    {
        self.failed
    }

    /// Split one chunk of ffmpeg output into structure-aligned pieces.
    ///
    /// The concatenation of the returned pieces always equals `chunk`, minus
    /// at most a box header held back until it is complete enough to identify
    /// and a `moof` held back until its sample flags can be read. Nothing else
    /// is ever buffered across calls, and a `moof` is small and immediately
    /// followed by its `mdat`, so neither costs measurable latency.
    pub fn push(&mut self, chunk: Bytes) -> (r: Vec<Piece>)
        requires
            old(self).wf(),
        ensures
            final(self).wf(),
            final(self)@ == old(self)@.run(chunk::contents(chunk)).0,
            old(self)@ is Live ==> piece_views(r@) == model::group(
                old(self)@.run(chunk::contents(chunk)).1,
            ),
            old(self)@ is Dead ==> piece_views(r@) == seq![
                model::PieceView::Media {
                    data: chunk::contents(chunk),
                    fragment_start: false,
                    keyframe: false,
                },
            ],
            model::joined(piece_views(r@)) + final(self)@.held() == old(self)@.held()
                + chunk::contents(chunk),
    {
        let ghost s = self@;
        let ghost all = chunk::contents(chunk);
        let mut out: Vec<Piece> = Vec::new();
        if self.failed {
            let piece = Piece::Media { data: chunk, fragment_start: false, keyframe: false };
            out.push(piece);
            proof {
                model::lemma_dead_run(all);
                assert(piece_views(out@) =~= seq![piece@]);
                assert(piece_views(out@).drop_last() =~= Seq::empty());
                reveal_with_fuel(model::joined, 2);
                assert(model::joined(piece_views(out@)) =~= all);
            }
            return out;
        }
        let bytes: &[u8] = chunk::as_slice(&chunk);
        let n: usize = bytes.len();
        let mut i: usize = 0;
        proof {
            assert(all.take(0) =~= Seq::empty());
            assert(piece_views(out@) =~= Seq::empty());
        }
        while i < n
            invariant
                i <= n,
                n == all.len(),
                bytes@ == all,
                all == chunk::contents(chunk),
                s.wf(),
                self.follows(s, all.take(i as int), out@),
                i < n && self.body_left > 0 && self.moof is None ==> !in_body(
                    s.run(all.take(i as int)).1,
                ),
                s == old(self)@,
                s is Live,
            decreases n - i,
        {
            let ghost done = all.take(i as int);
            if self.body_left > 0 {
                // Inside a box body: pass bytes straight through, or hold a moof.
                let take: usize = if self.body_left < (n - i) as u64 {
                    self.body_left as usize
                } else {
                    n - i
                };
                let data = chunk::slice(&chunk, i, i + take);
                assert(done + chunk::contents(data) =~= all.take(i + take));
                self.body(&mut out, data, Ghost(s), Ghost(done));
                i = i + take;
            } else {
                // At a box boundary: accumulate a header.
                let b: u8 = bytes[i];
                assert(done.push(b) =~= all.take(i + 1));
                i = i + 1;
                if self.boundary(&mut out, b, Ghost(s), Ghost(done)) {
                    proof {
                        let rest = all.skip(i as int);
                        lemma_tail(s, done.push(b), rest, self.header@, s.run(done).1,
                            piece_views(out@), self.pending.piece());
                        assert(done.push(b) + rest =~= all);
                        model::law_lossless(s, all);
                    }
                    self.give_up(&mut out, &chunk, i);
                    return out;
                }
            }
        }
        proof {
            assert(all.take(i as int) =~= all);
            model::law_lossless(s, all);
        }
        self.flush(&mut out);
        out
    }

    /// Whether this scanner and the pieces so far are where reading `done`
    /// from state `s` leads.
    spec fn follows(self, s: model::Scan, done: Seq<u8>, out: Seq<Piece>) -> bool {
        &&& self.sound()
        &&& self@ == s.run(done).0
        &&& in_step(s.run(done).1, piece_views(out), self.pending.piece())
    }

    /// Bytes of the current box body.
    fn body(
        &mut self,
        out: &mut Vec<Piece>,
        data: Bytes,
        Ghost(s): Ghost<model::Scan>,
        Ghost(done): Ghost<Seq<u8>>,
    )
        requires
            s.wf(),
            old(self).follows(s, done, old(out)@),
            0 < chunk::contents(data).len() <= old(self).body_left,
            old(self).moof is None ==> !in_body(s.run(done).1),
        ensures
            final(self).follows(s, done + chunk::contents(data), final(out)@),
            final(self).body_left == old(self).body_left - chunk::contents(data).len(),
    {
        let ghost here = s.run(done);
        let ghost l = self.live();
        let ghost part = chunk::contents(data);
        proof {
            model::law_chunking_is_immaterial(s, done, part);
            model::lemma_body_run(l, part);
            model::lemma_run_wf(s, done + part);
        }
        self.body_left = self.body_left - data.len() as u64;
        match self.moof.take() {
            Some(m) => {
                let mut m = m;
                let ghost m0 = m@;
                m.extend_from_slice(chunk::as_slice(&data));
                assert(m@ =~= m0 + part);
                self.moof = Some(m);
                if self.body_left == 0 {
                    proof {
                        let a = l.hold(m@, 0).1[0];
                        lemma_moof(here.1, piece_views(out@), self.pending.piece(), a);
                        assert(here.1 + l.hold(m@, 0).1 =~= here.1.push(a));
                    }
                    self.finish_moof(out);
                    assert(self.live() =~= l.hold(m@, 0).0->Live_0);
                } else {
                    assert(here.1 + l.hold(m@, self.body_left as int).1 =~= here.1);
                    assert(self.live() =~= l.hold(m@, self.body_left as int).0->Live_0);
                }
            },
            None => {
                let ghost why = l.pass(part, false, 0).1[0].why;
                proof {
                    let a = model::Atom { why, bytes: part };
                    model::lemma_group_singles(here.1, why, part);
                    assert((here.1 + model::singles(why, part)).last().why == why);
                    if l.in_init {
                        lemma_apart(here.1, piece_views(out@), self.pending.piece(), a);
                    } else {
                        lemma_media(here.1, piece_views(out@), self.pending.piece(), part);
                    }
                }
                self.emit(out, data);
                assert(self.live() =~= l.pass(part, false, self.body_left as int).0->Live_0);
            },
        }
    }

    /// One more byte of a box header. True if the header is whole and does
    /// not make sense; it is still at hand then.
    fn boundary(
        &mut self,
        out: &mut Vec<Piece>,
        b: u8,
        Ghost(s): Ghost<model::Scan>,
        Ghost(done): Ghost<Seq<u8>>,
    ) -> (r: bool)
        requires
            s.wf(),
            old(self).follows(s, done, old(out)@),
            old(self).body_left == 0,
        ensures
            !r ==> final(self).follows(s, done.push(b), final(out)@),
            !r && final(self).body_left > 0 && final(self).moof is None ==> !in_body(
                s.run(done.push(b)).1,
            ),
            r ==> {
                &&& piece_views(final(out)@) == piece_views(old(out)@)
                &&& final(self).pending.piece() == old(self).pending.piece()
                &&& s.run(done.push(b)) == (
                    model::Scan::Dead,
                    s.run(done).1.push(
                        model::Atom { why: model::Reason::Broken, bytes: final(self).header@ },
                    ),
                )
            },
    {
        let ghost here = s.run(done);
        let ghost l = self.live();
        let ghost h = l.header.push(b);
        proof {
            model::lemma_run_push(s, done, b);
            model::lemma_run_wf(s, done.push(b));
        }
        self.header.push(b);
        assert(self.header@ =~= h);
        let have: usize = self.header.len();
        let whole: bool = if have < boxes::SHORT_HEADER {
            false
        } else if boxes::be32_at(self.header.as_slice(), 0) == 1 {
            have == boxes::LONG_HEADER
        } else {
            have == boxes::SHORT_HEADER
        };
        assert(whole == model::whole_header(h));
        if !whole {
            assert(here.1 + l.step(b).1 =~= here.1);
            return false;
        }
        assert(l.step(b) == l.open_box(h));
        assert(self.live().open_box(h) == l.open_box(h));
        if self.breaks() {
            assert(here.1 + l.step(b).1 =~= here.1.push(
                model::Atom { why: model::Reason::Broken, bytes: h },
            ));
            return true;
        }
        let ghost out0 = piece_views(out@);
        let ghost run0 = self.pending.piece();
        self.open_box(out);
        proof {
            let more = l.open_box(h).1;
            if more.len() == 0 {
                assert(here.1 + more =~= here.1);
            } else {
                assert(here.1 + more =~= here.1.push(more[0]));
                if more[0].why is Media {
                    lemma_media(here.1, out0, run0, h);
                } else if more[0].why is Moof {
                    lemma_moof(here.1, out0, run0, more[0]);
                } else {
                    lemma_apart(here.1, out0, run0, more[0]);
                }
            }
        }
        false
    }

    /// Whether the whole header at hand stops making sense here.
    fn breaks(&self) -> (r: bool)
        requires
            model::whole_header(self.header@),
        ensures
            r == self.live().breaks(self.header@),
    {
        let h = self.header.as_slice();
        let size32: u32 = boxes::be32_at(h, 0);
        if size32 == 0 {
            // "Extends to end of file" is never valid in a live fragmented
            // stream, and it would blind the scanner to every later box.
            return true;
        }
        let total: u64 = self.claimed();
        if total < h.len() as u64 {
            return true;
        }
        let kind: u32 = boxes::be32_at(h, 4);
        // A well-formed fMP4 stream opens with ftyp (or styp/moof if we
        // somehow attached mid-stream).
        if self.in_init && self.init.len() == 0 && kind != model::FTYP && kind != model::STYP
            && kind != model::MOOF {
            return true;
        }
        kind == model::MOOF && total > model::MAX_MOOF
    }

    /// The length that the whole header at hand claims.
    fn claimed(&self) -> (r: u64)
        requires
            model::whole_header(self.header@),
        ensures
            r == model::claimed(self.header@),
    {
        let h = self.header.as_slice();
        let size32: u32 = boxes::be32_at(h, 0);
        if size32 == 1 {
            boxes::be64_at(h, 8)
        } else {
            size32 as u64
        }
    }

    /// The header at hand is whole and makes sense: enter its box.
    fn open_box(&mut self, out: &mut Vec<Piece>)
        requires
            model::whole_header(old(self).header@),
            !old(self).live().breaks(old(self).header@),
            !old(self).failed,
            old(self).pending.wf(),
            old(self).moof is None,
            old(self).in_init <==> old(self).tracks is None,
            old(self).tracks matches Some(t) ==> t@ == tracks::tracks_in(old(self).init@),
        ensures
            !final(self).failed,
            final(self).pending.wf(),
            final(self).in_init <==> final(self).tracks is None,
            final(self).tracks matches Some(t) ==> t@ == tracks::tracks_in(final(self).init@),
            old(self).live().open_box(old(self).header@).0 == model::Scan::Live(
                final(self).live(),
            ),
            ({
                let atoms = old(self).live().open_box(old(self).header@).1;
                &&& atoms.len() == 0 ==> piece_views(final(out)@) == piece_views(old(out)@)
                    && final(self).pending.piece() == old(self).pending.piece()
                &&& atoms.len() == 1 && atoms[0].why is InitHeader ==> piece_views(final(out)@)
                    == shown(piece_views(old(out)@), old(self).pending.piece()).push(
                    atoms[0].piece(),
                ) && final(self).pending.piece() is None
                &&& atoms.len() == 1 && atoms[0].why is Media ==> piece_views(final(out)@)
                    == piece_views(old(out)@) && final(self).pending.piece() == appended(
                    old(self).pending.piece(),
                    atoms[0].bytes,
                )
                &&& atoms.len() == 1 && atoms[0].why is Moof ==> piece_views(final(out)@) == shown(
                    piece_views(old(out)@),
                    old(self).pending.piece(),
                ) && final(self).pending.piece() == Some(atoms[0].piece())
            }),
    {
        let ghost l = self.live();
        let ghost h = self.header@;
        let kind: u32 = boxes::be32_at(self.header.as_slice(), 4);
        self.body_left = self.claimed() - self.header.len() as u64;
        let mut header: Vec<u8> = Vec::new();
        std::mem::swap(&mut header, &mut self.header);
        if kind == model::MOOF {
            self.in_init = false;
            if self.tracks.is_none() {
                self.tracks = Some(Tracks::parse(self.init.as_slice()));
            }
            self.moof = Some(header);
            if self.body_left == 0 {
                self.finish_moof(out);
            }
        } else {
            self.emit(out, Bytes::copy_from_slice(header.as_slice()));
        }
        assert(self.live() =~= l.open_box(h).0->Live_0);
    }

    /// The held `moof` is complete: close any run in progress, read the
    /// moof's flags and start the fragment's run.
    fn finish_moof(&mut self, out: &mut Vec<Piece>)
        requires
            old(self).moof is Some,
            old(self).tracks is Some,
            old(self).tracks->0@ == tracks::tracks_in(old(self).init@),
        ensures
            final(self).moof is None,
            final(self).pending.wf(),
            final(self).header == old(self).header,
            final(self).body_left == old(self).body_left,
            final(self).in_init == old(self).in_init,
            final(self).init == old(self).init,
            final(self).failed == old(self).failed,
            final(self).tracks == old(self).tracks,
            final(self).pending.piece() == Some(
                model::PieceView::Media {
                    data: old(self).moof->0@,
                    fragment_start: true,
                    keyframe: tracks::tracks_in(old(self).init@).keyframe_fragment(
                        old(self).moof->0@,
                    ),
                },
            ),
            piece_views(final(out)@) == shown(
                piece_views(old(out)@),
                old(self).pending.piece(),
            ),
    {
        self.flush(out);
        match self.moof.take() {
            Some(moof) => {
                let keyframe: bool = match &self.tracks {
                    Some(t) => t.keyframe_fragment(moof.as_slice()),
                    None => true,
                };
                self.pending.add_part(chunk::from_vec(moof));
                self.pending.starts = true;
                self.pending.keyframe = keyframe;
            },
            None => {},
        }
    }

    /// Close the run in progress, if there is one.
    fn flush(&mut self, out: &mut Vec<Piece>)
        ensures
            final(self).pending.piece() is None,
            final(self).pending.wf(),
            final(self).moof == old(self).moof,
            final(self).header == old(self).header,
            final(self).body_left == old(self).body_left,
            final(self).in_init == old(self).in_init,
            final(self).init == old(self).init,
            final(self).failed == old(self).failed,
            final(self).tracks == old(self).tracks,
            piece_views(final(out)@) == shown(
                piece_views(old(out)@),
                old(self).pending.piece(),
            ),
    {
        let ghost before = piece_views(out@);
        match self.pending.take() {
            Some(p) => {
                out.push(p);
                assert(piece_views(out@) =~= before.push(p@));
            },
            None => {},
        }
    }

    /// Hand on bytes that pass straight through.
    fn emit(&mut self, out: &mut Vec<Piece>, data: Bytes)
        requires
            old(self).pending.wf(),
            chunk::contents(data).len() > 0,
        ensures
            final(self).pending.wf(),
            final(self).header == old(self).header,
            final(self).body_left == old(self).body_left,
            final(self).in_init == old(self).in_init,
            final(self).failed == old(self).failed,
            final(self).tracks == old(self).tracks,
            final(self).moof == old(self).moof,
            old(self).in_init ==> {
                &&& final(self).init@ == old(self).init@ + chunk::contents(data)
                &&& piece_views(final(out)@) == shown(
                    piece_views(old(out)@),
                    old(self).pending.piece(),
                ).push(model::PieceView::Init(chunk::contents(data)))
                &&& final(self).pending.piece() is None
            },
            !old(self).in_init ==> {
                &&& final(self).init == old(self).init
                &&& piece_views(final(out)@) == piece_views(old(out)@)
                &&& final(self).pending.piece() == appended(
                    old(self).pending.piece(),
                    chunk::contents(data),
                )
            },
    {
        if self.in_init {
            self.flush(out);
            let ghost before = piece_views(out@);
            let ghost init0 = self.init@;
            self.init.extend_from_slice(chunk::as_slice(&data));
            let piece = Piece::Init(data);
            out.push(piece);
            proof {
                assert(self.init@ =~= init0 + chunk::contents(data));
                assert(piece_views(out@) =~= before.push(piece@));
            }
            return;
        }
        self.pending.add_part(data);
    }

    /// After a structural failure, hand back everything still unconsumed,
    /// held-back header bytes included, so the stream itself stays intact.
    fn give_up(&mut self, out: &mut Vec<Piece>, chunk: &Bytes, i: usize)
        requires
            i <= chunk::contents(*chunk).len(),
        ensures
            final(self)@ is Dead,
            final(self).wf(),
            ({
                let rest = chunk::contents(*chunk).skip(i as int);
                let before = shown(piece_views(old(out)@), old(self).pending.piece()).push(
                    model::PieceView::Media {
                        data: old(self).header@,
                        fragment_start: false,
                        keyframe: false,
                    },
                );
                piece_views(final(out)@) == if rest.len() == 0 {
                    before
                } else {
                    before.push(
                        model::PieceView::Media {
                            data: rest,
                            fragment_start: false,
                            keyframe: false,
                        },
                    )
                }
            }),
    {
        self.failed = true;
        self.in_init = false;
        // A partial init segment is worse than none: serving it to a late joiner
        // would produce a stream the client cannot decode.
        self.init.clear();
        self.flush(out);
        let ghost views0 = piece_views(out@);
        let mut header: Vec<u8> = Vec::new();
        std::mem::swap(&mut header, &mut self.header);
        let held = Piece::Media {
            data: chunk::from_vec(header),
            fragment_start: false,
            keyframe: false,
        };
        out.push(held);
        assert(piece_views(out@) =~= views0.push(held@));
        if i < chunk.len() {
            let rest = Piece::Media {
                data: chunk::slice(chunk, i, chunk.len()),
                fragment_start: false,
                keyframe: false,
            };
            let ghost views1 = piece_views(out@);
            out.push(rest);
            proof {
                assert(piece_views(out@) =~= views1.push(rest@));
                assert(chunk::contents(*chunk).skip(i as int) =~= rest@.data());
            }
        }
    }
}

} // verus!
