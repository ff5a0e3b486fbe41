//! Boxes and their fields as a file lays them out: what is written that way is
//! read back.
use super::boxes;
use super::boxes::BoxView;
use super::model;
use super::tracks;
use super::tracks::{TracksView, TrafView};
use vstd::prelude::*;

verus! {

/// A number in four bytes, the highest first.
pub open spec fn bytes4(n: int) -> Seq<u8> {
    seq![
        (n / 0x100_0000) as u8,
        (n / 0x1_0000 % 256) as u8,
        (n / 0x100 % 256) as u8,
        (n % 256) as u8,
    ]
}

/// Four bytes are read back as the number that they were written for, wherever
/// they stand, and not where one of them is missing.
pub proof fn law_a_number_is_read_back(a: Seq<u8>, n: u32, b: Seq<u8>)
    ensures
        boxes::be32(a + bytes4(n as int) + b, a.len() as int) == n,
        boxes::u32_in(a + bytes4(n as int) + b, a.len() as int) == Some(n),
        b.len() < 4 ==> boxes::u32_in(a + b, a.len() as int) is None,
{
    let s = a + bytes4(n as int) + b;
    let at = a.len() as int;
    let f = bytes4(n as int);
    assert(s[at] == f[0] && s[at + 1] == f[1] && s[at + 2] == f[2] && s[at + 3] == f[3]);
    lemma_bytes4(n as int);
}

proof fn lemma_bytes4(n: int)
    requires
        0 <= n < 0x1_0000_0000,
    ensures
        bytes4(n)[0] * 0x100_0000 + bytes4(n)[1] * 0x1_0000 + bytes4(n)[2] * 0x100 + bytes4(n)[3]
            == n,
{
    let a = n / 0x100_0000;
    let b = n / 0x1_0000;
    let c = n / 0x100;
    vstd::arithmetic::div_mod::lemma_div_denominator(n, 0x100, 256);
    vstd::arithmetic::div_mod::lemma_div_denominator(n, 0x1_0000, 256);
    assert(c / 256 == b && b / 256 == a);
}

/// The four bytes at `at` are a number that was written there.
proof fn lemma_at(s: Seq<u8>, at: int, n: int)
    requires
        0 <= n < 0x1_0000_0000,
        0 <= at,
        at + 4 <= s.len(),
        s.subrange(at, at + 4) == bytes4(n),
    ensures
        boxes::be32(s, at) == n,
        boxes::u32_in(s, at) == Some(n as u32),
{
    let f = s.subrange(at, at + 4);
    assert(s[at] == f[0] && s[at + 1] == f[1] && s[at + 2] == f[2] && s[at + 3] == f[3]);
    lemma_bytes4(n);
}

/// A box: its size, its type, its body. A long one has a one in place of the
/// size, and the size in eight bytes behind the type.
pub open spec fn written(b: BoxView, long: bool) -> Seq<u8> {
    if long {
        bytes4(1) + bytes4(b.kind as int) + bytes4(0) + bytes4(16 + b.body.len() as int) + b.body
    } else {
        bytes4(8 + b.body.len() as int) + bytes4(b.kind as int) + b.body
    }
}

/// Whether its size can be written.
pub open spec fn writable(b: BoxView) -> bool {
    16 + b.body.len() < 0x1_0000_0000
}

/// Boxes one after the other, short or long.
pub open spec fn packed(bs: Seq<(BoxView, bool)>) -> Seq<u8>
    decreases bs.len(),
{
    if bs.len() == 0 {
        Seq::empty()
    } else {
        written(bs[0].0, bs[0].1) + packed(bs.skip(1))
    }
}

#[verifier::rlimit(50)]
proof fn lemma_written(a: Seq<u8>, b: BoxView, long: bool, rest: Seq<u8>)
    requires
        writable(b),
    ensures
        ({
            let s = a + written(b, long) + rest;
            let at = a.len() as int;
            &&& boxes::fits(s, at)
            &&& boxes::total_len(s, at) == written(b, long).len()
            &&& boxes::box_at(s, at) == b
        }),
{
    let w = written(b, long);
    let s = a + w + rest;
    let at = a.len() as int;
    let n = b.body.len() as int;
    assert(s.subrange(at + 4, at + 8) =~= bytes4(b.kind as int));
    lemma_at(s, at + 4, b.kind as int);
    if long {
        assert(s.subrange(at, at + 4) =~= bytes4(1));
        assert(s.subrange(at + 8, at + 12) =~= bytes4(0));
        assert(s.subrange(at + 12, at + 16) =~= bytes4(16 + n));
        lemma_at(s, at, 1);
        lemma_at(s, at + 8, 0);
        lemma_at(s, at + 12, 16 + n);
        assert(boxes::be64(s, at + 8) == 16 + n);
        assert(s.subrange(at + 16, at + 16 + n) =~= b.body);
    } else {
        assert(s.subrange(at, at + 4) =~= bytes4(8 + n));
        lemma_at(s, at, 8 + n);
        assert(s.subrange(at + 8, at + 8 + n) =~= b.body);
    }
}

#[verifier::rlimit(50)]
proof fn lemma_packed(a: Seq<u8>, bs: Seq<(BoxView, bool)>, rest: Seq<u8>)
    requires
        forall|i: int| 0 <= i < bs.len() ==> writable((#[trigger] bs[i]).0),
        rest.len() < 8,
    ensures
        boxes::boxes_from(a + packed(bs) + rest, a.len() as int) == bs.map_values(
            |b: (BoxView, bool)| b.0,
        ),
    decreases bs.len(),
{
    let s = a + packed(bs) + rest;
    let at = a.len() as int;
    let want = bs.map_values(|b: (BoxView, bool)| b.0);
    if bs.len() == 0 {
        assert(boxes::boxes_from(s, at) =~= want);
    } else {
        let (b, long) = bs[0];
        let w = written(b, long);
        let more = bs.skip(1);
        assert(forall|i: int| 0 <= i < more.len() ==> more[i] == bs[i + 1]);
        lemma_packed(a + w, more, rest);
        lemma_written(a, b, long, packed(more) + rest);
        assert(s =~= a + w + (packed(more) + rest));
        assert(s =~= (a + w) + packed(more) + rest);
        assert(more.map_values(|b: (BoxView, bool)| b.0) =~= want.skip(1));
        assert(seq![b] + want.skip(1) =~= want);
    }
}

/// Boxes that were packed are read back, in order; less than a header behind
/// them is no box.
pub proof fn law_packed_boxes_are_read_back(bs: Seq<(BoxView, bool)>, rest: Seq<u8>)
    requires
        forall|i: int| 0 <= i < bs.len() ==> writable((#[trigger] bs[i]).0),
        rest.len() < 8,
    ensures
        boxes::boxes_in(packed(bs) + rest) == bs.map_values(|b: (BoxView, bool)| b.0),
{
    lemma_packed(Seq::empty(), bs, rest);
    assert(Seq::<u8>::empty() + packed(bs) + rest =~= packed(bs) + rest);
}

/// A size of zero reaches to the end.
pub proof fn law_a_size_of_zero_reaches_to_the_end(kind: u32, body: Seq<u8>)
    ensures
        boxes::boxes_in(bytes4(0) + bytes4(kind as int) + body) == seq![BoxView { kind, body }],
{
    let s = bytes4(0) + bytes4(kind as int) + body;
    assert(s.subrange(0, 4) =~= bytes4(0));
    assert(s.subrange(4, 8) =~= bytes4(kind as int));
    lemma_at(s, 0, 0);
    lemma_at(s, 4, kind as int);
    assert(s.subrange(8, s.len() as int) =~= body);
    assert(boxes::boxes_from(s, s.len() as int) =~= Seq::empty());
    assert(boxes::boxes_in(s) =~= seq![BoxView { kind, body }]);
}

/// A box that claims more than is there, or less than its own header, ends the
/// list.
pub proof fn law_a_box_that_does_not_fit_ends_the_list(size: u32, rest: Seq<u8>)
    requires
        size != 1,
        size != 0,
        size < 8 || size > 4 + rest.len(),
    ensures
        boxes::boxes_in(bytes4(size as int) + rest).len() == 0,
{
    let s = bytes4(size as int) + rest;
    assert(s.subrange(0, 4) =~= bytes4(size as int));
    lemma_at(s, 0, size as int);
}

/// Four optional bytes.
pub open spec fn option4(v: Option<u32>) -> Seq<u8> {
    match v {
        Some(n) => bytes4(n as int),
        None => Seq::empty(),
    }
}

pub open spec fn weight(present: bool, w: int) -> int {
    if present {
        w
    } else {
        0
    }
}

/// A track fragment header: which optional fields it has, its flags say, and
/// they stand in this order.
pub struct Tfhd {
    pub track: u32,
    pub base_data_offset: Option<(u32, u32)>,
    pub sample_description: Option<u32>,
    pub default_duration: Option<u32>,
    pub default_size: Option<u32>,
    pub default_flags: Option<u32>,
    pub duration_is_empty: bool,
    pub base_is_moof: bool,
}

impl Tfhd {
    pub open spec fn flags(self) -> int {
        weight(self.base_data_offset is Some, 0x01) + weight(self.sample_description is Some, 0x02)
            + weight(self.default_duration is Some, 0x08) + weight(
            self.default_size is Some,
            0x10,
        ) + weight(self.default_flags is Some, 0x20) + weight(self.duration_is_empty, 0x1_0000)
            + weight(self.base_is_moof, 0x2_0000)
    }

    /// Its fields before the default flags.
    pub open spec fn front(self) -> Seq<u8> {
        bytes4(self.flags()) + bytes4(self.track as int) + (match self.base_data_offset {
            Some((high, low)) => bytes4(high as int) + bytes4(low as int),
            None => Seq::empty(),
        }) + option4(self.sample_description) + option4(self.default_duration) + option4(
            self.default_size,
        )
    }

    pub open spec fn body(self) -> Seq<u8> {
        self.front() + option4(self.default_flags)
    }
}

proof fn lemma_tfhd_front(h: Tfhd)
    ensures
        h.front().len() == 8 + weight(h.base_data_offset is Some, 8) + weight(
            h.sample_description is Some,
            4,
        ) + weight(h.default_duration is Some, 4) + weight(h.default_size is Some, 4),
        h.front().subrange(0, 4) == bytes4(h.flags()),
        h.front().subrange(4, 8) == bytes4(h.track as int),
{
    assert(h.front().subrange(0, 4) =~= bytes4(h.flags()));
    assert(h.front().subrange(4, 8) =~= bytes4(h.track as int));
}

proof fn lemma_tfhd_bits(h: Tfhd)
    ensures
        ({
            let f = h.flags() as u32;
            &&& f == h.flags()
            &&& 0 <= h.flags() < 0x100_0000
            &&& tracks::bit(f, 0x01) == h.base_data_offset is Some
            &&& tracks::bit(f, 0x02) == h.sample_description is Some
            &&& tracks::bit(f, 0x08) == h.default_duration is Some
            &&& tracks::bit(f, 0x10) == h.default_size is Some
            &&& tracks::bit(f, 0x20) == h.default_flags is Some
        }),
{
}

/// The track and the default sample flags of a fragment are read back from its
/// header, whichever other fields that has; without flags of its own it leaves
/// what was known.
#[verifier::rlimit(50)]
pub proof fn law_the_default_flags_are_read_back(h: Tfhd, rest: Seq<u8>, t: TrafView)
    ensures
        tracks::traf_step(t, BoxView { kind: 0x7466_6864, body: h.body() + rest }) == Some(
            TrafView {
                track: Some(h.track),
                tfhd: if h.default_flags is Some {
                    h.default_flags
                } else {
                    t.tfhd
                },
                ..t
            },
        ),
{
    let b = h.body() + rest;
    let front = h.front();
    lemma_tfhd_bits(h);
    lemma_tfhd_front(h);
    assert(b.subrange(0, 4) =~= front.subrange(0, 4));
    assert(b.subrange(4, 8) =~= front.subrange(4, 8));
    lemma_at(b, 0, h.flags());
    lemma_at(b, 4, h.track as int);
    assert(tracks::box_flags(b) == h.flags());
    if let Some(f) = h.default_flags {
        assert(b =~= front + bytes4(f as int) + rest);
        law_a_number_is_read_back(front, f, rest);
        assert(tracks::tfhd_flags_at(h.flags() as u32) == front.len());
    }
}

/// A run of samples: the fields of its first sample, and the bytes of the
/// others.
pub struct Trun {
    pub count: u32,
    pub data_offset: Option<u32>,
    pub first_flags: Option<u32>,
    pub duration: Option<u32>,
    pub size: Option<u32>,
    pub flags: Option<u32>,
    pub composition: Option<u32>,
    pub others: Seq<u8>,
}

impl Trun {
    pub open spec fn flag_word(self) -> int {
        weight(self.data_offset is Some, 0x01) + weight(self.first_flags is Some, 0x04) + weight(
            self.duration is Some,
            0x100,
        ) + weight(self.size is Some, 0x200) + weight(self.flags is Some, 0x400) + weight(
            self.composition is Some,
            0x800,
        )
    }

    /// Its fields before those of the first sample.
    pub open spec fn front(self) -> Seq<u8> {
        bytes4(self.flag_word()) + bytes4(self.count as int) + option4(self.data_offset)
    }

    /// The fields of its first sample before its flags.
    pub open spec fn lead(self) -> Seq<u8> {
        option4(self.duration) + option4(self.size)
    }

    pub open spec fn body(self) -> Seq<u8> {
        self.front() + option4(self.first_flags) + (if self.count == 0 {
            Seq::empty()
        } else {
            self.lead() + option4(self.flags) + option4(self.composition)
        }) + self.others
    }

    /// The flags that it gives its first sample: those for the first alone, or
    /// else the sample's own.
    pub open spec fn says(self) -> Option<u32> {
        if self.first_flags is Some {
            self.first_flags
        } else if self.count > 0 {
            self.flags
        } else {
            None
        }
    }
}

proof fn lemma_trun_bits(r: Trun)
    ensures
        ({
            let f = r.flag_word() as u32;
            &&& f == r.flag_word()
            &&& 0 <= r.flag_word() < 0x100_0000
            &&& tracks::bit(f, 0x01) == r.data_offset is Some
            &&& tracks::bit(f, 0x04) == r.first_flags is Some
            &&& tracks::bit(f, 0x100) == r.duration is Some
            &&& tracks::bit(f, 0x200) == r.size is Some
            &&& tracks::bit(f, 0x400) == r.flags is Some
        }),
{
}

/// The flags that a run gives its first sample are read back, whichever other
/// fields it has.
#[verifier::rlimit(50)]
pub proof fn law_the_flags_of_a_run_are_read_back(r: Trun)
    ensures
        tracks::trun_first_flags(r.body()) == r.says(),
        r.body().len() >= 8,
        boxes::be32(r.body(), 4) == r.count,
{
    let b = r.body();
    let front = r.front();
    lemma_trun_bits(r);
    lemma_trun_front(r);
    assert(b.subrange(0, 4) =~= front.subrange(0, 4));
    assert(b.subrange(4, 8) =~= front.subrange(4, 8));
    lemma_at(b, 0, r.flag_word());
    lemma_at(b, 4, r.count as int);
    assert(tracks::box_flags(b) == r.flag_word());
    if let Some(f) = r.first_flags {
        let rest = b.skip(front.len() as int + 4);
        assert(b =~= front + bytes4(f as int) + rest);
        law_a_number_is_read_back(front, f, rest);
    } else if r.count > 0 {
        if let Some(f) = r.flags {
            let before = front + r.lead();
            let rest = option4(r.composition) + r.others;
            assert(b =~= before + bytes4(f as int) + rest);
            law_a_number_is_read_back(before, f, rest);
        }
    }
}

proof fn lemma_trun_front(r: Trun)
    ensures
        r.front().len() == 8 + weight(r.data_offset is Some, 4),
        r.lead().len() == weight(r.duration is Some, 4) + weight(r.size is Some, 4),
        r.front().subrange(0, 4) == bytes4(r.flag_word()),
        r.front().subrange(4, 8) == bytes4(r.count as int),
{
    assert(r.front().subrange(0, 4) =~= bytes4(r.flag_word()));
    assert(r.front().subrange(4, 8) =~= bytes4(r.count as int));
}

/// Once the run with the first sample has been read, no other run counts.
proof fn lemma_begun(t: TrafView, bs: Seq<BoxView>, more: Seq<BoxView>)
    requires
        tracks::traf_of(bs) == Some(t),
        t.begun,
        forall|i: int| 0 <= i < more.len() ==> (#[trigger] more[i]).kind != 0x7466_6864,
    ensures
        tracks::traf_of(bs + more) == Some(t),
    decreases more.len(),
{
    if more.len() == 0 {
        assert(bs + more =~= bs);
    } else {
        assert((bs + more).drop_last() =~= bs + more.drop_last());
        assert((bs + more).last() == more.last());
        lemma_begun(t, bs, more.drop_last());
    }
}

/// Whether sample flags say that a sample is a sync sample: the bit of weight
/// 65536 is clear.
pub open spec fn sync(flags: int) -> bool {
    flags / 0x1_0000 % 2 == 0
}

/// A track fragment belongs to the track that its header names, and begins on
/// a sync sample exactly if the flags of that sample say so: those that the
/// first run with samples gives, else the default of the fragment, else that
/// of the track. Without any it does not. Runs behind the first, and boxes of
/// other kinds, make no difference.
#[verifier::rlimit(50)]
pub proof fn law_a_fragment_begins_as_its_first_sample_does(
    ts: TracksView,
    h: Tfhd,
    r: Trun,
    more: Seq<(BoxView, bool)>,
    rest: Seq<u8>,
)
    requires
        r.count > 0,
        writable(BoxView { kind: 0x7472_756E, body: r.body() }),
        rest.len() < 8,
        forall|i: int|
            #![trigger more[i]]
            0 <= i < more.len() ==> writable(more[i].0) && more[i].0.kind != 0x7466_6864,
    ensures
        ({
            let tfhd = BoxView { kind: 0x7466_6864, body: h.body() };
            let trun = BoxView { kind: 0x7472_756E, body: r.body() };
            let traf = packed(seq![(tfhd, false), (trun, false)] + more) + rest;
            ts.first_sample(traf) == Some(
                (
                    h.track,
                    if r.says() is Some {
                        sync(r.says()->0 as int)
                    } else if h.default_flags is Some {
                        sync(h.default_flags->0 as int)
                    } else if ts.defaults.contains_key(h.track) {
                        sync(ts.defaults[h.track] as int)
                    } else {
                        false
                    },
                ),
            )
        }),
{
    let tfhd = BoxView { kind: 0x7466_6864, body: h.body() };
    let trun = BoxView { kind: 0x7472_756E, body: r.body() };
    let first = seq![(tfhd, false), (trun, false)];
    let bs = first + more;
    lemma_tfhd_front(h);
    assert(h.body().len() <= 32);
    assert forall|i: int| 0 <= i < bs.len() implies writable((#[trigger] bs[i]).0) by {
        if i >= 2 {
            assert(bs[i] == more[i - 2]);
        }
    }
    law_packed_boxes_are_read_back(bs, rest);
    let views = bs.map_values(|b: (BoxView, bool)| b.0);
    let two = seq![tfhd, trun];
    let others = more.map_values(|b: (BoxView, bool)| b.0);
    assert(views =~= two + others);
    let none = TrafView { track: None, tfhd: None, trun: None, begun: false };
    law_the_default_flags_are_read_back(h, Seq::empty(), none);
    assert(h.body() + Seq::<u8>::empty() =~= h.body());
    law_the_flags_of_a_run_are_read_back(r);
    reveal_with_fuel(tracks::traf_of, 3);
    assert(two.drop_last() =~= seq![tfhd]);
    assert(two.drop_last().drop_last() =~= Seq::empty());
    let t = TrafView {
        track: Some(h.track),
        tfhd: h.default_flags,
        trun: r.says(),
        begun: true,
    };
    assert(tracks::traf_of(two) == Some(t));
    lemma_begun(t, two, others);
}

/// A track header, of the version with wide times or not.
pub open spec fn tkhd(wide: bool, flags: Seq<u8>, times: Seq<u8>, id: u32, rest: Seq<u8>) -> Seq<
    u8,
> {
    seq![
        if wide {
            1u8
        } else {
            0u8
        },
    ] + flags + times + bytes4(id as int) + rest
}

/// A handler box: version and flags, four bytes of nothing, the handler.
pub open spec fn hdlr(head: Seq<u8>, handler: u32, rest: Seq<u8>) -> Seq<u8> {
    head + bytes4(handler as int) + rest
}

/// A track of a movie.
pub struct Trak {
    pub wide: bool,
    pub flags: Seq<u8>,
    /// The two times, of eight bytes each if wide, else of four.
    pub times: Seq<u8>,
    pub id: u32,
    pub tkhd_rest: Seq<u8>,
    pub hdlr_head: Seq<u8>,
    pub handler: u32,
    pub hdlr_rest: Seq<u8>,
}

impl Trak {
    pub open spec fn fits(self) -> bool {
        &&& self.flags.len() == 3
        &&& self.times.len() == if self.wide {
            16int
        } else {
            8
        }
        &&& self.hdlr_head.len() == 8
        &&& self.tkhd_rest.len() + self.hdlr_rest.len() < 0x1000_0000
    }

    pub open spec fn parts(self) -> Seq<(BoxView, bool)> {
        let header = BoxView {
            kind: 0x746B_6864,
            body: tkhd(self.wide, self.flags, self.times, self.id, self.tkhd_rest),
        };
        let handler = BoxView {
            kind: 0x6864_6C72,
            body: hdlr(self.hdlr_head, self.handler, self.hdlr_rest),
        };
        let media = BoxView { kind: 0x6D64_6961, body: packed(seq![(handler, false)]) };
        seq![(header, false), (media, false)]
    }

    pub open spec fn bytes(self) -> Seq<u8> {
        packed(self.parts())
    }
}

/// A track is a video track exactly if its handler is `vide`; its id is read
/// back from its header, of either version.
#[verifier::rlimit(50)]
pub proof fn law_a_video_track_is_told_by_its_handler(t: Trak)
    requires
        t.fits(),
    ensures
        tracks::video_track(t.bytes()) == if t.handler == 0x7669_6465 {
            Some(t.id)
        } else {
            None
        },
{
    let h = tkhd(t.wide, t.flags, t.times, t.id, t.tkhd_rest);
    let r = hdlr(t.hdlr_head, t.handler, t.hdlr_rest);
    let header = BoxView { kind: 0x746B_6864, body: h };
    let handler = BoxView { kind: 0x6864_6C72, body: r };
    let inner = seq![(handler, false)];
    let media = BoxView { kind: 0x6D64_6961, body: packed(inner) };
    lemma_track_fields(t);
    lemma_one(handler);
    lemma_two(header, media);
    assert(t.parts() == seq![(header, false), (media, false)]);
    lemma_handled(t.bytes(), header, media, handler, t.id, t.handler);
}

/// A track of a header and a media box with a handler.
proof fn lemma_handled(
    trak: Seq<u8>,
    header: BoxView,
    media: BoxView,
    handler: BoxView,
    id: u32,
    word: u32,
)
    requires
        boxes::boxes_in(trak) == seq![header, media],
        boxes::boxes_in(media.body) == seq![handler],
        header.kind == 0x746B_6864,
        media.kind == 0x6D64_6961,
        handler.kind == 0x6864_6C72,
        tracks::track_id(header.body) == Some(id),
        boxes::u32_in(handler.body, 8) == Some(word),
    ensures
        tracks::video_track(trak) == if word == 0x7669_6465 {
            Some(id)
        } else {
            None
        },
{
    let views = seq![header, media];
    reveal_with_fuel(tracks::last_of, 3);
    reveal_with_fuel(tracks::first_of, 2);
    assert(views.drop_last() =~= seq![header]);
    assert(views.last() == media);
    assert(tracks::last_of(views, 0x746B_6864) == Some(header.body));
    assert(tracks::last_of(views, 0x6D64_6961) == Some(media.body));
    assert(tracks::first_of(seq![handler], 0x6864_6C72) == Some(handler.body));
}

/// The id and the handler of a track stand where they are looked for.
#[verifier::rlimit(50)]
proof fn lemma_track_fields(t: Trak)
    requires
        t.fits(),
    ensures
        tracks::track_id(tkhd(t.wide, t.flags, t.times, t.id, t.tkhd_rest)) == Some(t.id),
        boxes::u32_in(hdlr(t.hdlr_head, t.handler, t.hdlr_rest), 8) == Some(t.handler),
        tkhd(t.wide, t.flags, t.times, t.id, t.tkhd_rest).len() <= 24 + t.tkhd_rest.len(),
        hdlr(t.hdlr_head, t.handler, t.hdlr_rest).len() == 12 + t.hdlr_rest.len(),
{
    let version = seq![
        if t.wide {
            1u8
        } else {
            0u8
        },
    ];
    let before = version + t.flags + t.times;
    let h = tkhd(t.wide, t.flags, t.times, t.id, t.tkhd_rest);
    assert(h =~= before + bytes4(t.id as int) + t.tkhd_rest);
    assert(h[0] == version[0]);
    law_a_number_is_read_back(before, t.id, t.tkhd_rest);
    law_a_number_is_read_back(t.hdlr_head, t.handler, t.hdlr_rest);
}

/// One box alone.
proof fn lemma_one(b: BoxView)
    requires
        writable(b),
    ensures
        boxes::boxes_in(packed(seq![(b, false)])) == seq![b],
        packed(seq![(b, false)]).len() == 8 + b.body.len(),
{
    let one = seq![(b, false)];
    let none = Seq::<u8>::empty();
    law_packed_boxes_are_read_back(one, none);
    assert(packed(one) + none =~= packed(one));
    assert(one.map_values(|b: (BoxView, bool)| b.0) =~= seq![b]);
    assert(one.skip(1) =~= Seq::empty());
    reveal_with_fuel(packed, 2);
    assert(packed(one) =~= written(b, false));
}

/// Two boxes.
proof fn lemma_two(a: BoxView, b: BoxView)
    requires
        writable(a),
        writable(b),
    ensures
        boxes::boxes_in(packed(seq![(a, false), (b, false)])) == seq![a, b],
{
    let two = seq![(a, false), (b, false)];
    let none = Seq::<u8>::empty();
    law_packed_boxes_are_read_back(two, none);
    assert(packed(two) + none =~= packed(two));
    assert(two.map_values(|b: (BoxView, bool)| b.0) =~= seq![a, b]);
}

/// The defaults of a track.
pub struct Trex {
    pub head: Seq<u8>,
    pub track: u32,
    /// Sample description, duration and size.
    pub others: Seq<u8>,
    pub flags: u32,
    pub rest: Seq<u8>,
}

impl Trex {
    pub open spec fn fits(self) -> bool {
        self.head.len() == 4 && self.others.len() == 12 && self.rest.len() < 0x1000_0000
    }

    pub open spec fn body(self) -> Seq<u8> {
        self.head + bytes4(self.track as int) + self.others + bytes4(self.flags as int) + self.rest
    }
}

/// The tracks of a movie, as boxes.
pub open spec fn trak_boxes(ts: Seq<Trak>) -> Seq<BoxView> {
    ts.map_values(|t: Trak| BoxView { kind: 0x7472_616B, body: t.bytes() })
}

pub open spec fn trex_boxes(xs: Seq<Trex>) -> Seq<BoxView> {
    xs.map_values(|x: Trex| BoxView { kind: 0x7472_6578, body: x.body() })
}

/// The ids of those tracks whose handler is `vide`.
pub open spec fn video_ids(ts: Seq<Trak>) -> Seq<u32>
    decreases ts.len(),
{
    if ts.len() == 0 {
        Seq::empty()
    } else if ts.last().handler == 0x7669_6465 {
        video_ids(ts.drop_last()).push(ts.last().id)
    } else {
        video_ids(ts.drop_last())
    }
}

/// The default flags of each track.
pub open spec fn default_flags(xs: Seq<Trex>) -> Map<u32, u32>
    decreases xs.len(),
{
    if xs.len() == 0 {
        Map::empty()
    } else {
        default_flags(xs.drop_last()).insert(xs.last().track, xs.last().flags)
    }
}

#[verifier::rlimit(50)]
proof fn lemma_traks(ts: Seq<Trak>)
    requires
        forall|i: int| 0 <= i < ts.len() ==> (#[trigger] ts[i]).fits(),
    ensures
        tracks::video_tracks(trak_boxes(ts)) == video_ids(ts),
    decreases ts.len(),
{
    if ts.len() > 0 {
        lemma_traks(ts.drop_last());
        assert(trak_boxes(ts).drop_last() =~= trak_boxes(ts.drop_last()));
        assert(ts.last() == ts[ts.len() - 1]);
        law_a_video_track_is_told_by_its_handler(ts.last());
    }
}

proof fn lemma_trexes(xs: Seq<Trex>)
    requires
        forall|i: int| 0 <= i < xs.len() ==> (#[trigger] xs[i]).fits(),
    ensures
        tracks::trex_defaults(trex_boxes(xs)) == default_flags(xs),
    decreases xs.len(),
{
    if xs.len() > 0 {
        lemma_trexes(xs.drop_last());
        assert(trex_boxes(xs).drop_last() =~= trex_boxes(xs.drop_last()));
        let x = xs[xs.len() - 1];
        let b = x.body();
        assert(b.subrange(4, 8) =~= bytes4(x.track as int));
        assert(b.subrange(20, 24) =~= bytes4(x.flags as int));
        lemma_at(b, 4, x.track as int);
        lemma_at(b, 20, x.flags as int);
    }
}

/// Short boxes one after the other.
pub open spec fn short(bs: Seq<BoxView>) -> Seq<u8> {
    packed(bs.map_values(|b: BoxView| (b, false)))
}

proof fn lemma_short(bs: Seq<BoxView>)
    requires
        forall|i: int| 0 <= i < bs.len() ==> writable(#[trigger] bs[i]),
    ensures
        boxes::boxes_in(short(bs)) == bs,
{
    let ps = bs.map_values(|b: BoxView| (b, false));
    let none = Seq::<u8>::empty();
    assert forall|i: int| 0 <= i < ps.len() implies writable((#[trigger] ps[i]).0) by {
        assert(ps[i].0 == bs[i]);
    }
    law_packed_boxes_are_read_back(ps, none);
    assert(packed(ps) + none =~= packed(ps));
    assert(ps.map_values(|b: (BoxView, bool)| b.0) =~= bs);
}

proof fn lemma_mvex_is_no_trak(bs: Seq<BoxView>, x: BoxView)
    requires
        x.kind == 0x6D76_6578,
        forall|i: int| 0 <= i < bs.len() ==> (#[trigger] bs[i]).kind == 0x7472_616B,
    ensures
        tracks::video_tracks(bs.push(x)) == tracks::video_tracks(bs),
        tracks::children(bs.push(x), 0x6D76_6578) == boxes::boxes_in(x.body),
{
    assert(bs.push(x).drop_last() =~= bs);
    lemma_no_children(bs);
    assert(tracks::children(bs.push(x), 0x6D76_6578) =~= boxes::boxes_in(x.body));
}

proof fn lemma_no_children(bs: Seq<BoxView>)
    requires
        forall|i: int| 0 <= i < bs.len() ==> (#[trigger] bs[i]).kind == 0x7472_616B,
    ensures
        tracks::children(bs, 0x6D76_6578).len() == 0,
    decreases bs.len(),
{
    if bs.len() > 0 {
        assert(bs.last() == bs[bs.len() - 1]);
        lemma_no_children(bs.drop_last());
    }
}

/// An init segment says of its tracks what was written into it: which of them
/// are video, in order, and the default sample flags of each.
#[verifier::rlimit(50)]
pub proof fn law_an_init_segment_describes_its_tracks(
    ftyp: BoxView,
    ts: Seq<Trak>,
    xs: Seq<Trex>,
)
    requires
        ftyp.kind == 0x6674_7970,
        writable(ftyp),
        forall|i: int| 0 <= i < ts.len() ==> (#[trigger] ts[i]).fits(),
        forall|i: int| 0 <= i < xs.len() ==> (#[trigger] xs[i]).fits(),
        ({
            let mvex = BoxView { kind: 0x6D76_6578, body: short(trex_boxes(xs)) };
            let movie = trak_boxes(ts).push(mvex);
            &&& forall|i: int| 0 <= i < movie.len() ==> writable(#[trigger] movie[i])
            &&& forall|i: int| 0 <= i < xs.len() ==> writable(#[trigger] trex_boxes(xs)[i])
            &&& writable(BoxView { kind: 0x6D6F_6F76, body: short(movie) })
        }),
    ensures
        ({
            let mvex = BoxView { kind: 0x6D76_6578, body: short(trex_boxes(xs)) };
            let moov = BoxView { kind: 0x6D6F_6F76, body: short(trak_boxes(ts).push(mvex)) };
            tracks::tracks_in(short(seq![ftyp, moov])) == (TracksView {
                video: video_ids(ts),
                defaults: default_flags(xs),
            })
        }),
{
    reveal(tracks::tracks_in);
    let mvex = BoxView { kind: 0x6D76_6578, body: short(trex_boxes(xs)) };
    let movie = trak_boxes(ts).push(mvex);
    let moov = BoxView { kind: 0x6D6F_6F76, body: short(movie) };
    let top = seq![ftyp, moov];
    lemma_short(top);
    lemma_short(movie);
    lemma_short(trex_boxes(xs));
    reveal_with_fuel(tracks::children, 3);
    assert(top.drop_last() =~= seq![ftyp]);
    assert(top.drop_last().drop_last() =~= Seq::empty());
    assert(tracks::children(top, 0x6D6F_6F76) =~= movie);
    lemma_mvex_is_no_trak(trak_boxes(ts), mvex);
    lemma_traks(ts);
    lemma_trexes(xs);
}

/// A fragment may be joined at exactly if there is no video to align to, or it
/// carries video and every part of it that does begins on a sync sample.
#[verifier::rlimit(50)]
pub proof fn law_a_fragment_may_be_joined_at_a_keyframe(ts: TracksView, parts: Seq<BoxView>)
    requires
        forall|i: int| 0 <= i < parts.len() ==> writable(#[trigger] parts[i]),
        writable(BoxView { kind: 0x6D6F_6F66, body: short(parts) }),
    ensures
        ({
            let moof = written(BoxView { kind: 0x6D6F_6F66, body: short(parts) }, false);
            let video = |i: int, sync: bool|
                parts[i].kind == 0x7472_6166 && (ts.first_sample(parts[i].body) matches Some(
                    (id, s),
                ) && s == sync && ts.video.contains(id));
            ts.keyframe_fragment(moof) <==> {
                ||| ts.video.len() == 0
                ||| {
                    &&& exists|i: int| 0 <= i < parts.len() && #[trigger] video(i, true)
                    &&& forall|i: int| 0 <= i < parts.len() ==> !#[trigger] video(i, false)
                }
            }
        }),
{
    reveal(TracksView::keyframe_fragment);
    reveal(TracksView::video_traf);
    let b = BoxView { kind: 0x6D6F_6F66, body: short(parts) };
    let moof = written(b, false);
    let none = Seq::<u8>::empty();
    lemma_written(none, b, false, none);
    assert(none + moof + none =~= moof);
    lemma_short(parts);
    let video = |i: int, sync: bool|
        parts[i].kind == 0x7472_6166 && (ts.first_sample(parts[i].body) matches Some((id, s)) && s
            == sync && ts.video.contains(id));
    assert forall|i: int, s: bool| #[trigger] video(i, s) == ts.video_traf(parts[i], s) by {}
    if exists|i: int| 0 <= i < parts.len() && #[trigger] video(i, true) {
        let i = choose|i: int| 0 <= i < parts.len() && #[trigger] video(i, true);
        assert(ts.video_traf(parts[i], true));
    }
    if exists|i: int| 0 <= i < parts.len() && ts.video_traf(#[trigger] parts[i], true) {
        let i = choose|i: int| 0 <= i < parts.len() && ts.video_traf(#[trigger] parts[i], true);
        assert(video(i, true));
    }
    if exists|i: int| 0 <= i < parts.len() && ts.video_traf(#[trigger] parts[i], false) {
        let i = choose|i: int| 0 <= i < parts.len() && ts.video_traf(#[trigger] parts[i], false);
        assert(video(i, false));
    }
    if exists|i: int| 0 <= i < parts.len() && #[trigger] video(i, false) {
        let i = choose|i: int| 0 <= i < parts.len() && #[trigger] video(i, false);
        assert(ts.video_traf(parts[i], false));
    }
}

/// A box that was written is a whole box of its kind, so that a stream of them
/// is read box by box; one of four mebibytes at most may be a `moof`.
pub proof fn law_a_written_box_is_whole(b: BoxView, long: bool)
    requires
        writable(b),
    ensures
        model::whole_box(written(b, long), b.kind),
        model::kind_of(written(b, long)) == b.kind,
        model::MOOF == 0x6D6F_6F66,
        model::FTYP == 0x6674_7970,
        model::STYP == 0x7374_7970,
        model::MAX_MOOF == 4_194_304,
{
    let none = Seq::<u8>::empty();
    let w = written(b, long);
    lemma_written(none, b, long, none);
    assert(none + w + none =~= w);
    if long {
        assert(w.subrange(0, 4) =~= bytes4(1));
        lemma_at(w, 0, 1);
    } else {
        assert(w.subrange(0, 4) =~= bytes4(8 + b.body.len() as int));
        lemma_at(w, 0, 8 + b.body.len() as int);
    }
}

} // verus!
