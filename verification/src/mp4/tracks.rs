//! What an init segment says about its tracks, and what a fragment says about
//! its first samples, as far as keyframes go.
use std::collections::HashMap;

use super::boxes;
use super::boxes::{BoxRef, BoxView};
use vstd::prelude::*;

verus! {

/// Box and handler types, as the big-endian reading of their four characters.
pub const MOOV: u32 = 0x6D6F_6F76;

pub const TRAK: u32 = 0x7472_616B;

pub const TKHD: u32 = 0x746B_6864;

pub const MDIA: u32 = 0x6D64_6961;

pub const HDLR: u32 = 0x6864_6C72;

pub const VIDE: u32 = 0x7669_6465;

pub const MVEX: u32 = 0x6D76_6578;

pub const TREX: u32 = 0x7472_6578;

pub const TRAF: u32 = 0x7472_6166;

pub const TFHD: u32 = 0x7466_6864;

pub const TRUN: u32 = 0x7472_756E;

/// `sample_is_non_sync_sample` in ISO-BMFF sample flags.
pub const NON_SYNC: u32 = 0x0001_0000;

/// Whether the bit of weight `weight`, a power of two, is set in `flags`.
pub open spec fn bit(flags: u32, weight: u32) -> bool {
    (flags / weight) % 2 == 1
}

/// The body of the first box of the given kind.
pub open spec fn first_of(bs: Seq<BoxView>, kind: u32) -> Option<Seq<u8>>
    decreases bs.len(),
{
    if bs.len() == 0 {
        None
    } else if bs[0].kind == kind {
        Some(bs[0].body)
    } else {
        first_of(bs.skip(1), kind)
    }
}

/// The body of the last box of the given kind.
pub open spec fn last_of(bs: Seq<BoxView>, kind: u32) -> Option<Seq<u8>>
    decreases bs.len(),
{
    if bs.len() == 0 {
        None
    } else if bs.last().kind == kind {
        Some(bs.last().body)
    } else {
        last_of(bs.drop_last(), kind)
    }
}

/// The boxes packed in the bodies of all boxes of the given kind, in order.
pub open spec fn children(bs: Seq<BoxView>, kind: u32) -> Seq<BoxView>
    decreases bs.len(),
{
    if bs.len() == 0 {
        Seq::empty()
    } else if bs.last().kind == kind {
        children(bs.drop_last(), kind) + boxes::boxes_in(bs.last().body)
    } else {
        children(bs.drop_last(), kind)
    }
}

/// The `track_ID` of a `tkhd`; its version 1 widens the two timestamps before it.
pub open spec fn track_id(tkhd: Seq<u8>) -> Option<u32> {
    boxes::u32_in(
        tkhd,
        if tkhd.len() > 0 && tkhd[0] == 1 {
            20
        } else {
            12
        },
    )
}

/// The track id of a `trak` whose media handler is `vide`; none for any other.
pub open spec fn video_track(trak: Seq<u8>) -> Option<u32> {
    let parts = boxes::boxes_in(trak);
    let id = match last_of(parts, TKHD) {
        Some(tkhd) => track_id(tkhd),
        None => None,
    };
    let handler = match last_of(parts, MDIA) {
        Some(mdia) => match first_of(boxes::boxes_in(mdia), HDLR) {
            Some(hdlr) => boxes::u32_in(hdlr, 8),
            None => None,
        },
        None => None,
    };
    if handler == Some(VIDE) {
        id
    } else {
        None
    }
}

/// The ids of the video tracks among the parts of a movie box, in order.
pub open spec fn video_tracks(parts: Seq<BoxView>) -> Seq<u32>
    decreases parts.len(),
{
    if parts.len() == 0 {
        Seq::empty()
    } else {
        let before = video_tracks(parts.drop_last());
        match (parts.last().kind == TRAK, video_track(parts.last().body)) {
            (true, Some(id)) => before.push(id),
            _ => before,
        }
    }
}

/// The `trex` default sample flags per track id; a later entry for a track
/// replaces an earlier one.
pub open spec fn trex_defaults(parts: Seq<BoxView>) -> Map<u32, u32>
    decreases parts.len(),
{
    if parts.len() == 0 {
        Map::empty()
    } else {
        let before = trex_defaults(parts.drop_last());
        let b = parts.last().body;
        match (parts.last().kind == TREX, boxes::u32_in(b, 4), boxes::u32_in(b, 20)) {
            (true, Some(id), Some(flags)) => before.insert(id, flags),
            _ => before,
        }
    }
}

/// The tracks of a stream: its video track ids and the `trex` defaults.
#[verifier::ext_equal]
pub struct TracksView {
    pub video: Seq<u32>,
    pub defaults: Map<u32, u32>,
}

/// The tracks that an init segment describes.
#[verifier::opaque]
pub open spec fn tracks_in(init: Seq<u8>) -> TracksView {
    let movie = children(boxes::boxes_in(init), MOOV);
    TracksView {
        video: video_tracks(movie),
        defaults: trex_defaults(children(movie, MVEX)),
    }
}

/// What the boxes of a `traf` have said so far: its track, the `tfhd` default
/// flags and the flags that a `trun` gives its first sample.
pub struct TrafView {
    pub track: Option<u32>,
    pub tfhd: Option<u32>,
    pub trun: Option<u32>,
    /// Whether the `trun` with the first sample has been seen.
    pub begun: bool,
}

/// The 24-bit flags of a full box.
pub open spec fn box_flags(b: Seq<u8>) -> u32 {
    (boxes::be32(b, 0) % 0x100_0000) as u32
}

/// Where a `tfhd` keeps its default sample flags: past the track id and the
/// optional base_data_offset, sample_description_index, default duration and
/// default size.
pub open spec fn tfhd_flags_at(flags: u32) -> int {
    8 + (if bit(flags, 0x01) {
        8int
    } else {
        0
    }) + (if bit(flags, 0x02) {
        4int
    } else {
        0
    }) + (if bit(flags, 0x08) {
        4int
    } else {
        0
    }) + (if bit(flags, 0x10) {
        4int
    } else {
        0
    })
}

/// The sample flags that a `trun` of at least eight bytes gives its first
/// sample: first_sample_flags, or else the first sample's own flags.
pub open spec fn trun_first_flags(b: Seq<u8>) -> Option<u32> {
    let flags = box_flags(b);
    let fields: int = 8 + (if bit(flags, 0x01) {
        4int
    } else {
        0
    });
    if bit(flags, 0x04) {
        boxes::u32_in(b, fields)
    } else if bit(flags, 0x400) && boxes::be32(b, 4) > 0 {
        boxes::u32_in(
            b,
            fields + (if bit(flags, 0x100) {
                4int
            } else {
                0
            }) + (if bit(flags, 0x200) {
                4int
            } else {
                0
            }),
        )
    } else {
        None
    }
}

/// One more box of a `traf`. A `tfhd` or a still wanted `trun` that is too
/// short to carry its fixed fields spoils the whole `traf`.
///
/// The first sample is in the first `trun` that holds any, so that one decides,
/// whether or not it gives flags. What a `trun` without samples says stands
/// only until then.
pub open spec fn traf_step(t: TrafView, b: BoxView) -> Option<TrafView> {
    if b.kind == TFHD {
        if b.body.len() < 4 {
            None
        } else {
            let flags = box_flags(b.body);
            Some(
                TrafView {
                    track: boxes::u32_in(b.body, 4),
                    tfhd: if bit(flags, 0x20) {
                        boxes::u32_in(b.body, tfhd_flags_at(flags))
                    } else {
                        t.tfhd
                    },
                    ..t
                },
            )
        }
    } else if b.kind == TRUN && !t.begun {
        if b.body.len() < 8 {
            if t.trun is None {
                None
            } else {
                Some(t)
            }
        } else if boxes::be32(b.body, 4) > 0 {
            Some(TrafView { trun: trun_first_flags(b.body), begun: true, ..t })
        } else if t.trun is None {
            Some(TrafView { trun: trun_first_flags(b.body), ..t })
        } else {
            Some(t)
        }
    } else {
        Some(t)
    }
}

/// What the boxes of a `traf` say together; none if one of them spoils it.
pub open spec fn traf_of(bs: Seq<BoxView>) -> Option<TrafView>
    decreases bs.len(),
{
    if bs.len() == 0 {
        Some(TrafView { track: None, tfhd: None, trun: None, begun: false })
    } else {
        match traf_of(bs.drop_last()) {
            Some(t) => traf_step(t, bs.last()),
            None => None,
        }
    }
}

impl TracksView {
    /// The track id of a `traf` and whether its first sample is a sync
    /// sample, by the flags of the `trun`, else of the `tfhd`, else of the
    /// `trex`. Unknown flags mean non-sync.
    pub open spec fn first_sample(self, traf: Seq<u8>) -> Option<(u32, bool)> {
        match traf_of(boxes::boxes_in(traf)) {
            Some(TrafView { track: Some(id), tfhd, trun, .. }) => {
                let flags = if trun is Some {
                    trun
                } else if tfhd is Some {
                    tfhd
                } else if self.defaults.contains_key(id) {
                    Some(self.defaults[id])
                } else {
                    None
                };
                Some((id, flags matches Some(f) && !bit(f, NON_SYNC)))
            },
            _ => None,
        }
    }

    /// Whether part `b` of a `moof` is a `traf` of a video track, beginning
    /// on a sync sample if `sync`.
    #[verifier::opaque]
    pub open spec fn video_traf(self, b: BoxView, sync: bool) -> bool {
        &&& b.kind == TRAF
        &&& self.first_sample(b.body) matches Some((id, s)) && s == sync && self.video.contains(id)
    }

    /// Whether a complete `moof`, header included, carries video and begins
    /// all of it on a sync sample. Without a video track, always.
    #[verifier::opaque]
    pub open spec fn keyframe_fragment(self, moof: Seq<u8>) -> bool {
        let parts = boxes::boxes_in(boxes::box_at(moof, 0).body);
        ||| self.video.len() == 0
        ||| {
            &&& boxes::fits(moof, 0)
            &&& exists|i: int| 0 <= i < parts.len() && self.video_traf(#[trigger] parts[i], true)
            &&& forall|i: int|
                0 <= i < parts.len() ==> !self.video_traf(#[trigger] parts[i], false)
        }
    }
}

fn is_set(flags: u32, weight: u32) -> (r: bool)
    requires
        weight > 0,
    ensures
        r == bit(flags, weight),
{
    (flags / weight) % 2 == 1
}

/// The body of the first box of the given kind.
fn find_first<'a>(list: &Vec<BoxRef<'a>>, kind: u32) -> (r: Option<&'a [u8]>)
    ensures
        r is Some <==> first_of(boxes::box_views(list@), kind) is Some,
        r matches Some(b) ==> first_of(boxes::box_views(list@), kind) == Some(b@),
{
    let ghost views = boxes::box_views(list@);
    let mut i: usize = 0;
    assert(views.skip(0) =~= views);
    while i < list.len()
        invariant
            i <= list@.len(),
            views == boxes::box_views(list@),
            first_of(views.skip(i as int), kind) == first_of(views, kind),
        decreases list.len() - i,
    {
        proof {
            assert(views.skip(i as int)[0] == list@[i as int]@);
            assert(views.skip(i as int).skip(1) =~= views.skip(i + 1));
        }
        if list[i].kind == kind {
            return Some(list[i].body);
        }
        i = i + 1;
    }
    None
}

/// The body of the last box of the given kind.
fn find_last<'a>(list: &Vec<BoxRef<'a>>, kind: u32) -> (r: Option<&'a [u8]>)
    ensures
        r is Some <==> last_of(boxes::box_views(list@), kind) is Some,
        r matches Some(b) ==> last_of(boxes::box_views(list@), kind) == Some(b@),
{
    let ghost views = boxes::box_views(list@);
    let mut i: usize = list.len();
    assert(views.take(i as int) =~= views);
    while i > 0
        invariant
            i <= list@.len(),
            views == boxes::box_views(list@),
            last_of(views.take(i as int), kind) == last_of(views, kind),
        decreases i,
    {
        proof {
            assert(views.take(i as int).last() == list@[i - 1]@);
            assert(views.take(i as int).drop_last() =~= views.take(i - 1));
        }
        if list[i - 1].kind == kind {
            return Some(list[i - 1].body);
        }
        i = i - 1;
    }
    None
}

/// The boxes inside all boxes of the given kind.
fn unpack<'a>(list: &Vec<BoxRef<'a>>, kind: u32) -> (r: Vec<BoxRef<'a>>)
    ensures
        boxes::box_views(r@) == children(boxes::box_views(list@), kind),
{
    let ghost views = boxes::box_views(list@);
    let mut out: Vec<BoxRef<'a>> = Vec::new();
    let mut i: usize = 0;
    assert(boxes::box_views(out@) =~= children(views.take(0), kind));
    while i < list.len()
        invariant
            i <= list@.len(),
            views == boxes::box_views(list@),
            boxes::box_views(out@) == children(views.take(i as int), kind),
        decreases list.len() - i,
    {
        proof {
            assert(views.take(i + 1).last() == list@[i as int]@);
            assert(views.take(i + 1).drop_last() =~= views.take(i as int));
        }
        if list[i].kind == kind {
            let ghost before = out@;
            let mut inner = boxes::boxes(list[i].body);
            let ghost more = inner@;
            out.append(&mut inner);
            assert(boxes::box_views(out@) =~= boxes::box_views(before) + boxes::box_views(more));
        }
        i = i + 1;
    }
    assert(views.take(i as int) =~= views);
    out
}

/// What the init segment says about the tracks.
#[derive(Debug)]
pub struct Tracks {
    /// Track ids whose handler is `vide`.
    video: Vec<u32>,
    /// `trex` default sample flags per track, the last resort when a fragment
    /// carries no flags of its own.
    trex_flags: HashMap<u32, u32>,
}

impl View for Tracks {
    type V = TracksView;

    closed spec fn view(&self) -> TracksView {
        TracksView { video: self.video@, defaults: self.trex_flags@ }
    }
}

/// The track id of a `trak`, if it is a video track.
fn video_track_of(trak: &[u8]) -> (r: Option<u32>)
    ensures
        r == video_track(trak@),
{
    let parts = boxes::boxes(trak);
    let id: Option<u32> = match find_last(&parts, TKHD) {
        Some(tkhd) => {
            let wide: bool = tkhd.len() > 0 && tkhd[0] == 1;
            boxes::u32_at(
                tkhd,
                if wide {
                    20
                } else {
                    12
                },
            )
        },
        None => None,
    };
    let handler: Option<u32> = match find_last(&parts, MDIA) {
        Some(mdia) => match find_first(&boxes::boxes(mdia), HDLR) {
            Some(hdlr) => boxes::u32_at(hdlr, 8),
            None => None,
        },
        None => None,
    };
    match handler {
        Some(h) => if h == VIDE {
            id
        } else {
            None
        },
        None => None,
    }
}

/// The sample flags that a `trun` gives its first sample.
fn first_flags(b: &[u8]) -> (r: Option<u32>)
    requires
        b@.len() >= 8,
    ensures
        r == trun_first_flags(b@),
{
    let flags: u32 = boxes::be32_at(b, 0) % 0x100_0000;
    let mut k: usize = 8;
    if is_set(flags, 0x01) {
        k = k + 4;  // data_offset
    }
    if is_set(flags, 0x04) {
        boxes::u32_at(b, k)
    } else if is_set(flags, 0x400) && boxes::be32_at(b, 4) > 0 {
        if is_set(flags, 0x100) {
            k = k + 4;  // sample_duration
        }
        if is_set(flags, 0x200) {
            k = k + 4;  // sample_size
        }
        boxes::u32_at(b, k)
    } else {
        None
    }
}

impl Tracks {
    /// Read the tracks out of an init segment.
    pub fn parse(init: &[u8]) -> (r: Tracks)
        ensures
            r@ == tracks_in(init@),
    {
        broadcast use vstd::std_specs::hash::group_hash_axioms;

        proof {
            reveal(tracks_in);
        }
        let movie = unpack(&boxes::boxes(init), MOOV);
        let ghost parts = boxes::box_views(movie@);
        let mut video: Vec<u32> = Vec::new();
        let mut i: usize = 0;
        while i < movie.len()
            invariant
                i <= movie@.len(),
                parts == boxes::box_views(movie@),
                video@ == video_tracks(parts.take(i as int)),
            decreases movie.len() - i,
        {
            proof {
                assert(parts.take(i + 1).last() == movie@[i as int]@);
                assert(parts.take(i + 1).drop_last() =~= parts.take(i as int));
            }
            if movie[i].kind == TRAK {
                match video_track_of(movie[i].body) {
                    Some(id) => {
                        video.push(id);
                    },
                    None => {},
                }
            }
            i = i + 1;
        }
        assert(parts.take(i as int) =~= parts);

        let extends = unpack(&movie, MVEX);
        let ghost entries = boxes::box_views(extends@);
        let mut trex_flags: HashMap<u32, u32> = HashMap::new();
        let mut j: usize = 0;
        while j < extends.len()
            invariant
                j <= extends@.len(),
                entries == boxes::box_views(extends@),
                trex_flags@ == trex_defaults(entries.take(j as int)),
            decreases extends.len() - j,
        {
            proof {
                assert(entries.take(j + 1).last() == extends@[j as int]@);
                assert(entries.take(j + 1).drop_last() =~= entries.take(j as int));
            }
            if extends[j].kind == TREX {
                let b = extends[j].body;
                match (boxes::u32_at(b, 4), boxes::u32_at(b, 20)) {
                    (Some(id), Some(flags)) => {
                        trex_flags.insert(id, flags);
                    },
                    _ => {},
                }
            }
            j = j + 1;
        }
        assert(entries.take(j as int) =~= entries);
        Tracks { video, trex_flags }
    }

    fn is_video(&self, id: u32) -> (r: bool)
        ensures
            r == self@.video.contains(id),
    {
        let mut i: usize = 0;
        while i < self.video.len()
            invariant
                i <= self.video@.len(),
                forall|j: int| 0 <= j < i ==> self.video@[j] != id,
            decreases self.video.len() - i,
        {
            if self.video[i] == id {
                assert(self.video@[i as int] == id);
                return true;
            }
            i = i + 1;
        }
        false
    }

    /// For a `traf` of a video track, whether it begins on a sync sample.
    fn video_part(&self, part: &BoxRef) -> (r: Option<bool>)
        ensures
            forall|sync: bool| #[trigger] self@.video_traf(part@, sync) <==> r == Some(sync),
    {
        proof {
            reveal(TracksView::video_traf);
        }
        if part.kind != TRAF {
            return None;
        }
        match self.first_sample(part.body) {
            Some((id, sync)) => if self.is_video(id) {
                Some(sync)
            } else {
                None
            },
            None => None,
        }
    }

    /// Whether a complete `moof` (header included) begins every video track
    /// on a sync sample. A stream without video is joinable at any fragment.
    pub fn keyframe_fragment(&self, moof: &[u8]) -> (r: bool)
        ensures
            r == self@.keyframe_fragment(moof@),
    {
        proof {
            reveal(TracksView::keyframe_fragment);
        }
        if self.video.len() == 0 {
            return true;
        }
        let outer = boxes::boxes(moof);
        if outer.len() == 0 {
            assert(boxes::box_views(outer@).len() == 0);
            return false;
        }
        assert(boxes::box_views(outer@)[0] == outer@[0]@);
        let parts = boxes::boxes(outer[0].body);
        let ghost views = boxes::box_views(parts@);
        assert(views == boxes::boxes_in(boxes::box_at(moof@, 0).body));
        let mut video_seen: bool = false;
        let mut i: usize = 0;
        while i < parts.len()
            invariant
                i <= parts@.len(),
                views == boxes::box_views(parts@),
                views == boxes::boxes_in(boxes::box_at(moof@, 0).body),
                self@.video.len() > 0,
                video_seen == exists|j: int|
                    0 <= j < i && self@.video_traf(#[trigger] views[j], true),
                forall|j: int| 0 <= j < i ==> !self@.video_traf(#[trigger] views[j], false),
            decreases parts.len() - i,
        {
            assert(views[i as int] == parts@[i as int]@);
            match self.video_part(&parts[i]) {
                Some(sync) => {
                    assert(self@.video_traf(views[i as int], sync));
                    if !sync {
                        proof {
                            reveal(TracksView::keyframe_fragment);
                            assert(views.len() == parts@.len());
                        }
                        return false;
                    }
                    video_seen = true;
                },
                None => {},
            }
            i = i + 1;
        }
        video_seen
    }

    /// The track id of a `traf` and whether its first sample is a sync sample,
    /// taking the flags from wherever the muxer put them: `trun`
    /// first_sample_flags, the first sample's own flags, the `tfhd` default,
    /// or the `trex` default. Unknown means non-sync.
    fn first_sample(&self, traf: &[u8]) -> (r: Option<(u32, bool)>)
        ensures
            r == self@.first_sample(traf@),
    {
        broadcast use vstd::std_specs::hash::group_hash_axioms;

        let list = boxes::boxes(traf);
        let ghost views = boxes::box_views(list@);
        let mut track: Option<u32> = None;
        let mut tfhd: Option<u32> = None;
        let mut trun: Option<u32> = None;
        let mut begun: bool = false;
        let mut i: usize = 0;
        while i < list.len()
            invariant
                i <= list@.len(),
                views == boxes::box_views(list@),
                traf_of(views.take(i as int)) == Some(TrafView { track, tfhd, trun, begun }),
                views == boxes::boxes_in(traf@),
            decreases list.len() - i,
        {
            proof {
                assert(views.take(i + 1).last() == list@[i as int]@);
                assert(views.take(i + 1).drop_last() =~= views.take(i as int));
            }
            let b = list[i].body;
            if list[i].kind == TFHD {
                if b.len() < 4 {
                    proof {
                        lemma_spoiled(views, i + 1);
                    }
                    return None;
                }
                let flags: u32 = boxes::be32_at(b, 0) % 0x100_0000;
                track = boxes::u32_at(b, 4);
                let mut k: usize = 8;
                if is_set(flags, 0x01) {
                    k = k + 8;  // base_data_offset
                }
                if is_set(flags, 0x02) {
                    k = k + 4;  // sample_description_index
                }
                if is_set(flags, 0x08) {
                    k = k + 4;  // default_sample_duration
                }
                if is_set(flags, 0x10) {
                    k = k + 4;  // default_sample_size
                }
                if is_set(flags, 0x20) {
                    tfhd = boxes::u32_at(b, k);
                }
            } else if list[i].kind == TRUN && !begun {
                if b.len() >= 8 {
                    // The first sample is in the first run that holds any.
                    begun = boxes::be32_at(b, 4) > 0;
                    if begun || trun.is_none() {
                        trun = first_flags(b);
                    }
                } else if trun.is_none() {
                    proof {
                        lemma_spoiled(views, i + 1);
                    }
                    return None;
                }
            }
            i = i + 1;
        }
        assert(views.take(i as int) =~= views);
        let id: u32 = match track {
            Some(id) => id,
            None => {
                return None;
            },
        };
        let flags: Option<u32> = if trun.is_some() {
            trun
        } else if tfhd.is_some() {
            tfhd
        } else {
            match self.trex_flags.get(&id) {
                Some(f) => Some(*f),
                None => None,
            }
        };
        let sync: bool = match flags {
            Some(f) => !is_set(f, NON_SYNC),
            None => false,
        };
        Some((id, sync))
    }
}

/// A `traf` that a prefix of its boxes spoils stays spoiled.
proof fn lemma_spoiled(bs: Seq<BoxView>, n: int)
    requires
        0 <= n <= bs.len(),
        traf_of(bs.take(n)) is None,
    ensures
        traf_of(bs) is None,
    decreases bs.len() - n,
{
    if n == bs.len() {
        assert(bs.take(n) =~= bs);
    } else {
        assert(bs.take(n + 1).drop_last() =~= bs.take(n));
        lemma_spoiled(bs, n + 1);
    }
}

} // verus!
