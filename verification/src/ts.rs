//! MPEG-TS scanning: what the program carries, and which packets begin a
//! video keyframe.
//!
//! Every byte from the engine passes through this on its way into the replay
//! window. It reads only what two jobs need. The PAT and PMT name the
//! program's elementary streams, which is how the source's codecs are
//! identified without spawning ffprobe over a preroll (see [`Scanner::program`]);
//! and on the video PID, the first transport packet of each PES says whether
//! the access unit is a random-access point, which is what lets a new encoder
//! be primed from the most recent keyframe.
//!
//! Keyframe detection is by the codec's own syntax (an SPS or IDR NAL for
//! H.264, an IRAP or parameter set for HEVC, a sequence header for MPEG-2),
//! with the adaptation field's random_access_indicator only as a fallback
//! where the packet is inconclusive or the codec unknown. The flag alone is
//! not trusted: some muxers set it on every video PES, and aligning to a
//! non-keyframe is exactly the failure this scanner exists to prevent.
use pes::keyframe;
use pes::mpeg_audio_layer;
use pes::pes_pts;
use psi::Audio;
use psi::Section;
use psi::Video;
use vstd::prelude::*;

pub use pes::Codec;

pub mod laws;
pub mod pes;
pub mod psi;
pub mod written;

verus! {

pub const PACKET: usize = 188;

pub const SYNC: u8 = 0x47;

pub const PAT_PID: u16 = 0;

/// The program's first video and first audio stream, named as ffprobe would
/// name them (`h264`, `aac`, `ac3`, `mp2`, ...), so the copy-first table in
/// `format` takes them as they are.
#[derive(Debug, Clone, Copy, PartialEq, Eq, Default)]
pub struct Program {
    pub video: Option<&'static str>,
    pub audio: Option<&'static str>,
}

/// The names behind a [`Program`].
#[verifier::ext_equal]
pub struct ProgramView {
    pub video: Option<Seq<char>>,
    pub audio: Option<Seq<char>>,
}

impl View for Program {
    type V = ProgramView;

    open spec fn view(&self) -> ProgramView {
        ProgramView { video: pes::name_view(self.video), audio: pes::name_view(self.audio) }
    }
}

/// A transport packet that begins a video keyframe.
#[derive(Debug, Clone, Copy, PartialEq, Eq, Structural)]
pub struct Keyframe {
    /// Absolute offset of the packet, counted from the first byte ever fed.
    pub at: u64,
    /// The keyframe's presentation timestamp on the 90 kHz clock, if the PES
    /// carried one. Paired with [`Scanner::latest_video_pts`], this gives the
    /// content duration buffered after the keyframe.
    pub pts: Option<u64>,
}

/// What the packets read so far have told.
#[verifier::ext_equal]
pub struct Known {
    /// The PAT section in progress.
    pub pat: Seq<u8>,
    /// The PMT section in progress.
    pub pmt: Seq<u8>,
    pub pmt_pid: Option<u16>,
    pub pmt_seen: bool,
    pub video: Option<psi::VideoView>,
    pub audio: Option<(u16, psi::AudioView)>,
    /// The most recent presentation timestamp seen on the video PID.
    pub latest_pts: Option<u64>,
}

/// The payload of a transport packet, if it carries one.
pub open spec fn payload_of(p: Seq<u8>) -> Option<Seq<u8>> {
    let control = p[3] as int / 16 % 4;
    let off: int = if control >= 2 {
        5 + p[4]
    } else {
        4
    };
    if control % 2 == 0 || off >= PACKET {
        None
    } else {
        Some(p.subrange(off, PACKET as int))
    }
}

/// Whether a payload begins in this packet.
pub open spec fn starts_unit(p: Seq<u8>) -> bool {
    p[1] as int / 64 % 2 == 1
}

/// Whether the adaptation field carries the random_access_indicator.
pub open spec fn random_access(p: Seq<u8>) -> bool {
    p[3] as int / 16 % 4 >= 2 && p[4] > 0 && p[5] as int / 64 % 2 == 1
}

/// What an audio or video packet that starts a PES tells.
pub open spec fn pes_after(k: Known, p: Seq<u8>, payload: Seq<u8>) -> (
    Known,
    Option<Option<u64>>,
) {
    let pid = psi::pid_at(p, 1);
    if k.audio == Some((pid, psi::AudioView::MpegLayer)) {
        match pes::layer_of(payload) {
            Some(name) => (
                Known { audio: Some((pid, psi::AudioView::Known(name))), ..k },
                None,
            ),
            None => (k, None),
        }
    } else if k.video matches Some(v) && v.pid == pid {
        let pts = pes::pts_of(payload);
        let is_keyframe = match pes::keyframe_of(k.video->0.codec, payload) {
            Some(settled) => settled,
            None => random_access(p),
        };
        (
            if pts is Some {
                Known { latest_pts: pts, ..k }
            } else {
                k
            },
            if is_keyframe {
                Some(pts)
            } else {
                None
            },
        )
    } else {
        (k, None)
    }
}

/// What one packet tells: the knowledge behind it, and, if it begins a video
/// keyframe, that keyframe's timestamp, if it has one.
#[verifier::opaque]
pub open spec fn packet_after(k: Known, p: Seq<u8>) -> (Known, Option<Option<u64>>) {
    let pid = psi::pid_at(p, 1);
    match payload_of(p) {
        None => (k, None),
        Some(payload) => if pid == PAT_PID {
            let (part, section) = psi::section_after(k.pat, starts_unit(p), payload);
            (
                Known {
                    pat: part,
                    pmt_pid: match (k.pmt_pid, section) {
                        (None, Some(s)) => psi::pmt_pid_in(s),
                        _ => k.pmt_pid,
                    },
                    ..k
                },
                None,
            )
        } else if Some(pid) == k.pmt_pid {
            let (part, section) = psi::section_after(k.pmt, starts_unit(p), payload);
            // A PMT repeats several times a second; the first one settles it.
            if section is Some && psi::is_pmt(section->0) && !k.pmt_seen {
                (
                    Known {
                        pmt: part,
                        pmt_seen: true,
                        video: psi::first_video(psi::entries_in(section->0)),
                        audio: psi::first_audio(psi::entries_in(section->0)),
                        ..k
                    },
                    None,
                )
            } else {
                (Known { pmt: part, ..k }, None)
            }
        } else if starts_unit(p) {
            pes_after(k, p, payload)
        } else {
            (k, None)
        },
    }
}

/// What the program carries, once that is settled: the PMT has been seen and
/// the first audio stream, if any, has a name.
pub open spec fn program_of(k: Known) -> Option<ProgramView> {
    let video = match k.video {
        Some(v) => Some(v.name),
        None => None,
    };
    if !k.pmt_seen {
        None
    } else {
        match k.audio {
            None => Some(ProgramView { video, audio: None }),
            Some((_, psi::AudioView::Known(name))) => Some(
                ProgramView { video, audio: Some(name) },
            ),
            _ => None,
        }
    }
}

/// Whether a packet stands at `i`: a whole one that begins with a sync byte
/// and, where that is in sight, is followed by another.
pub open spec fn packet_at(buf: Seq<u8>, i: int) -> bool {
    &&& i + PACKET <= buf.len()
    &&& buf[i] == SYNC
    &&& i + PACKET < buf.len() ==> buf[i + PACKET] == SYNC
}

/// What reading a buffer from `i` on leads to.
pub struct Walk {
    /// What is known behind it.
    pub known: Known,
    /// The keyframes in it, with offsets counted from the buffer's beginning.
    pub found: Seq<(int, Option<u64>)>,
    /// Where the packets end.
    pub end: int,
}

/// Read packets from `i` on, resynchronising a byte at a time, for as long as
/// a whole packet is there.
pub open spec fn walk(k: Known, buf: Seq<u8>, i: int) -> Walk
    decreases buf.len() - i,
{
    if i + PACKET > buf.len() {
        Walk { known: k, found: Seq::empty(), end: i }
    } else if !packet_at(buf, i) {
        walk(k, buf, i + 1)
    } else {
        let (after, keyframe) = packet_after(k, buf.subrange(i, i + PACKET));
        let rest = walk(after, buf, i + PACKET);
        Walk {
            found: match keyframe {
                Some(pts) => seq![(i, pts)] + rest.found,
                None => rest.found,
            },
            ..rest
        }
    }
}

/// Keyframes with their offsets counted from `base` bytes before the buffer.
pub open spec fn keyframes(found: Seq<(int, Option<u64>)>, base: int) -> Seq<Keyframe> {
    found.map_values(
        |f: (int, Option<u64>)| Keyframe { at: (base + f.0) as u64, pts: f.1 },
    )
}

/// The state of a scanner.
#[verifier::ext_equal]
pub struct ScannerView {
    /// Bytes after the last complete packet.
    pub carry: Seq<u8>,
    /// Absolute offset of the first of them.
    pub pos: int,
    pub known: Known,
}

impl ScannerView {
    /// The bytes that a feed of `data` works on.
    pub open spec fn buffer(self, data: Seq<u8>) -> Seq<u8> {
        self.carry + data
    }

    /// The state behind a feed of `data`.
    pub open spec fn fed(self, data: Seq<u8>) -> ScannerView {
        let w = walk(self.known, self.buffer(data), 0);
        ScannerView {
            carry: self.buffer(data).skip(w.end),
            pos: self.pos + w.end,
            known: w.known,
        }
    }

    /// The keyframes that a feed of `data` reports.
    pub open spec fn reported(self, data: Seq<u8>) -> Seq<Keyframe> {
        keyframes(walk(self.known, self.buffer(data), 0).found, self.pos)
    }

    /// How many bytes have been fed.
    pub open spec fn total(self) -> int {
        self.pos + self.carry.len()
    }
}

/// A scanner that has read nothing.
pub open spec fn fresh() -> ScannerView {
    ScannerView {
        carry: Seq::empty(),
        pos: 0,
        known: Known {
            pat: Seq::empty(),
            pmt: Seq::empty(),
            pmt_pid: None,
            pmt_seen: false,
            video: None,
            audio: None,
            latest_pts: None,
        },
    }
}

#[derive(Debug)]
pub struct Scanner {
    /// Bytes after the last complete packet, carried into the next `feed`.
    carry: Vec<u8>,
    /// Absolute offset of `carry[0]`, or of the next byte if `carry` is empty.
    pos: u64,
    pat: Section,
    pmt: Section,
    pmt_pid: Option<u16>,
    pmt_seen: bool,
    video: Option<Video>,
    audio: Option<(u16, Audio)>,
    /// The most recent presentation timestamp seen on the video PID, i.e. the
    /// content clock at the live edge.
    latest_video_pts: Option<u64>,
}

impl View for Scanner {
    type V = ScannerView;

    closed spec fn view(&self) -> ScannerView {
        ScannerView { carry: self.carry@, pos: self.pos as int, known: self.known() }
    }
}

impl Scanner {
    spec fn known(self) -> Known {
        Known {
            pat: self.pat@,
            pmt: self.pmt@,
            pmt_pid: self.pmt_pid,
            pmt_seen: self.pmt_seen,
            video: psi::video_view(self.video),
            audio: psi::audio_view(self.audio),
            latest_pts: self.latest_video_pts,
        }
    }

    pub fn new() -> (r: Self)
        ensures
            r@ == fresh(),
    {
        let r = Scanner {
            carry: Vec::new(),
            pos: 0,
            pat: Section::new(),
            pmt: Section::new(),
            pmt_pid: None,
            pmt_seen: false,
            video: None,
            audio: None,
            latest_video_pts: None,
        };
        assert(r@ =~= fresh());
        r
    }

    /// The program's video codec, once the PMT has been seen.
    pub fn video_codec(&self) -> (r: Option<Codec>)
        ensures
            r == (match self@.known.video {
                Some(v) => Some(v.codec),
                None => None,
            }),
    {
        match &self.video {
            Some(v) => Some(v.codec),
            None => None,
        }
    }

    /// Whether the PMT named a video stream. Known once the PMT is seen.
    pub fn has_video(&self) -> (r: bool)
        ensures
            r == self@.known.video is Some,
    {
        self.video.is_some()
    }

    /// The content clock at the live edge: the newest video PTS seen.
    pub fn latest_video_pts(&self) -> (r: Option<u64>)
        ensures
            r == self@.known.latest_pts,
    {
        self.latest_video_pts
    }

    /// What the program carries, once that is settled: the PMT has been seen
    /// and the first audio stream, if any, has a name. `None` while it is
    /// not, including indefinitely for a first audio stream the scanner
    /// cannot name, which is the caller's cue to fall back to ffprobe.
    pub fn program(&self) -> (r: Option<Program>)
        ensures
            r is Some <==> program_of(self@.known) is Some,
            r matches Some(p) ==> program_of(self@.known) == Some(p@),
    {
        if !self.pmt_seen {
            return None;
        }
        let audio: Option<&'static str> = match &self.audio {
            None => None,
            Some((_, Audio::Known(name))) => Some(*name),
            Some((_, Audio::MpegLayer)) => {
                return None;
            },
            Some((_, Audio::Unknown)) => {
                return None;
            },
        };
        let video: Option<&'static str> = match &self.video {
            Some(v) => Some(v.name),
            None => None,
        };
        Some(Program { video, audio })
    }

    /// Consume `data` and return a [`Keyframe`] for every transport packet
    /// that begins a video keyframe, with offsets counted from the first byte
    /// ever fed.
    ///
    /// Input need not be packet-aligned: the scanner resynchronises on a sync
    /// byte that is followed by another one packet later, as the mpegts demuxer
    /// does, and carries a trailing partial packet into the next call.
    pub fn feed(&mut self, data: &[u8]) -> (r: Vec<Keyframe>)
        requires
            old(self)@.total() + data@.len() <= u64::MAX,
            old(self)@.carry.len() + data@.len() <= usize::MAX,
        ensures
            r@ == old(self)@.reported(data@),
            final(self)@ == old(self)@.fed(data@),
    {
        let ghost v0 = self@;
        let mut owned: Vec<u8> = Vec::new();
        let buf: &[u8] = if self.carry.len() == 0 {
            assert(v0.buffer(data@) =~= data@);
            data
        } else {
            std::mem::swap(&mut owned, &mut self.carry);
            owned.extend_from_slice(data);
            assert(owned@ =~= v0.buffer(data@));
            owned.as_slice()
        };
        let base: u64 = self.pos;
        let mut found: Vec<Keyframe> = Vec::new();
        let mut i: usize = 0;
        let ghost full = walk(v0.known, buf@, 0);
        assert(found@ + keyframes(full.found, v0.pos) =~= keyframes(full.found, v0.pos));
        while buf.len() - i >= PACKET
            invariant
                i <= buf@.len(),
                base == v0.pos,
                base + buf@.len() <= u64::MAX,
                full == walk(v0.known, buf@, 0),
                ({
                    let rest = walk(self.known(), buf@, i as int);
                    &&& rest.known == full.known
                    &&& rest.end == full.end
                    &&& found@ + keyframes(rest.found, v0.pos) == keyframes(full.found, v0.pos)
                }),
            decreases buf.len() - i,
        {
            let ghost here = walk(self.known(), buf@, i as int);
            let next: usize = i + PACKET;
            if buf[i] != SYNC || (next < buf.len() && buf[next] != SYNC) {
                i = i + 1;  // resync a byte at a time
            } else {
                let p = &buf[i..next];
                let ghost before = found@;
                let ghost rest = walk(
                    packet_after(self.known(), p@).0,
                    buf@,
                    next as int,
                );
                let keyframe = self.packet(p);
                match keyframe {
                    Some(pts) => {
                        let k = Keyframe { at: base + i as u64, pts };
                        found.push(k);
                        proof {
                            assert(here.found =~= seq![(i as int, pts)] + rest.found);
                            assert(keyframes(here.found, v0.pos) =~= seq![k] + keyframes(
                                rest.found,
                                v0.pos,
                            ));
                            assert(found@ + keyframes(rest.found, v0.pos) =~= before + keyframes(
                                here.found,
                                v0.pos,
                            ));
                        }
                    },
                    None => {},
                }
                i = next;
            }
        }
        proof {
            let rest = walk(self.known(), buf@, i as int);
            assert(rest.found =~= Seq::empty());
            assert(found@ + keyframes(rest.found, v0.pos) =~= found@);
        }
        let mut carry: Vec<u8> = Vec::new();
        carry.extend_from_slice(&buf[i..buf.len()]);
        assert(carry@ =~= buf@.skip(i as int));
        self.carry = carry;
        self.pos = base + i as u64;
        assert(self@ =~= v0.fed(data@));
        found
    }

    /// Handle one 188-byte packet. `Some(pts)` if it starts a video keyframe,
    /// where `pts` is the keyframe's presentation timestamp if the PES carried
    /// one; `None` otherwise. Updates the live-edge video PTS as a side effect.
    fn packet(&mut self, p: &[u8]) -> (r: Option<Option<u64>>)
        requires
            p@.len() == PACKET,
        ensures
            r == packet_after(old(self).known(), p@).1,
            final(self).known() == packet_after(old(self).known(), p@).0,
            final(self).carry == old(self).carry,
            final(self).pos == old(self).pos,
    {
        proof {
            reveal(packet_after);
        }
        let ghost k = self.known();
        let pid: u16 = (p[1] % 32) as u16 * 256 + p[2] as u16;
        let pusi: bool = p[1] / 64 % 2 == 1;
        let control: u8 = p[3] / 16 % 4;
        let mut off: usize = 4;
        let mut rai: bool = false;
        if control >= 2 {
            let len: usize = p[4] as usize;
            if len > 0 {
                rai = p[5] / 64 % 2 == 1;
            }
            off = 5 + len;
        }
        if control % 2 == 0 || off >= PACKET {
            return None;
        }
        let payload = &p[off..PACKET];

        if pid == PAT_PID {
            match self.pat.feed(pusi, payload) {
                Some(section) => {
                    if self.pmt_pid.is_none() {
                        self.pmt_pid = psi::parse_pat(section.as_slice());
                    }
                },
                None => {},
            }
            assert(self.known() =~= packet_after(k, p@).0);
            return None;
        }
        let is_pmt_pid: bool = match self.pmt_pid {
            Some(pmt_pid) => pmt_pid == pid,
            None => false,
        };
        if is_pmt_pid {
            match self.pmt.feed(pusi, payload) {
                Some(section) => {
                    if !self.pmt_seen {
                        match psi::parse_pmt(section.as_slice()) {
                            Some((video, audio)) => {
                                self.video = video;
                                self.audio = audio;
                                self.pmt_seen = true;
                            },
                            None => {},
                        }
                    }
                },
                None => {},
            }
            assert(self.known() =~= packet_after(k, p@).0);
            return None;
        }
        if !pusi {
            return None;
        }
        let awaits_layer: bool = match &self.audio {
            Some((apid, Audio::MpegLayer)) => *apid == pid,
            _ => false,
        };
        if awaits_layer {
            match mpeg_audio_layer(payload) {
                Some(name) => {
                    self.audio = Some((pid, Audio::Known(name)));
                },
                None => {},
            }
            assert(self.known() =~= packet_after(k, p@).0);
            return None;
        }
        match self.video {
            Some(v) => {
                if v.pid != pid {
                    return None;
                }
                let pts: Option<u64> = pes_pts(payload);
                if pts.is_some() {
                    self.latest_video_pts = pts;
                }
                let is_keyframe: bool = match keyframe(v.codec, payload) {
                    Some(settled) => settled,
                    None => rai,
                };
                assert(self.known() =~= packet_after(k, p@).0);
                if is_keyframe {
                    Some(pts)
                } else {
                    None
                }
            },
            None => None,
        }
    }
}

} // verus!
