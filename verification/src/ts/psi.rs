//! Program tables: section reassembly, the PAT, the PMT, and what its entries
//! are.
use super::pes::Codec;
use crate::mp4::boxes;
use vstd::prelude::*;

verus! {

/// How an audio stream is named.
#[derive(Debug, Clone, Copy)]
pub enum Audio {
    Known(&'static str),
    /// MPEG-1/2 audio (stream types 0x03/0x04): the PMT does not say which
    /// layer, and `mp2` copies on one route while `mp3` copies on another,
    /// so the name waits for a frame header.
    MpegLayer,
    /// A private stream carrying no descriptor this scanner knows. It may be
    /// audio of any kind; ffprobe decides.
    Unknown,
}

/// What a PMT entry is.
#[derive(Debug, Clone, Copy)]
pub enum Kind {
    Video(Codec, &'static str),
    Audio(Audio),
    Other,
}

/// The video stream that keyframes are looked for in.
#[derive(Debug, Clone, Copy)]
pub struct Video {
    pub pid: u16,
    pub codec: Codec,
    pub name: &'static str,
}

#[verifier::ext_equal]
pub enum AudioView {
    Known(Seq<char>),
    MpegLayer,
    Unknown,
}

#[verifier::ext_equal]
pub enum KindView {
    Video(Codec, Seq<char>),
    Audio(AudioView),
    Other,
}

#[verifier::ext_equal]
pub struct VideoView {
    pub pid: u16,
    pub codec: Codec,
    pub name: Seq<char>,
}

impl View for Audio {
    type V = AudioView;

    open spec fn view(&self) -> AudioView {
        match self {
            Audio::Known(name) => AudioView::Known(name@),
            Audio::MpegLayer => AudioView::MpegLayer,
            Audio::Unknown => AudioView::Unknown,
        }
    }
}

impl View for Kind {
    type V = KindView;

    open spec fn view(&self) -> KindView {
        match self {
            Kind::Video(codec, name) => KindView::Video(*codec, name@),
            Kind::Audio(audio) => KindView::Audio(audio@),
            Kind::Other => KindView::Other,
        }
    }
}

impl View for Video {
    type V = VideoView;

    open spec fn view(&self) -> VideoView {
        VideoView { pid: self.pid, codec: self.codec, name: self.name@ }
    }
}

/// The 12-bit length field that a section or a loop entry carries at `i`.
pub open spec fn length_at(b: Seq<u8>, i: int) -> int {
    b[i] as int % 16 * 256 + b[i + 1]
}

/// The 13-bit PID at `i`.
pub open spec fn pid_at(b: Seq<u8>, i: int) -> u16 {
    (b[i] as int % 32 * 256 + b[i + 1]) as u16
}

/// What one packet's payload does to a section in progress: the part gathered
/// so far, and the section if that completes it.
///
/// A payload that starts a section names, by its pointer field, where; one
/// that continues a section that was never seen to start is dropped. One that
/// should start a section but is empty changes nothing.
pub open spec fn section_after(part: Seq<u8>, pusi: bool, payload: Seq<u8>) -> (
    Seq<u8>,
    Option<Seq<u8>>,
) {
    let gathered = if pusi {
        if payload.len() == 0 {
            part
        } else if 1 + payload[0] <= payload.len() {
            payload.skip(1 + payload[0])
        } else {
            Seq::empty()
        }
    } else if part.len() == 0 {
        part
    } else {
        part + payload
    };
    if pusi && payload.len() == 0 || gathered.len() < 3 || gathered.len() < 3 + length_at(
        gathered,
        1,
    ) {
        (gathered, None)
    } else {
        (Seq::empty(), Some(gathered.take(3 + length_at(gathered, 1))))
    }
}

/// Whether `x` is one whole section: as long as its length field says.
pub open spec fn whole_section(x: Seq<u8>) -> bool {
    x.len() >= 3 && x.len() == 3 + length_at(x, 1)
}

/// Parts one after the other.
pub open spec fn concat(parts: Seq<Seq<u8>>) -> Seq<u8>
    decreases parts.len(),
{
    if parts.len() == 0 {
        Seq::empty()
    } else {
        concat(parts.drop_last()) + parts.last()
    }
}

/// The payload that carries part `i` of a section cut into `parts`: the first
/// begins with the pointer field and the bytes it skips, the last ends with
/// padding.
pub open spec fn carrier(
    skipped: Seq<u8>,
    parts: Seq<Seq<u8>>,
    padding: Seq<u8>,
    i: int,
) -> Seq<u8> {
    let body = if i == 0 {
        seq![skipped.len() as u8] + skipped + parts[0]
    } else {
        parts[i]
    };
    if i == parts.len() - 1 {
        body + padding
    } else {
        body
    }
}

/// What is gathered once the first `n` of these payloads have been fed, on top
/// of whatever was held before.
pub open spec fn gathered_after(
    held: Seq<u8>,
    skipped: Seq<u8>,
    parts: Seq<Seq<u8>>,
    padding: Seq<u8>,
    n: int,
) -> Seq<u8>
    decreases n,
{
    if n <= 0 {
        held
    } else {
        section_after(
            gathered_after(held, skipped, parts, padding, n - 1),
            n == 1,
            carrier(skipped, parts, padding, n - 1),
        ).0
    }
}

/// What feeding payload `i` of these gives back.
pub open spec fn given_back(
    held: Seq<u8>,
    skipped: Seq<u8>,
    parts: Seq<Seq<u8>>,
    padding: Seq<u8>,
    i: int,
) -> Option<Seq<u8>> {
    section_after(
        gathered_after(held, skipped, parts, padding, i),
        i == 0,
        carrier(skipped, parts, padding, i),
    ).1
}

/// The parts up to a point are the beginning of what all make.
proof fn lemma_concat_prefix(parts: Seq<Seq<u8>>, n: int)
    requires
        0 <= n <= parts.len(),
    ensures
        concat(parts.take(n)).len() <= concat(parts).len(),
        concat(parts).take(concat(parts.take(n)).len() as int) == concat(parts.take(n)),
    decreases parts.len() - n,
{
    if n == parts.len() {
        assert(parts.take(n) =~= parts);
        assert(concat(parts).take(concat(parts).len() as int) =~= concat(parts));
    } else {
        lemma_concat_prefix(parts, n + 1);
        let more = parts.take(n + 1);
        assert(more.drop_last() =~= parts.take(n));
        let short = concat(parts.take(n));
        assert(concat(more).take(short.len() as int) =~= short);
        assert(concat(parts).take(concat(more).len() as int).take(short.len() as int)
            =~= concat(parts).take(short.len() as int));
    }
}

/// A section comes out whole, however it is cut over packets and whatever was
/// held before: every payload before the one that completes it gives nothing
/// back, and that one gives back exactly the section, without what was skipped
/// before it or padded behind it. Payloads behind that give nothing back.
#[verifier::rlimit(60)]
pub proof fn law_a_cut_section_comes_out_whole(
    held: Seq<u8>,
    skipped: Seq<u8>,
    parts: Seq<Seq<u8>>,
    padding: Seq<u8>,
    i: int,
)
    requires
        skipped.len() <= 255,
        parts.len() > 0,
        parts[0].len() > 0,
        whole_section(concat(parts)),
        0 <= i < parts.len(),
    ensures
        ({
            let x = concat(parts);
            let before = concat(parts.take(i));
            let behind = concat(parts.take(i + 1));
            let given = given_back(held, skipped, parts, padding, i);
            &&& behind.len() < x.len() ==> given is None && gathered_after(
                held,
                skipped,
                parts,
                padding,
                i + 1,
            ) == behind
            &&& before.len() < x.len() && behind.len() == x.len() ==> given == Some(x)
            &&& before.len() == x.len() ==> given is None
            &&& behind.len() == x.len() ==> gathered_after(
                held,
                skipped,
                parts,
                padding,
                i + 1,
            ).len() == 0
        }),
    decreases i,
{
    let x = concat(parts);
    let before = concat(parts.take(i));
    let behind = concat(parts.take(i + 1));
    let payload = carrier(skipped, parts, padding, i);
    lemma_concat_prefix(parts, i);
    lemma_concat_prefix(parts, i + 1);
    assert(parts.take(i + 1).drop_last() =~= parts.take(i));
    if i > 0 {
        law_a_cut_section_comes_out_whole(held, skipped, parts, padding, i - 1);
        lemma_concat_prefix(parts.take(i), 1);
        assert(parts.take(i).take(1) =~= parts.take(1));
    } else {
        assert(parts.take(0) =~= Seq::empty());
    }
    assert(parts.take(1).drop_last() =~= Seq::empty());
    assert(parts.take(1).last() == parts[0]);
    reveal_with_fuel(concat, 2);
    assert(concat(parts.take(1)) =~= parts[0]);
    let last = i == parts.len() - 1;
    let tail = if last {
        padding
    } else {
        Seq::empty()
    };
    assert(last ==> parts.take(i + 1) =~= parts);
    if i == 0 {
        assert(payload.skip(1 + payload[0]) =~= behind + tail);
    } else if before.len() < x.len() {
        assert(before + payload =~= behind + tail);
    }
    if before.len() < x.len() {
        let g = behind + tail;
        assert(behind.len() < x.len() ==> g =~= behind);
        if g.len() >= 3 {
            assert(behind.len() >= 3 || behind.len() == x.len());
            assert(x.take(behind.len() as int)[1] == x[1]);
            assert(x.take(behind.len() as int)[2] == x[2]);
            assert(length_at(g, 1) == length_at(x, 1));
        }
        if behind.len() == x.len() {
            assert(x.take(behind.len() as int) =~= x);
            assert(g.take(x.len() as int) =~= x);
        }
    }
}

/// A payload that continues a section that was never seen to start gives
/// nothing back and is not kept. One that should start a section but is empty
/// gives nothing back and changes nothing.
pub proof fn law_a_continuation_without_a_start_is_dropped(held: Seq<u8>, payload: Seq<u8>)
    ensures
        section_after(Seq::empty(), false, payload) == (Seq::<u8>::empty(), None::<Seq<u8>>),
        section_after(held, true, Seq::empty()) == (held, None::<Seq<u8>>),
{
}

/// PSI section reassembly for one PID. A PMT with many streams and
/// descriptors can outgrow one transport packet.
#[derive(Debug)]
pub struct Section {
    buf: Vec<u8>,
}

impl View for Section {
    type V = Seq<u8>;

    closed spec fn view(&self) -> Seq<u8> {
        self.buf@
    }
}

impl Section {
    pub fn new() -> (r: Self)
        ensures
            r@ == Seq::<u8>::empty(),
    {
        Section { buf: Vec::new() }
    }

    /// Feed one packet's payload; returns the section when it is complete.
    pub fn feed(&mut self, pusi: bool, payload: &[u8]) -> (r: Option<Vec<u8>>)
        ensures
            final(self)@ == section_after(old(self)@, pusi, payload@).0,
            r is Some <==> section_after(old(self)@, pusi, payload@).1 is Some,
            r matches Some(s) ==> section_after(old(self)@, pusi, payload@).1 == Some(s@),
    {
        let ghost part = self.buf@;
        if pusi {
            if payload.len() == 0 {
                return None;
            }
            // The pointer field skips the tail of any previous section.
            let from: usize = 1 + payload[0] as usize;
            self.buf.clear();
            if from > payload.len() {
                return None;
            }
            self.buf.extend_from_slice(&payload[from..payload.len()]);
            assert(self.buf@ =~= payload@.skip(from as int));
        } else if self.buf.len() == 0 {
            return None;  // a continuation of a section we never saw start
        } else {
            self.buf.extend_from_slice(payload);
            assert(self.buf@ =~= part + payload@);
        }
        if self.buf.len() < 3 {
            return None;
        }
        let want: usize = 3 + (self.buf[1] % 16) as usize * 256 + self.buf[2] as usize;
        if self.buf.len() < want {
            return None;
        }
        let mut section: Vec<u8> = Vec::new();
        std::mem::swap(&mut section, &mut self.buf);
        let ghost gathered = section@;
        section.truncate(want);
        assert(section@ =~= gathered.take(want as int));
        Some(section)
    }
}

/// The PID of the first program in a PAT section, from entry `i` on. The last
/// four bytes are the CRC; program 0 is the network PID, not a program.
pub open spec fn first_program(s: Seq<u8>, i: int) -> Option<u16>
    decreases s.len() - i,
{
    if i + 8 > s.len() {
        None
    } else if s[i] != 0 || s[i + 1] != 0 {
        Some(pid_at(s, i + 2))
    } else {
        first_program(s, i + 4)
    }
}

/// The PMT PID that a PAT section names, if it is one.
pub open spec fn pmt_pid_in(s: Seq<u8>) -> Option<u16> {
    if s.len() > 0 && s[0] == 0 {
        first_program(s, 8)
    } else {
        None
    }
}

/// The PMT PID that a PAT section names, if it is one.
pub fn parse_pat(s: &[u8]) -> (r: Option<u16>)
    ensures
        r == pmt_pid_in(s@),
{
    if s.len() == 0 || s[0] != 0 {
        return None;
    }
    if s.len() < 8 {
        return None;
    }
    // Program entries follow the 8-byte header.
    let mut i: usize = 8;
    while s.len() - i >= 8
        invariant
            i <= s@.len(),
            first_program(s@, i as int) == first_program(s@, 8),
            s@.len() > 0,
            s@[0] == 0,
        decreases s.len() - i,
    {
        if s[i] != 0 || s[i + 1] != 0 {
            return Some((s[i + 2] % 32) as u16 * 256 + s[i + 3] as u16);
        }
        i = i + 4;
    }
    None
}

/// What a registration descriptor's four characters say.
pub open spec fn registered(format: int) -> Option<KindView> {
    if format == 0x4143_2D33 {
        Some(KindView::Audio(AudioView::Known("ac3"@)))
    } else if format == 0x4541_4333 {
        Some(KindView::Audio(AudioView::Known("eac3"@)))
    } else if 0x4454_5331 <= format <= 0x4454_5333 {
        Some(KindView::Audio(AudioView::Known("dts"@)))
    } else if format == 0x4F70_7573 {
        Some(KindView::Audio(AudioView::Known("opus"@)))
    } else if format == 0x4845_5643 {
        Some(KindView::Video(Codec::Hevc, "hevc"@))
    } else {
        None
    }
}

/// What the descriptor at `i`, with `len` bytes of data, says. DVB carries
/// AC-3, E-AC-3, DTS, teletext and subtitles as private data, told apart by
/// tag; ATSC and others use a registration descriptor.
pub open spec fn described(d: Seq<u8>, i: int, len: int) -> Option<KindView> {
    let tag = d[i];
    if tag == 0x6A {
        Some(KindView::Audio(AudioView::Known("ac3"@)))
    } else if tag == 0x7A {
        Some(KindView::Audio(AudioView::Known("eac3"@)))
    } else if tag == 0x7B {
        Some(KindView::Audio(AudioView::Known("dts"@)))
    } else if tag == 0x56 || tag == 0x59 {
        Some(KindView::Other)
    } else if tag == 0x05 && len >= 4 {
        registered(boxes::be32(d, i + 2))
    } else {
        None
    }
}

/// What a private stream is, by the first descriptor at or behind `i` that
/// says so.
pub open spec fn private_kind(d: Seq<u8>, i: int) -> KindView
    decreases d.len() - i,
{
    if i + 2 > d.len() || i + 2 + d[i + 1] > d.len() {
        KindView::Audio(AudioView::Unknown)
    } else {
        match described(d, i, d[i + 1] as int) {
            Some(kind) => kind,
            None => private_kind(d, i + 2 + d[i + 1]),
        }
    }
}

/// What a PMT entry is, from its stream type and, for private streams, its
/// descriptors. Names follow ffprobe's `codec_name`.
pub open spec fn kind_of(stream_type: u8, es_info: Seq<u8>) -> KindView {
    if stream_type == 0x01 {
        KindView::Video(Codec::Mpeg2, "mpeg1video"@)
    } else if stream_type == 0x02 {
        KindView::Video(Codec::Mpeg2, "mpeg2video"@)
    } else if stream_type == 0x10 {
        KindView::Video(Codec::Other, "mpeg4"@)
    } else if stream_type == 0x1B {
        KindView::Video(Codec::H264, "h264"@)
    } else if stream_type == 0x24 {
        KindView::Video(Codec::Hevc, "hevc"@)
    } else if stream_type == 0xEA {
        KindView::Video(Codec::Other, "vc1"@)
    } else if stream_type == 0x03 || stream_type == 0x04 {
        KindView::Audio(AudioView::MpegLayer)
    } else if stream_type == 0x0F || stream_type == 0x1C {
        KindView::Audio(AudioView::Known("aac"@))
    } else if stream_type == 0x11 {
        KindView::Audio(AudioView::Known("aac_latm"@))
    } else if stream_type == 0x81 {
        KindView::Audio(AudioView::Known("ac3"@))
    } else if stream_type == 0x87 {
        KindView::Audio(AudioView::Known("eac3"@))
    } else if stream_type == 0x82 || stream_type == 0x85 || stream_type == 0x8A {
        KindView::Audio(AudioView::Known("dts"@))
    } else if stream_type == 0x06 {
        private_kind(es_info, 0)
    } else {
        KindView::Other
    }
}

/// What the descriptor at `i` says.
fn describe(d: &[u8], i: usize, len: usize) -> (r: Option<Kind>)
    requires
        i + 2 + len <= d@.len(),
    ensures
        r is Some <==> described(d@, i as int, len as int) is Some,
        r matches Some(k) ==> described(d@, i as int, len as int) == Some(k@),
{
    assert(i + 2 + len <= d.len());
    let tag: u8 = d[i];
    match tag {
        0x6A => Some(Kind::Audio(Audio::Known("ac3"))),
        0x7A => Some(Kind::Audio(Audio::Known("eac3"))),
        0x7B => Some(Kind::Audio(Audio::Known("dts"))),
        0x56 | 0x59 => Some(Kind::Other),  // teletext, subtitles
        0x05 => {
            if len < 4 {
                return None;
            }
            match boxes::be32_at(d, i + 2) {
                0x4143_2D33 => Some(Kind::Audio(Audio::Known("ac3"))),
                0x4541_4333 => Some(Kind::Audio(Audio::Known("eac3"))),
                0x4454_5331 | 0x4454_5332 | 0x4454_5333 => Some(Kind::Audio(Audio::Known("dts"))),
                0x4F70_7573 => Some(Kind::Audio(Audio::Known("opus"))),
                0x4845_5643 => Some(Kind::Video(Codec::Hevc, "hevc")),
                _ => None,
            }
        },
        _ => None,
    }
}

/// What a PMT entry is, from its stream type and, for private streams, its
/// descriptors. Names follow ffprobe's `codec_name`.
pub fn classify(stream_type: u8, es_info: &[u8]) -> (r: Kind)
    ensures
        r@ == kind_of(stream_type, es_info@),
{
    match stream_type {
        0x01 => Kind::Video(Codec::Mpeg2, "mpeg1video"),
        0x02 => Kind::Video(Codec::Mpeg2, "mpeg2video"),
        0x10 => Kind::Video(Codec::Other, "mpeg4"),
        0x1B => Kind::Video(Codec::H264, "h264"),
        0x24 => Kind::Video(Codec::Hevc, "hevc"),
        0xEA => Kind::Video(Codec::Other, "vc1"),
        0x03 | 0x04 => Kind::Audio(Audio::MpegLayer),
        0x0F | 0x1C => Kind::Audio(Audio::Known("aac")),
        0x11 => Kind::Audio(Audio::Known("aac_latm")),
        0x81 => Kind::Audio(Audio::Known("ac3")),
        0x87 => Kind::Audio(Audio::Known("eac3")),
        0x82 | 0x85 | 0x8A => Kind::Audio(Audio::Known("dts")),
        0x06 => {
            let mut i: usize = 0;
            while es_info.len() - i >= 2
                invariant
                    i <= es_info@.len(),
                    private_kind(es_info@, i as int) == private_kind(es_info@, 0),
                    stream_type == 0x06,
                decreases es_info.len() - i,
            {
                let len: usize = es_info[i + 1] as usize;
                if es_info.len() - i - 2 < len {
                    return Kind::Audio(Audio::Unknown);
                }
                match describe(es_info, i, len) {
                    Some(kind) => {
                        return kind;
                    },
                    None => {},
                }
                i = i + 2 + len;
            }
            Kind::Audio(Audio::Unknown)
        },
        _ => Kind::Other,
    }
}

/// One elementary stream of a PMT.
#[verifier::ext_equal]
pub struct Entry {
    pub pid: u16,
    pub kind: KindView,
}

/// The descriptors of the entry at `i`, as far as they come before the CRC.
pub open spec fn es_info_at(s: Seq<u8>, i: int) -> Seq<u8> {
    let to = i + 5 + length_at(s, i + 3);
    s.subrange(
        i + 5,
        if to <= s.len() - 4 {
            to
        } else {
            s.len() - 4
        },
    )
}

/// The elementary streams of a PMT section from `i` on. The last four bytes
/// are the CRC.
pub open spec fn entries_from(s: Seq<u8>, i: int) -> Seq<Entry>
    decreases s.len() + 0x1000 - i,
{
    if i + 9 > s.len() {
        Seq::empty()
    } else {
        seq![Entry { pid: pid_at(s, i + 1), kind: kind_of(s[i], es_info_at(s, i)) }]
            + entries_from(s, i + 5 + length_at(s, i + 3))
    }
}

/// Whether a section is a PMT.
pub open spec fn is_pmt(s: Seq<u8>) -> bool {
    s.len() >= 12 && s[0] == 2
}

/// The elementary streams of a PMT section, behind its program descriptors.
pub open spec fn entries_in(s: Seq<u8>) -> Seq<Entry> {
    entries_from(s, 12 + length_at(s, 10))
}

/// The first video stream.
pub open spec fn first_video(es: Seq<Entry>) -> Option<VideoView>
    decreases es.len(),
{
    if es.len() == 0 {
        None
    } else {
        match es[0].kind {
            KindView::Video(codec, name) => Some(VideoView { pid: es[0].pid, codec, name }),
            _ => first_video(es.skip(1)),
        }
    }
}

/// The first audio stream.
pub open spec fn first_audio(es: Seq<Entry>) -> Option<(u16, AudioView)>
    decreases es.len(),
{
    if es.len() == 0 {
        None
    } else {
        match es[0].kind {
            KindView::Audio(audio) => Some((es[0].pid, audio)),
            _ => first_audio(es.skip(1)),
        }
    }
}

pub open spec fn video_view(v: Option<Video>) -> Option<VideoView> {
    match v {
        Some(v) => Some(v@),
        None => None,
    }
}

pub open spec fn audio_view(a: Option<(u16, Audio)>) -> Option<(u16, AudioView)> {
    match a {
        Some((pid, audio)) => Some((pid, audio@)),
        None => None,
    }
}

/// The first video and the first audio stream of a PMT section, in PMT order,
/// which is the order ffprobe reports them in. None if it is no PMT.
pub fn parse_pmt(s: &[u8]) -> (r: Option<(Option<Video>, Option<(u16, Audio)>)>)
    ensures
        r is Some <==> is_pmt(s@),
        r matches Some((video, audio)) ==> {
            &&& video_view(video) == first_video(entries_in(s@))
            &&& audio_view(audio) == first_audio(entries_in(s@))
        },
{
    if s.len() < 12 || s[0] != 2 {
        return None;
    }
    let mut video: Option<Video> = None;
    let mut audio: Option<(u16, Audio)> = None;
    let mut i: usize = 12 + (s[10] % 16) as usize * 256 + s[11] as usize;
    while i <= s.len() && s.len() - i >= 9
        invariant
            is_pmt(s@),
            first_video(entries_in(s@)) == (if video is Some {
                video_view(video)
            } else {
                first_video(entries_from(s@, i as int))
            }),
            first_audio(entries_in(s@)) == (if audio is Some {
                audio_view(audio)
            } else {
                first_audio(entries_from(s@, i as int))
            }),
        decreases s.len() + 0x1000 - i,
    {
        let end: usize = s.len() - 4;
        let stream_type: u8 = s[i];
        let pid: u16 = (s[i + 1] % 32) as u16 * 256 + s[i + 2] as u16;
        let es_info_len: usize = (s[i + 3] % 16) as usize * 256 + s[i + 4] as usize;
        let to: usize = if end - (i + 5) < es_info_len {
            end
        } else {
            i + 5 + es_info_len
        };
        let es_info = &s[i + 5..to];
        assert(es_info@ =~= es_info_at(s@, i as int));
        let kind = classify(stream_type, es_info);
        proof {
            let rest = entries_from(s@, i + 5 + es_info_len);
            let e = Entry { pid, kind: kind@ };
            assert(entries_from(s@, i as int) =~= seq![e] + rest);
            assert((seq![e] + rest).skip(1) =~= rest);
        }
        match kind {
            Kind::Video(codec, name) => {
                if video.is_none() {
                    video = Some(Video { pid, codec, name });
                }
            },
            Kind::Audio(a) => {
                if audio.is_none() {
                    audio = Some((pid, a));
                }
            },
            Kind::Other => {},
        }
        // An entry that claims to reach into the CRC or past it is the last.
        i = if end - (i + 5) < es_info_len {
            s.len()
        } else {
            i + 5 + es_info_len
        };
    }
    Some((video, audio))
}

} // verus!
