//! Timestamps, tables and packets as a transport stream lays them out: what is
//! written that way is read back.
use super::pes;
use super::pes::Codec;
use super::psi;
use super::psi::{AudioView, Entry, KindView, VideoView};
use super::{Known, ProgramView};
use vstd::prelude::*;

verus! {

/// The five bytes of a timestamp: a prefix, then bits 32 to 30, 29 to 15 and
/// 14 to 0, each group with a marker bit behind it.
pub open spec fn timestamp(prefix: int, t: int) -> Seq<u8> {
    seq![
        (prefix * 16 + t / 0x4000_0000 * 2 + 1) as u8,
        (t / 0x40_0000 % 256) as u8,
        (t / 0x8000 % 128 * 2 + 1) as u8,
        (t / 0x80 % 256) as u8,
        (t % 128 * 2 + 1) as u8,
    ]
}

/// A PES header with these optional fields, behind the start code and the
/// stream id and length: the flags, the length of the fields, the fields.
pub open spec fn pes_header(id: u8, length: (u8, u8), flags: (u8, u8), fields: Seq<u8>) -> Seq<
    u8,
> {
    seq![0u8, 0, 1, id, length.0, length.1, flags.0, flags.1, fields.len() as u8] + fields
}

/// A timestamp is read back from the header it was written into, whatever
/// else the header says; a header whose flags announce none gives none.
pub proof fn law_a_timestamp_is_read_back(
    id: u8,
    length: (u8, u8),
    flags: (u8, u8),
    prefix: int,
    t: int,
    more: Seq<u8>,
    es: Seq<u8>,
)
    requires
        0 <= prefix < 16,
        0 <= t < 0x2_0000_0000,
    ensures
        ({
            let p = pes_header(id, length, flags, timestamp(prefix, t) + more) + es;
            pes::pts_of(p) == if flags.1 >= 0x80 {
                Some(t as u64)
            } else {
                None
            }
        }),
{
    let p = pes_header(id, length, flags, timestamp(prefix, t) + more) + es;
    let f = timestamp(prefix, t);
    assert(p[0] == 0 && p[1] == 0 && p[2] == 1 && p[7] == flags.1);
    assert(p[9] == f[0] && p[10] == f[1] && p[11] == f[2] && p[12] == f[3] && p[13] == f[4]);
    lemma_groups(prefix, t);
}

/// The groups of bits make the number they were taken from.
#[verifier::rlimit(50)]
proof fn lemma_groups(prefix: int, t: int)
    requires
        0 <= prefix < 16,
        0 <= t < 0x2_0000_0000,
    ensures
        ({
            let f = timestamp(prefix, t);
            f[0] as int / 2 % 8 * 0x4000_0000 + f[1] * 0x40_0000 + f[2] as int / 2 * 0x8000 + f[3]
                * 0x80 + f[4] as int / 2 == t
        }),
{
    let f = timestamp(prefix, t);
    let a = t / 0x4000_0000;
    let b = t / 0x40_0000;
    let c = t / 0x8000;
    let d = t / 0x80;
    vstd::arithmetic::div_mod::lemma_div_denominator(t, 0x80, 256);
    vstd::arithmetic::div_mod::lemma_div_denominator(t, 0x8000, 128);
    vstd::arithmetic::div_mod::lemma_div_denominator(t, 0x40_0000, 256);
    assert(d / 256 == c && c / 128 == b && b / 256 == a);
    assert(0 <= a < 8);
    assert(f[0] as int == prefix * 16 + a * 2 + 1);
    assert(f[0] as int / 2 == prefix * 8 + a);
    assert(f[0] as int / 2 % 8 == a);
    assert(f[2] as int == c % 128 * 2 + 1);
    assert(f[4] as int == t % 128 * 2 + 1);
}

/// What a PES carries is what stands behind its header, to the byte.
pub proof fn law_the_payload_stands_behind_the_header(
    id: u8,
    length: (u8, u8),
    flags: (u8, u8),
    fields: Seq<u8>,
    es: Seq<u8>,
)
    requires
        fields.len() <= 255,
    ensures
        pes::payload_of(pes_header(id, length, flags, fields) + es) == Some(es),
{
    let p = pes_header(id, length, flags, fields) + es;
    assert(p[0] == 0 && p[1] == 0 && p[2] == 1);
    assert(p[8] == fields.len());
    assert(p.skip(9 + p[8]) =~= es);
}

/// A 12-bit length with its four reserved bits before it.
pub open spec fn length_field(n: int) -> Seq<u8> {
    seq![(0xF0 + n / 256) as u8, (n % 256) as u8]
}

/// A 13-bit PID with its three reserved bits before it.
pub open spec fn pid_field(pid: int) -> Seq<u8> {
    seq![(0xE0 + pid / 256) as u8, (pid % 256) as u8]
}

/// One elementary stream as a PMT lists it.
pub struct Listed {
    pub stream_type: u8,
    pub pid: int,
    pub descriptors: Seq<u8>,
}

impl Listed {
    /// Whether its fields fit their places.
    pub open spec fn fits(self) -> bool {
        0 <= self.pid < 0x2000 && self.descriptors.len() < 0x1000
    }

    pub open spec fn bytes(self) -> Seq<u8> {
        seq![self.stream_type] + pid_field(self.pid) + length_field(
            self.descriptors.len() as int,
        ) + self.descriptors
    }

    /// What it is, and where.
    pub open spec fn entry(self) -> Entry {
        Entry { pid: self.pid as u16, kind: psi::kind_of(self.stream_type, self.descriptors) }
    }
}

/// Streams listed one after the other.
pub open spec fn listing(es: Seq<Listed>) -> Seq<u8>
    decreases es.len(),
{
    if es.len() == 0 {
        Seq::empty()
    } else {
        es[0].bytes() + listing(es.skip(1))
    }
}

/// The fields of a listed stream stand where they are looked for.
#[verifier::rlimit(50)]
proof fn lemma_listed(before: Seq<u8>, e: Listed, rest: Seq<u8>)
    requires
        e.fits(),
        rest.len() >= 4,
    ensures
        ({
            let s = before + e.bytes() + rest;
            let at = before.len() as int;
            &&& at + 9 <= s.len()
            &&& e.bytes().len() == 5 + e.descriptors.len()
            &&& s[at] == e.stream_type
            &&& psi::pid_at(s, at + 1) == e.pid as u16
            &&& psi::length_at(s, at + 3) == e.descriptors.len()
            &&& psi::es_info_at(s, at) == e.descriptors
        }),
{
    let b = e.bytes();
    let s = before + b + rest;
    let at = before.len() as int;
    let n = e.descriptors.len() as int;
    assert(b.len() == 5 + n);
    assert(b[0] == e.stream_type);
    assert(b[1] as int == 0xE0 + e.pid / 256 && b[2] as int == e.pid % 256);
    assert(b[3] as int == 0xF0 + n / 256 && b[4] as int == n % 256);
    assert(s[at] == b[0] && s[at + 1] == b[1] && s[at + 2] == b[2] && s[at + 3] == b[3] && s[at + 4]
        == b[4]);
    assert(psi::length_at(s, at + 3) == n);
    assert(psi::es_info_at(s, at) =~= e.descriptors);
}

#[verifier::rlimit(50)]
proof fn lemma_listing(before: Seq<u8>, es: Seq<Listed>, crc: Seq<u8>)
    requires
        crc.len() == 4,
        forall|i: int| 0 <= i < es.len() ==> (#[trigger] es[i]).fits(),
    ensures
        psi::entries_from(before + listing(es) + crc, before.len() as int) == es.map_values(
            |e: Listed| e.entry(),
        ),
    decreases es.len(),
{
    let s = before + listing(es) + crc;
    let at = before.len() as int;
    let want = es.map_values(|e: Listed| e.entry());
    if es.len() == 0 {
        assert(psi::entries_from(s, at) =~= want);
    } else {
        let e = es[0];
        let n = e.descriptors.len() as int;
        let rest = es.skip(1);
        assert(forall|i: int| 0 <= i < rest.len() ==> rest[i] == es[i + 1]);
        lemma_listing(before + e.bytes(), rest, crc);
        assert(s =~= before + e.bytes() + (listing(rest) + crc));
        assert(s =~= (before + e.bytes()) + listing(rest) + crc);
        lemma_listed(before, e, listing(rest) + crc);
        assert(psi::entries_from(s, at) =~= seq![e.entry()] + psi::entries_from(s, at + 5 + n));
        assert(rest.map_values(|e: Listed| e.entry()) =~= want.skip(1));
        assert(seq![e.entry()] + want.skip(1) =~= want);
    }
}

/// A PMT section: its header up to the program descriptors, these, the
/// streams, the checksum.
pub open spec fn pmt_section(
    header: Seq<u8>,
    info: Seq<u8>,
    es: Seq<Listed>,
    crc: Seq<u8>,
) -> Seq<u8> {
    header + length_field(info.len() as int) + info + listing(es) + crc
}

/// A PMT gives exactly the streams that it lists, in order, whatever
/// descriptors the program itself has.
pub proof fn law_a_pmt_gives_the_streams_it_lists(
    header: Seq<u8>,
    info: Seq<u8>,
    es: Seq<Listed>,
    crc: Seq<u8>,
)
    requires
        header.len() == 10,
        info.len() < 0x1000,
        crc.len() == 4,
        forall|i: int| 0 <= i < es.len() ==> (#[trigger] es[i]).fits(),
    ensures
        psi::entries_in(pmt_section(header, info, es, crc)) == es.map_values(
            |e: Listed| e.entry(),
        ),
        psi::is_pmt(pmt_section(header, info, es, crc)) <==> header[0] == 2,
{
    let n = info.len() as int;
    let s = pmt_section(header, info, es, crc);
    let before = header + length_field(n) + info;
    lemma_listing(before, es, crc);
    assert(s =~= before + listing(es) + crc);
    assert(s[10] == length_field(n)[0] && s[11] == length_field(n)[1]);
    assert(s[10] as int == 0xF0 + n / 256 && s[11] as int == n % 256);
    assert(psi::length_at(s, 10) == n);
}

/// The video and the audio of a program are the first that are listed.
pub proof fn law_the_first_listed_stream_of_a_kind_counts(es: Seq<Entry>, i: int)
    requires
        0 <= i < es.len(),
    ensures
        (forall|j: int| 0 <= j < i ==> !((#[trigger] es[j]).kind is Video)) ==> (
        es[i].kind matches KindView::Video(codec, name) ==> psi::first_video(es) == Some(
            VideoView { pid: es[i].pid, codec, name },
        )),
        (forall|j: int| 0 <= j < i ==> !((#[trigger] es[j]).kind is Audio)) ==> (
        es[i].kind matches KindView::Audio(audio) ==> psi::first_audio(es) == Some(
            (es[i].pid, audio),
        )),
    decreases i,
{
    if i > 0 {
        let rest = es.skip(1);
        assert forall|j: int| 0 <= j < i - 1 implies #[trigger] rest[j] == es[j + 1] by {}
        law_the_first_listed_stream_of_a_kind_counts(rest, i - 1);
        assert(!(es[0].kind is Video) ==> psi::first_video(es) == psi::first_video(rest));
        assert(!(es[0].kind is Audio) ==> psi::first_audio(es) == psi::first_audio(rest));
    }
}

/// A program that lists no video has none, and likewise for audio.
pub proof fn law_what_is_not_listed_is_not_there(es: Seq<Entry>)
    ensures
        psi::first_video(es) is Some <==> exists|i: int|
            0 <= i < es.len() && (#[trigger] es[i]).kind is Video,
        psi::first_audio(es) is Some <==> exists|i: int|
            0 <= i < es.len() && (#[trigger] es[i]).kind is Audio,
    decreases es.len(),
{
    if es.len() > 0 {
        let rest = es.skip(1);
        law_what_is_not_listed_is_not_there(rest);
        assert forall|i: int| 0 < i < es.len() implies #[trigger] es[i] == rest[i - 1] by {}
        assert forall|i: int| 0 <= i < rest.len() implies #[trigger] rest[i] == es[i + 1] by {}
        if es[0].kind is Video || es[0].kind is Audio {
            assert(es[0] == es[0]);
        }
    }
}

/// A PAT section: its header, a program number and a PID for each program,
/// the checksum.
pub open spec fn programs(ps: Seq<(int, int)>) -> Seq<u8>
    decreases ps.len(),
{
    if ps.len() == 0 {
        Seq::empty()
    } else {
        seq![(ps[0].0 / 256) as u8, (ps[0].0 % 256) as u8] + pid_field(ps[0].1) + programs(
            ps.skip(1),
        )
    }
}

#[verifier::rlimit(50)]
proof fn lemma_programs(before: Seq<u8>, ps: Seq<(int, int)>, crc: Seq<u8>, i: int)
    requires
        crc.len() == 4,
        0 <= i <= ps.len(),
        forall|j: int|
            #![trigger ps[j]]
            0 <= j < ps.len() ==> 0 <= ps[j].0 < 0x1_0000 && 0 <= ps[j].1 < 0x2000,
        forall|j: int| 0 <= j < i ==> (#[trigger] ps[j]).0 == 0,
        i < ps.len() ==> ps[i].0 != 0,
    ensures
        psi::first_program(before + programs(ps) + crc, before.len() as int) == if i < ps.len() {
            Some(ps[i].1 as u16)
        } else {
            None
        },
    decreases ps.len(),
{
    let s = before + programs(ps) + crc;
    let at = before.len() as int;
    if ps.len() > 0 {
        let p = ps[0];
        let b = seq![(p.0 / 256) as u8, (p.0 % 256) as u8] + pid_field(p.1);
        let rest = ps.skip(1);
        assert(s =~= (before + b) + programs(rest) + crc);
        assert(forall|k: int| 0 <= k < 4 ==> s[at + k] == b[k]);
        assert(s[at] == b[0] && s[at + 1] == b[1] && s[at + 2] == b[2] && s[at + 3] == b[3]);
        assert(b[0] as int == p.0 / 256 && b[1] as int == p.0 % 256);
        assert(b[2] as int == 0xE0 + p.1 / 256 && b[3] as int == p.1 % 256);
        assert(psi::pid_at(s, at + 2) == p.1 as u16);
        if i > 0 {
            assert(forall|j: int| 0 <= j < rest.len() ==> rest[j] == ps[j + 1]);
            lemma_programs(before + b, rest, crc, i - 1);
        }
    }
}

/// A PAT names the PMT of the first program that it lists; number 0, which
/// stands for the network, is none.
pub proof fn law_a_pat_names_its_first_program(
    header: Seq<u8>,
    ps: Seq<(int, int)>,
    crc: Seq<u8>,
    i: int,
)
    requires
        header.len() == 8,
        crc.len() == 4,
        0 <= i <= ps.len(),
        forall|j: int|
            #![trigger ps[j]]
            0 <= j < ps.len() ==> 0 <= ps[j].0 < 0x1_0000 && 0 <= ps[j].1 < 0x2000,
        forall|j: int| 0 <= j < i ==> (#[trigger] ps[j]).0 == 0,
        i < ps.len() ==> ps[i].0 != 0,
    ensures
        psi::pmt_pid_in(header + programs(ps) + crc) == if header[0] == 0 && i < ps.len() {
            Some(ps[i].1 as u16)
        } else {
            None
        },
{
    lemma_programs(header, ps, crc, i);
}

/// A section is as long as the twelve bits behind its table id say.
pub proof fn law_a_section_is_as_long_as_it_says(id: u8, body: Seq<u8>)
    requires
        body.len() < 0x1000,
    ensures
        psi::whole_section(seq![id] + length_field(body.len() as int) + body),
{
    let n = body.len() as int;
    let x = seq![id] + length_field(n) + body;
    assert(x[1] as int == 0xF0 + n / 256 && x[2] as int == n % 256);
}

/// A descriptor: a tag, a length, that many bytes.
pub open spec fn descriptor(tag: u8, data: Seq<u8>) -> Seq<u8> {
    seq![tag, data.len() as u8] + data
}

pub open spec fn descriptors(ds: Seq<(u8, Seq<u8>)>) -> Seq<u8>
    decreases ds.len(),
{
    if ds.len() == 0 {
        Seq::empty()
    } else {
        descriptor(ds[0].0, ds[0].1) + descriptors(ds.skip(1))
    }
}

/// A codec that a registration descriptor names by four characters.
pub open spec fn by_four_characters(data: Seq<u8>) -> Option<KindView> {
    let four = data.take(4);
    if data.len() < 4 {
        None
    } else if four == seq![0x41u8, 0x43, 0x2D, 0x33] {
        Some(KindView::Audio(AudioView::Known("ac3"@)))
    } else if four == seq![0x45u8, 0x41, 0x43, 0x33] {
        Some(KindView::Audio(AudioView::Known("eac3"@)))
    } else if four == seq![0x44u8, 0x54, 0x53, 0x31] || four == seq![0x44u8, 0x54, 0x53, 0x32]
        || four == seq![0x44u8, 0x54, 0x53, 0x33] {
        Some(KindView::Audio(AudioView::Known("dts"@)))
    } else if four == seq![0x4Fu8, 0x70, 0x75, 0x73] {
        Some(KindView::Audio(AudioView::Known("opus"@)))
    } else if four == seq![0x48u8, 0x45, 0x56, 0x43] {
        Some(KindView::Video(Codec::Hevc, "hevc"@))
    } else {
        None
    }
}

/// What one descriptor of a private stream says of it.
pub open spec fn telling(tag: u8, data: Seq<u8>) -> Option<KindView> {
    match tag {
        0x6A => Some(KindView::Audio(AudioView::Known("ac3"@))),
        0x7A => Some(KindView::Audio(AudioView::Known("eac3"@))),
        0x7B => Some(KindView::Audio(AudioView::Known("dts"@))),
        0x56 => Some(KindView::Other),
        0x59 => Some(KindView::Other),
        0x05 => by_four_characters(data),
        _ => None,
    }
}

#[verifier::rlimit(50)]
proof fn lemma_told(before: Seq<u8>, ds: Seq<(u8, Seq<u8>)>, i: int)
    requires
        0 <= i <= ds.len(),
        forall|j: int| 0 <= j < ds.len() ==> (#[trigger] ds[j]).1.len() <= 255,
        forall|j: int| 0 <= j < i ==> telling((#[trigger] ds[j]).0, ds[j].1) is None,
        i < ds.len() ==> telling(ds[i].0, ds[i].1) is Some,
    ensures
        psi::private_kind(before + descriptors(ds), before.len() as int) == if i < ds.len() {
            telling(ds[i].0, ds[i].1)->0
        } else {
            KindView::Audio(AudioView::Unknown)
        },
    decreases ds.len(),
{
    let d = before + descriptors(ds);
    let at = before.len() as int;
    if ds.len() > 0 {
        let (tag, data) = ds[0];
        let b = descriptor(tag, data);
        let rest = ds.skip(1);
        assert(d =~= (before + b) + descriptors(rest));
        assert(forall|k: int| 0 <= k < b.len() ==> d[at + k] == b[k]);
        assert(d[at] == b[0] && d[at + 1] == b[1]);
        assert(b[0] == tag && b[1] == data.len());
        if data.len() >= 4 {
            assert(d[at + 2] == b[2] && d[at + 3] == b[3] && d[at + 4] == b[4] && d[at + 5]
                == b[5]);
            lemma_four(data);
            assert(b[2] == data[0] && b[3] == data[1] && b[4] == data[2] && b[5] == data[3]);
        }
        assert(psi::described(d, at, data.len() as int) == telling(tag, data));
        if i > 0 {
            assert(forall|j: int| 0 <= j < rest.len() ==> rest[j] == ds[j + 1]);
            lemma_told(before + b, rest, i - 1);
        }
    }
}

/// Four characters are the number that they are compared as.
proof fn lemma_four(data: Seq<u8>)
    requires
        data.len() >= 4,
    ensures
        by_four_characters(data) == psi::registered(
            data[0] * 0x100_0000 + data[1] * 0x1_0000 + data[2] * 0x100 + data[3],
        ),
{
    lemma_same_four(data, 0x41, 0x43, 0x2D, 0x33);
    lemma_same_four(data, 0x45, 0x41, 0x43, 0x33);
    lemma_same_four(data, 0x44, 0x54, 0x53, 0x31);
    lemma_same_four(data, 0x44, 0x54, 0x53, 0x32);
    lemma_same_four(data, 0x44, 0x54, 0x53, 0x33);
    lemma_same_four(data, 0x4F, 0x70, 0x75, 0x73);
    lemma_same_four(data, 0x48, 0x45, 0x56, 0x43);
}

proof fn lemma_same_four(data: Seq<u8>, a: u8, b: u8, c: u8, d: u8)
    requires
        data.len() >= 4,
    ensures
        data.take(4) == seq![a, b, c, d] <==> data[0] * 0x100_0000 + data[1] * 0x1_0000 + data[2]
            * 0x100 + data[3] == a * 0x100_0000 + b * 0x1_0000 + c * 0x100 + d,
{
    let f = data.take(4);
    let g = seq![a, b, c, d];
    if f == g {
        assert(f[0] == g[0] && f[1] == g[1] && f[2] == g[2] && f[3] == g[3]);
    } else if data[0] == a && data[1] == b && data[2] == c && data[3] == d {
        assert(f =~= g);
    }
}

/// What a private stream is, the first of its descriptors that tells says;
/// where none does it may be audio of any kind.
pub proof fn law_the_first_descriptor_that_tells_counts(ds: Seq<(u8, Seq<u8>)>, i: int)
    requires
        0 <= i <= ds.len(),
        forall|j: int| 0 <= j < ds.len() ==> (#[trigger] ds[j]).1.len() <= 255,
        forall|j: int| 0 <= j < i ==> telling((#[trigger] ds[j]).0, ds[j].1) is None,
        i < ds.len() ==> telling(ds[i].0, ds[i].1) is Some,
    ensures
        psi::kind_of(0x06, descriptors(ds)) == if i < ds.len() {
            telling(ds[i].0, ds[i].1)->0
        } else {
            KindView::Audio(AudioView::Unknown)
        },
{
    lemma_told(Seq::empty(), ds, i);
    assert(Seq::<u8>::empty() + descriptors(ds) =~= descriptors(ds));
}

/// The stream types that name a codec by themselves name it whatever their
/// descriptors say, as ffprobe would.
pub proof fn law_a_stream_type_names_its_codec(d: Seq<u8>)
    ensures
        psi::kind_of(0x01, d) == KindView::Video(Codec::Mpeg2, "mpeg1video"@),
        psi::kind_of(0x02, d) == KindView::Video(Codec::Mpeg2, "mpeg2video"@),
        psi::kind_of(0x10, d) == KindView::Video(Codec::Other, "mpeg4"@),
        psi::kind_of(0x1B, d) == KindView::Video(Codec::H264, "h264"@),
        psi::kind_of(0x24, d) == KindView::Video(Codec::Hevc, "hevc"@),
        psi::kind_of(0xEA, d) == KindView::Video(Codec::Other, "vc1"@),
        psi::kind_of(0x03, d) == KindView::Audio(AudioView::MpegLayer),
        psi::kind_of(0x04, d) == KindView::Audio(AudioView::MpegLayer),
        psi::kind_of(0x0F, d) == KindView::Audio(AudioView::Known("aac"@)),
        psi::kind_of(0x1C, d) == KindView::Audio(AudioView::Known("aac"@)),
        psi::kind_of(0x11, d) == KindView::Audio(AudioView::Known("aac_latm"@)),
        psi::kind_of(0x81, d) == KindView::Audio(AudioView::Known("ac3"@)),
        psi::kind_of(0x87, d) == KindView::Audio(AudioView::Known("eac3"@)),
        psi::kind_of(0x82, d) == KindView::Audio(AudioView::Known("dts"@)),
        psi::kind_of(0x85, d) == KindView::Audio(AudioView::Known("dts"@)),
        psi::kind_of(0x8A, d) == KindView::Audio(AudioView::Known("dts"@)),
        forall|t: u8|
            #![trigger psi::kind_of(t, d)]
            !(psi::kind_of(t, d) is Other) ==> 0x01 <= t <= 0x04 || t == 0x06 || t == 0x0F || t
                == 0x10 || t == 0x11 || t == 0x1B || t == 0x1C || t == 0x24 || t == 0x81 || t
                == 0x82 || t == 0x85 || t == 0x87 || t == 0x8A || t == 0xEA,
{
}

/// Whether no start code `00 00 01` begins among the first `n` bytes.
pub open spec fn quiet(es: Seq<u8>, n: int) -> bool {
    forall|i: int|
        #![trigger es[i]]
        0 <= i < n && i + 3 <= es.len() ==> !(es[i] == 0 && es[i + 1] == 0 && es[i + 2] == 1)
}

proof fn lemma_quiet(codec: Codec, es: Seq<u8>, i: int, n: int)
    requires
        0 <= i <= n <= es.len(),
        quiet(es, n),
    ensures
        pes::first_verdict(codec, es, i) == pes::first_verdict(codec, es, n),
    decreases n - i,
{
    if i < n && i + 4 <= es.len() {
        assert(!pes::start_code(es, i)) by {
            assert(es[i] == es[i]);
        }
        lemma_quiet(codec, es, i + 1, n);
    }
}

#[verifier::rlimit(50)]
proof fn lemma_cut_verdict(codec: Codec, a: Seq<u8>, b: Seq<u8>, i: int)
    requires
        0 <= i,
    ensures
        pes::first_verdict(codec, a + b, a.len() + i) == pes::first_verdict(codec, b, i),
    decreases b.len() - i,
{
    let s = a + b;
    let at = a.len() + i;
    if i + 4 <= b.len() {
        assert(forall|k: int| 0 <= k < b.len() ==> s[a.len() + k] == b[k]);
        assert(s[at] == b[i] && s[at + 1] == b[i + 1] && s[at + 2] == b[i + 2] && s[at + 3] == b[i
            + 3]);
        assert(i + 5 < b.len() ==> s[at + 5] == b[i + 5]);
        assert(pes::start_code(s, at) == pes::start_code(b, i));
        assert(pes::verdict(codec, s, at) == pes::verdict(codec, b, i));
        lemma_cut_verdict(codec, a, b, i + 1);
        lemma_cut_verdict(codec, a, b, i + 4);
    }
}

/// Bytes up to a start code, the start code, the byte that says what it
/// begins, and what follows.
pub open spec fn unit(before: Seq<u8>, b: u8, rest: Seq<u8>) -> Seq<u8> {
    before + seq![0u8, 0, 1, b] + rest
}

/// What the first start code settles, or else what follows it does.
proof fn lemma_unit(codec: Codec, before: Seq<u8>, b: u8, rest: Seq<u8>)
    requires
        quiet(unit(before, b, rest), before.len() as int),
    ensures
        ({
            let es = unit(before, b, rest);
            let own = pes::verdict(codec, es, before.len() as int);
            &&& pes::first_verdict(codec, es, 0) == if own is Some {
                own
            } else {
                pes::first_verdict(codec, rest, 0)
            }
            &&& es[before.len() as int + 3] == b
            &&& rest.len() >= 2 ==> es[before.len() as int + 5] == rest[1]
            &&& es.len() == before.len() + 4 + rest.len()
        }),
{
    let es = unit(before, b, rest);
    let n = before.len() as int;
    let head = before + seq![0u8, 0, 1, b];
    assert(es =~= head + rest);
    lemma_quiet(codec, es, 0, n);
    assert(pes::start_code(es, n));
    lemma_cut_verdict(codec, head, rest, 0);
}

/// Whether a PES is a keyframe, its elementary stream says.
pub proof fn law_the_elementary_stream_settles_a_keyframe(
    codec: Codec,
    id: u8,
    length: (u8, u8),
    flags: (u8, u8),
    fields: Seq<u8>,
    es: Seq<u8>,
)
    requires
        fields.len() <= 255,
    ensures
        pes::keyframe_of(codec, pes_header(id, length, flags, fields) + es)
            == pes::first_verdict(codec, es, 0),
        es.len() < 4 ==> pes::first_verdict(codec, es, 0) is None,
        quiet(es, es.len() as int) ==> pes::first_verdict(codec, es, 0) is None,
{
    law_the_payload_stands_behind_the_header(id, length, flags, fields, es);
    if quiet(es, es.len() as int) {
        lemma_quiet(codec, es, 0, es.len() as int);
    }
}

/// An H.264 unit settles it by its type, the low five bits behind the start
/// code: an IDR slice (5) or a parameter set (7) is a keyframe, another slice
/// (1 to 4) is none. Any other leaves it to what follows.
pub proof fn law_an_h264_unit_settles_by_its_type(
    before: Seq<u8>,
    high: int,
    t: int,
    rest: Seq<u8>,
)
    requires
        0 <= high < 8,
        0 <= t < 32,
        quiet(unit(before, (high * 32 + t) as u8, rest), before.len() as int),
    ensures
        pes::first_verdict(Codec::H264, unit(before, (high * 32 + t) as u8, rest), 0) == if t == 5
            || t == 7 {
            Some(true)
        } else if 1 <= t && t <= 4 {
            Some(false)
        } else {
            pes::first_verdict(Codec::H264, rest, 0)
        },
{
    let b = (high * 32 + t) as u8;
    assert(b as int == high * 32 + t);
    assert(b % 32 == t);
    lemma_unit(Codec::H264, before, b, rest);
}

/// An HEVC unit settles it by its type, the six bits behind the first: a
/// random-access picture (16 to 21) or a parameter set (32, 33) is a keyframe,
/// another slice (0 to 9) is none. Any other leaves it to what follows.
pub proof fn law_an_hevc_unit_settles_by_its_type(
    before: Seq<u8>,
    top: int,
    t: int,
    low: int,
    rest: Seq<u8>,
)
    requires
        0 <= top < 2,
        0 <= t < 64,
        0 <= low < 2,
        quiet(unit(before, (top * 128 + t * 2 + low) as u8, rest), before.len() as int),
    ensures
        pes::first_verdict(Codec::Hevc, unit(before, (top * 128 + t * 2 + low) as u8, rest), 0)
            == if 16 <= t && t <= 21 || t == 32 || t == 33 {
            Some(true)
        } else if t <= 9 {
            Some(false)
        } else {
            pes::first_verdict(Codec::Hevc, rest, 0)
        },
{
    let b = (top * 128 + t * 2 + low) as u8;
    assert(b as int == top * 128 + t * 2 + low);
    assert(b as int / 2 == top * 64 + t);
    assert(b as int / 2 % 64 == t);
    lemma_unit(Codec::Hevc, before, b, rest);
}

/// An MPEG-2 start code settles it by what it begins: a sequence or a group of
/// pictures is a keyframe; a picture is one if it is coded as type 1, the
/// three bits behind its ten bits of temporal reference. A picture cut off
/// before them, and all else, leaves it to what follows.
pub proof fn law_an_mpeg2_start_code_settles_by_what_it_begins(
    before: Seq<u8>,
    b: u8,
    rest: Seq<u8>,
    reference: int,
    kind: int,
    low: int,
)
    requires
        quiet(unit(before, b, rest), before.len() as int),
        0 <= reference < 4,
        0 <= kind < 8,
        0 <= low < 8,
        b == 0 && rest.len() >= 2 ==> rest[1] == reference * 64 + kind * 8 + low,
    ensures
        pes::first_verdict(Codec::Mpeg2, unit(before, b, rest), 0) == if b == 0xB3 || b == 0xB8 {
            Some(true)
        } else if b == 0 && rest.len() >= 2 {
            Some(kind == 1)
        } else {
            pes::first_verdict(Codec::Mpeg2, rest, 0)
        },
{
    lemma_unit(Codec::Mpeg2, before, b, rest);
    let x = reference * 64 + kind * 8 + low;
    assert(x / 8 == reference * 8 + kind);
    assert(x / 8 % 8 == kind);
}

/// An MPEG audio frame header names its layer: eleven set bits, a version, a
/// layer, then a bit rate and a sample rate. Reserved values of any of these
/// make it no header.
pub proof fn law_a_frame_header_names_its_layer(
    es: Seq<u8>,
    i: int,
    sync: int,
    version: int,
    layer: int,
    protection: int,
    bitrate: int,
    rate: int,
    low: int,
)
    requires
        0 <= i,
        i + 3 <= es.len(),
        0 <= sync < 8,
        0 <= version < 4,
        0 <= layer < 4,
        0 <= protection < 2,
        0 <= bitrate < 16,
        0 <= rate < 4,
        0 <= low < 4,
        es[i + 1] == sync * 32 + version * 8 + layer * 2 + protection,
        es[i + 2] == bitrate * 16 + rate * 4 + low,
    ensures
        pes::header_layer(es, i) == if es[i] == 0xFF && sync == 7 && version != 1 && bitrate != 15
            && rate != 3 {
            if layer == 3 {
                Some("mp1"@)
            } else if layer == 2 {
                Some("mp2"@)
            } else if layer == 1 {
                Some("mp3"@)
            } else {
                None
            }
        } else {
            None
        },
{
    let a = es[i + 1] as int;
    let b = es[i + 2] as int;
    assert(a / 32 == sync);
    assert(a / 8 == sync * 4 + version);
    assert(a / 8 % 4 == version);
    assert(a / 2 == sync * 16 + version * 4 + layer);
    assert(a / 2 % 4 == layer);
    assert(b / 16 == bitrate);
    assert(b / 4 == bitrate * 4 + rate);
    assert(b / 4 % 4 == rate);
}

/// The first frame header in a PES names the layer, wherever it stands; without
/// one there is no name.
pub proof fn law_the_first_frame_header_counts(es: Seq<u8>, n: int)
    requires
        0 <= n <= es.len(),
        forall|i: int|
            #![trigger es[i]]
            0 <= i < n && i + 3 <= es.len() ==> pes::header_layer(es, i) is None,
    ensures
        n + 3 <= es.len() && pes::header_layer(es, n) is Some ==> pes::first_layer(es, 0)
            == pes::header_layer(es, n),
        n + 3 > es.len() ==> pes::first_layer(es, 0) is None,
{
    lemma_no_header(es, 0, n);
}

/// The layer of an audio PES is looked for in its elementary stream.
pub proof fn law_the_elementary_stream_names_the_layer(
    id: u8,
    length: (u8, u8),
    flags: (u8, u8),
    fields: Seq<u8>,
    es: Seq<u8>,
)
    requires
        fields.len() <= 255,
    ensures
        pes::layer_of(pes_header(id, length, flags, fields) + es) == pes::first_layer(es, 0),
{
    law_the_payload_stands_behind_the_header(id, length, flags, fields, es);
}

proof fn lemma_no_header(es: Seq<u8>, i: int, n: int)
    requires
        0 <= i <= n <= es.len(),
        forall|j: int|
            #![trigger es[j]]
            0 <= j < n && j + 3 <= es.len() ==> pes::header_layer(es, j) is None,
    ensures
        pes::first_layer(es, i) == pes::first_layer(es, n),
    decreases n - i,
{
    if i < n && i + 3 <= es.len() {
        assert(es[i] == es[i]);
        lemma_no_header(es, i + 1, n);
    }
}

/// A transport packet, field by field.
pub struct Packet {
    pub error: bool,
    /// Whether a payload unit starts in it.
    pub starts: bool,
    pub priority: bool,
    pub pid: int,
    pub scrambling: int,
    /// The adaptation field behind its length, if there is one.
    pub adaptation: Option<Seq<u8>>,
    pub payload: Option<Seq<u8>>,
    pub counter: int,
}

pub open spec fn flag(set: bool, weight: int) -> int {
    if set {
        weight
    } else {
        0
    }
}

impl Packet {
    pub open spec fn bytes(self) -> Seq<u8> {
        seq![
            0x47u8,
            (flag(self.error, 128) + flag(self.starts, 64) + flag(self.priority, 32) + self.pid
                / 256) as u8,
            (self.pid % 256) as u8,
            (self.scrambling * 64 + flag(self.adaptation is Some, 32) + flag(
                self.payload is Some,
                16,
            ) + self.counter) as u8,
        ] + match self.adaptation {
            Some(a) => seq![a.len() as u8] + a,
            None => Seq::empty(),
        } + match self.payload {
            Some(p) => p,
            None => Seq::empty(),
        }
    }

    /// Whether its fields fit their places, and fill 188 bytes.
    pub open spec fn fits(self) -> bool {
        &&& 0 <= self.pid < 0x2000
        &&& 0 <= self.scrambling < 4
        &&& 0 <= self.counter < 16
        &&& self.payload matches Some(p) ==> p.len() > 0
        &&& self.bytes().len() == 188
    }

    /// Whether its adaptation field carries the random_access_indicator, the
    /// second bit of its flags.
    pub open spec fn random_access(self) -> bool {
        self.adaptation matches Some(a) && a.len() > 0 && (a[0] as int % 128 >= 64)
    }
}

/// A packet is read as it was written: its PID, whether a unit starts in it,
/// its payload to the byte, and its random_access_indicator.
#[verifier::rlimit(50)]
pub proof fn law_a_packet_is_read_back(p: Packet)
    requires
        p.fits(),
    ensures
        psi::pid_at(p.bytes(), 1) == p.pid,
        super::starts_unit(p.bytes()) == p.starts,
        super::payload_of(p.bytes()) == p.payload,
        super::random_access(p.bytes()) == p.random_access(),
{
    let b = p.bytes();
    let x = flag(p.error, 128) + flag(p.starts, 64) + flag(p.priority, 32) + p.pid / 256;
    let c = p.scrambling * 64 + flag(p.adaptation is Some, 32) + flag(p.payload is Some, 16)
        + p.counter;
    assert(b[1] as int == x && b[2] as int == p.pid % 256 && b[3] as int == c);
    assert(x % 32 == p.pid / 256);
    assert(x / 64 == flag(p.error, 2) + flag(p.starts, 1));
    assert(x / 64 % 2 == flag(p.starts, 1));
    assert(c / 16 == p.scrambling * 4 + flag(p.adaptation is Some, 2) + flag(
        p.payload is Some,
        1,
    ));
    assert(c / 16 % 4 == flag(p.adaptation is Some, 2) + flag(p.payload is Some, 1));
    if let Some(a) = p.adaptation {
        assert(b[4] == a.len());
        if a.len() > 0 {
            assert(b[5] == a[0]);
            assert((a[0] as int % 128 >= 64) == (a[0] as int / 64 % 2 == 1));
        }
    }
    if let Some(load) = p.payload {
        let off = 188 - load.len();
        assert(b.subrange(off, 188) =~= load);
    }
}

/// Whether a stream on this PID is one that nothing is known of.
pub open spec fn unknown_pid(k: Known, pid: int) -> bool {
    &&& pid != 0
    &&& k.pmt_pid != Some(pid as u16)
    &&& k.video matches Some(v) ==> v.pid != pid
    &&& k.audio matches Some((a, _)) ==> a != pid
}

/// A packet without a payload, one of a stream that nothing is known of, and
/// one that goes on with a PES change nothing and begin no keyframe.
pub proof fn law_other_packets_change_nothing(k: Known, p: Packet)
    requires
        p.fits(),
        p.payload is None || unknown_pid(k, p.pid) || (!p.starts && p.pid != 0 && k.pmt_pid
            != Some(p.pid as u16)),
    ensures
        super::packet_after(k, p.bytes()) == (k, None::<Option<u64>>),
{
    reveal(super::packet_after);
    law_a_packet_is_read_back(p);
}

/// A packet that starts a PES on the video PID moves the content clock to its
/// timestamp, if it has one, and begins a keyframe if its elementary stream
/// says so, or where that settles nothing, if its random_access_indicator
/// does. Nothing else changes.
pub proof fn law_a_video_packet_moves_the_clock(k: Known, p: Packet, payload: Seq<u8>)
    requires
        p.fits(),
        p.payload == Some(payload),
        p.starts,
        p.pid != 0,
        k.pmt_pid != Some(p.pid as u16),
        k.video matches Some(v) && v.pid == p.pid,
        k.audio != Some((p.pid as u16, AudioView::MpegLayer)),
    ensures
        ({
            let (after, keyframe) = super::packet_after(k, p.bytes());
            let pts = pes::pts_of(payload);
            &&& after == (Known {
                latest_pts: if pts is Some {
                    pts
                } else {
                    k.latest_pts
                },
                ..k
            })
            &&& keyframe == match pes::keyframe_of(k.video->0.codec, payload) {
                Some(true) => Some(pts),
                Some(false) => None,
                None => if p.random_access() {
                    Some(pts)
                } else {
                    None
                },
            }
        }),
{
    reveal(super::packet_after);
    law_a_packet_is_read_back(p);
}

/// A packet that starts a PES on the PID of an audio stream whose layer is not
/// known yet names it, if a frame header in it does. Nothing else changes.
pub proof fn law_an_audio_packet_names_the_layer(k: Known, p: Packet, payload: Seq<u8>)
    requires
        p.fits(),
        p.payload == Some(payload),
        p.starts,
        p.pid != 0,
        k.pmt_pid != Some(p.pid as u16),
        k.audio == Some((p.pid as u16, AudioView::MpegLayer)),
    ensures
        super::packet_after(k, p.bytes()) == (
            match pes::layer_of(payload) {
                Some(name) => Known {
                    audio: Some((p.pid as u16, AudioView::Known(name))),
                    ..k
                },
                None => k,
            },
            None::<Option<u64>>,
        ),
{
    reveal(super::packet_after);
    law_a_packet_is_read_back(p);
}

/// The payload of one packet that holds a whole section: nothing skipped, the
/// section, padding.
proof fn lemma_whole_in_one(held: Seq<u8>, x: Seq<u8>, padding: Seq<u8>)
    requires
        psi::whole_section(x),
    ensures
        psi::section_after(held, true, seq![0u8] + x + padding) == (
            Seq::<u8>::empty(),
            Some(x),
        ),
{
    let payload = seq![0u8] + x + padding;
    let g = payload.skip(1);
    assert(payload[0] == 0);
    assert(g =~= x + padding);
    assert(g[1] == x[1] && g[2] == x[2]);
    assert(g.take(x.len() as int) =~= x);
}

/// A packet on PID 0 that holds a PAT names the PMT; the first that does
/// settles it.
pub proof fn law_a_pat_packet_names_the_pmt(k: Known, p: Packet, x: Seq<u8>, padding: Seq<u8>)
    requires
        p.fits(),
        p.starts,
        p.pid == 0,
        p.payload == Some(seq![0u8] + x + padding),
        psi::whole_section(x),
    ensures
        super::packet_after(k, p.bytes()) == (
            Known {
                pat: Seq::empty(),
                pmt_pid: if k.pmt_pid is None {
                    psi::pmt_pid_in(x)
                } else {
                    k.pmt_pid
                },
                ..k
            },
            None::<Option<u64>>,
        ),
{
    reveal(super::packet_after);
    law_a_packet_is_read_back(p);
    lemma_whole_in_one(k.pat, x, padding);
}

/// A packet on the PID of the PMT that holds one gives the program its first
/// video and its first audio stream; the first PMT settles it.
pub proof fn law_a_pmt_packet_gives_the_streams(
    k: Known,
    p: Packet,
    header: Seq<u8>,
    info: Seq<u8>,
    es: Seq<Listed>,
    crc: Seq<u8>,
    padding: Seq<u8>,
)
    requires
        p.fits(),
        p.starts,
        p.pid != 0,
        k.pmt_pid == Some(p.pid as u16),
        header.len() == 10,
        header[0] == 2,
        info.len() < 0x1000,
        crc.len() == 4,
        forall|i: int| 0 <= i < es.len() ==> (#[trigger] es[i]).fits(),
        psi::whole_section(pmt_section(header, info, es, crc)),
        p.payload == Some(seq![0u8] + pmt_section(header, info, es, crc) + padding),
    ensures
        ({
            let listed = es.map_values(|e: Listed| e.entry());
            super::packet_after(k, p.bytes()) == (
                if k.pmt_seen {
                    Known { pmt: Seq::empty(), ..k }
                } else {
                    Known {
                        pmt: Seq::empty(),
                        pmt_seen: true,
                        video: psi::first_video(listed),
                        audio: psi::first_audio(listed),
                        ..k
                    }
                },
                None::<Option<u64>>,
            )
        }),
{
    reveal(super::packet_after);
    law_a_packet_is_read_back(p);
    let x = pmt_section(header, info, es, crc);
    law_a_pmt_gives_the_streams_it_lists(header, info, es, crc);
    lemma_whole_in_one(k.pmt, x, padding);
}

/// What a program carries is settled once the PMT has been seen and its audio,
/// if it has any, is named; it is then what these are named.
pub proof fn law_a_settled_program_says_what_was_named(k: Known, audio: Seq<char>)
    ensures
        !k.pmt_seen ==> super::program_of(k) is None,
        k.pmt_seen && k.audio is None ==> super::program_of(k) == Some(
            ProgramView {
                video: if k.video is Some {
                    Some(k.video->0.name)
                } else {
                    None
                },
                audio: None,
            },
        ),
        k.pmt_seen && (k.audio matches Some((_, a)) && a == AudioView::Known(audio))
            ==> super::program_of(k) == Some(
            ProgramView {
                video: if k.video is Some {
                    Some(k.video->0.name)
                } else {
                    None
                },
                audio: Some(audio),
            },
        ),
        (k.audio matches Some((_, a)) && !(a is Known)) ==> super::program_of(k) is None,
{
}

/// Packets one after the other.
pub open spec fn stream(ps: Seq<Seq<u8>>) -> Seq<u8>
    decreases ps.len(),
{
    if ps.len() == 0 {
        Seq::empty()
    } else {
        ps[0] + stream(ps.skip(1))
    }
}

/// What is known behind these packets.
pub open spec fn learnt(k: Known, ps: Seq<Seq<u8>>) -> Known
    decreases ps.len(),
{
    if ps.len() == 0 {
        k
    } else {
        learnt(super::packet_after(k, ps[0]).0, ps.skip(1))
    }
}

/// Which of these packets begin a keyframe, and its timestamp; the first of
/// them stands at `at`.
pub open spec fn marked(k: Known, ps: Seq<Seq<u8>>, at: int) -> Seq<(int, Option<u64>)>
    decreases ps.len(),
{
    if ps.len() == 0 {
        Seq::empty()
    } else {
        let (after, keyframe) = super::packet_after(k, ps[0]);
        let rest = marked(after, ps.skip(1), at + 188);
        match keyframe {
            Some(pts) => seq![(at, pts)] + rest,
            None => rest,
        }
    }
}

/// Whether these are whole packets.
pub open spec fn whole(ps: Seq<Seq<u8>>) -> bool {
    forall|i: int| 0 <= i < ps.len() ==> (#[trigger] ps[i]).len() == 188 && ps[i][0] == 0x47
}

#[verifier::rlimit(50)]
proof fn lemma_stream(k: Known, before: Seq<u8>, ps: Seq<Seq<u8>>, part: Seq<u8>)
    requires
        whole(ps),
        part.len() < 188,
        part.len() > 0 ==> part[0] == 0x47,
    ensures
        ({
            let w = super::walk(k, before + stream(ps) + part, before.len() as int);
            &&& w.known == learnt(k, ps)
            &&& w.found == marked(k, ps, before.len() as int)
            &&& w.end == before.len() + 188 * ps.len()
        }),
    decreases ps.len(),
{
    let b = before + stream(ps) + part;
    let at = before.len() as int;
    if ps.len() > 0 {
        let p = ps[0];
        let rest = ps.skip(1);
        let after = super::packet_after(k, p).0;
        assert forall|i: int| 0 <= i < rest.len() implies (#[trigger] rest[i]).len() == 188
            && rest[i][0] == 0x47 by {
            assert(rest[i] == ps[i + 1]);
        }
        lemma_stream(after, before + p, rest, part);
        assert(b =~= (before + p) + stream(rest) + part);
        assert(b.subrange(at, at + 188) =~= p);
        assert(b[at] == p[0]);
        if at + 188 < b.len() {
            let next = stream(rest) + part;
            assert(b[at + 188] == next[0]);
            if rest.len() > 0 {
                assert(stream(rest) == rest[0] + stream(rest.skip(1)));
                assert(next[0] == rest[0][0]);
            } else {
                assert(next =~= part);
            }
        }
        assert(super::packet_at(b, at));
    }
}

/// A stream of whole packets is read packet by packet, 188 bytes each: what is
/// known behind it is what the packets told one after the other, a keyframe is
/// reported at the offset of each packet that begins one, and what is left of
/// a packet at the end is kept for the next feed.
#[verifier::rlimit(50)]
pub proof fn law_a_stream_is_read_packet_by_packet(
    v: super::ScannerView,
    ps: Seq<Seq<u8>>,
    part: Seq<u8>,
)
    requires
        v.carry.len() == 0,
        whole(ps),
        part.len() < 188,
        part.len() > 0 ==> part[0] == 0x47,
    ensures
        v.fed(stream(ps) + part).known == learnt(v.known, ps),
        v.fed(stream(ps) + part).carry == part,
        v.fed(stream(ps) + part).pos == v.pos + 188 * ps.len(),
        v.reported(stream(ps) + part) == marked(v.known, ps, v.pos).map_values(
            |f: (int, Option<u64>)| super::Keyframe { at: f.0 as u64, pts: f.1 },
        ),
{
    let none = Seq::<u8>::empty();
    let data = stream(ps) + part;
    assert(v.buffer(data) =~= none + stream(ps) + part);
    lemma_stream(v.known, none, ps, part);
    lemma_stream_len(ps);
    assert(v.buffer(data).skip((188 * ps.len()) as int) =~= part);
    lemma_marked(v.known, ps, 0, v.pos);
    assert(v.reported(data) =~= marked(v.known, ps, v.pos).map_values(
        |f: (int, Option<u64>)| super::Keyframe { at: f.0 as u64, pts: f.1 },
    ));
}

proof fn lemma_stream_len(ps: Seq<Seq<u8>>)
    requires
        whole(ps),
    ensures
        stream(ps).len() == 188 * ps.len(),
    decreases ps.len(),
{
    if ps.len() > 0 {
        let rest = ps.skip(1);
        assert forall|i: int| 0 <= i < rest.len() implies (#[trigger] rest[i]).len() == 188
            && rest[i][0] == 0x47 by {
            assert(rest[i] == ps[i + 1]);
        }
        lemma_stream_len(rest);
        assert(ps[0].len() == 188);
    }
}

#[verifier::rlimit(50)]
proof fn lemma_marked(k: Known, ps: Seq<Seq<u8>>, at: int, by: int)
    ensures
        marked(k, ps, at + by).len() == marked(k, ps, at).len(),
        forall|i: int|
            0 <= i < marked(k, ps, at).len() ==> (#[trigger] marked(k, ps, at + by)[i]).0
                == marked(k, ps, at)[i].0 + by && marked(k, ps, at + by)[i].1 == marked(
                k,
                ps,
                at,
            )[i].1,
    decreases ps.len(),
{
    if ps.len() > 0 {
        let (after, keyframe) = super::packet_after(k, ps[0]);
        lemma_marked(after, ps.skip(1), at + 188, by);
        let near = marked(after, ps.skip(1), at + 188);
        let far = marked(after, ps.skip(1), at + by + 188);
        assert(at + 188 + by == at + by + 188);
        if let Some(pts) = keyframe {
            let a = marked(k, ps, at);
            let b = marked(k, ps, at + by);
            assert(a =~= seq![(at, pts)] + near);
            assert(b =~= seq![(at + by, pts)] + far);
            assert forall|i: int| 0 <= i < a.len() implies (#[trigger] b[i]).0 == a[i].0 + by
                && b[i].1 == a[i].1 by {
                if i > 0 {
                    assert(b[i] == far[i - 1]);
                    assert(a[i] == near[i - 1]);
                }
            }
        }
    }
}

/// Bytes that are no packet are passed over one at a time, up to the first
/// sync byte that another follows 188 bytes later.
pub proof fn law_a_scanner_resynchronises(k: Known, b: Seq<u8>, n: int)
    requires
        0 <= n <= b.len(),
        forall|i: int|
            #![trigger b[i]]
            0 <= i < n ==> b[i] != 0x47 || (i + 188 < b.len() && b[i + 188] != 0x47),
    ensures
        n + 188 <= b.len() ==> super::walk(k, b, 0) == super::walk(k, b, n),
{
    if n + 188 <= b.len() {
        lemma_passed(k, b, 0, n);
    }
}

proof fn lemma_passed(k: Known, b: Seq<u8>, i: int, n: int)
    requires
        0 <= i <= n,
        n + 188 <= b.len(),
        forall|j: int|
            #![trigger b[j]]
            0 <= j < n ==> b[j] != 0x47 || (j + 188 < b.len() && b[j + 188] != 0x47),
    ensures
        super::walk(k, b, i) == super::walk(k, b, n),
    decreases n - i,
{
    if i < n {
        assert(!super::packet_at(b, i)) by {
            assert(b[i] == b[i]);
        }
        lemma_passed(k, b, i + 1, n);
    }
}

} // verus!
