//! What the first transport packet of a PES says: its timestamp, and whether
//! it begins a keyframe.
use vstd::prelude::*;

verus! {

#[derive(Debug, Clone, Copy, PartialEq, Eq, Structural)]
pub enum Codec {
    H264,
    Hevc,
    Mpeg2,
    /// A video stream type this scanner has no parser for; RAI decides.
    Other,
}

/// Whether `00 00 01` stands at `i`.
pub open spec fn start_code(b: Seq<u8>, i: int) -> bool {
    0 <= i && i + 3 <= b.len() && b[i] == 0 && b[i + 1] == 0 && b[i + 2] == 1
}

/// The 33-bit PTS of a PES-start packet on the 90 kHz clock, if it carries
/// one: fifteen, fifteen and three bits, each group behind its marker.
pub open spec fn pts_of(payload: Seq<u8>) -> Option<u64> {
    if payload.len() < 14 || !start_code(payload, 0) || payload[7] < 0x80 {
        None
    } else {
        Some(
            (payload[9] as int / 2 % 8 * 0x4000_0000 + payload[10] * 0x40_0000 + payload[11] as int
                / 2 * 0x8000 + payload[12] * 0x80 + payload[13] as int / 2) as u64,
        )
    }
}

/// The elementary stream bytes of a PES-start packet, past the PES header.
pub open spec fn payload_of(payload: Seq<u8>) -> Option<Seq<u8>> {
    if payload.len() < 9 || !start_code(payload, 0) || 9 + payload[8] > payload.len() {
        None
    } else {
        Some(payload.skip(9 + payload[8]))
    }
}

/// What a NAL or start code settles: `Some(true)` for a random-access point,
/// `Some(false)` for a picture that is none, nothing for all else.
pub open spec fn verdict(codec: Codec, es: Seq<u8>, i: int) -> Option<bool> {
    let b = es[i + 3];
    match codec {
        Codec::H264 => {
            let nal = b % 32;
            if nal == 5 || nal == 7 {
                Some(true)
            } else if 1 <= nal <= 4 {
                Some(false)
            } else {
                None
            }
        },
        Codec::Hevc => {
            let nal = b as int / 2 % 64;
            if 16 <= nal <= 21 || nal == 32 || nal == 33 {
                Some(true)
            } else if nal <= 9 {
                Some(false)
            } else {
                None
            }
        },
        Codec::Mpeg2 => if b == 0xB3 || b == 0xB8 {
            Some(true)
        } else if b == 0 && i + 5 < es.len() {
            Some(es[i + 5] as int / 8 % 8 == 1)
        } else {
            None
        },
        Codec::Other => None,
    }
}

/// The verdict of the first start code at or behind `i` that settles it.
pub open spec fn first_verdict(codec: Codec, es: Seq<u8>, i: int) -> Option<bool>
    decreases es.len() - i,
{
    if i + 4 > es.len() {
        None
    } else if !start_code(es, i) {
        first_verdict(codec, es, i + 1)
    } else if verdict(codec, es, i) is Some {
        verdict(codec, es, i)
    } else {
        first_verdict(codec, es, i + 4)
    }
}

/// Whether the PES starting in `payload` is a keyframe, where its NAL units
/// settle it.
pub open spec fn keyframe_of(codec: Codec, payload: Seq<u8>) -> Option<bool> {
    match payload_of(payload) {
        Some(es) => first_verdict(codec, es, 0),
        None => None,
    }
}

/// The layer that an MPEG audio frame header names, as ffprobe names it.
/// Headers with a reserved version, bit rate or sample rate are none.
pub open spec fn header_layer(es: Seq<u8>, i: int) -> Option<Seq<char>> {
    let w1 = es[i + 1] as int;
    let w2 = es[i + 2] as int;
    if es[i] != 0xFF || w1 / 32 != 7 || w1 / 8 % 4 == 1 || w2 / 16 == 15 || w2 / 4 % 4 == 3 {
        None
    } else if w1 / 2 % 4 == 3 {
        Some("mp1"@)
    } else if w1 / 2 % 4 == 2 {
        Some("mp2"@)
    } else if w1 / 2 % 4 == 1 {
        Some("mp3"@)
    } else {
        None
    }
}

/// The layer of the first frame header at or behind `i`.
pub open spec fn first_layer(es: Seq<u8>, i: int) -> Option<Seq<char>>
    decreases es.len() - i,
{
    if i + 3 > es.len() {
        None
    } else if header_layer(es, i) is Some {
        header_layer(es, i)
    } else {
        first_layer(es, i + 1)
    }
}

/// The layer of the first MPEG audio frame header in a PES-start packet.
pub open spec fn layer_of(payload: Seq<u8>) -> Option<Seq<char>> {
    match payload_of(payload) {
        Some(es) => first_layer(es, 0),
        None => None,
    }
}

/// The text behind an optional name.
pub open spec fn name_view(name: Option<&'static str>) -> Option<Seq<char>> {
    match name {
        Some(s) => Some(s@),
        None => None,
    }
}

fn at_start_code(b: &[u8], i: usize) -> (r: bool)
    requires
        i + 3 <= b@.len(),
    ensures
        r == start_code(b@, i as int),
{
    b[i] == 0 && b[i + 1] == 0 && b[i + 2] == 1
}

/// The 33-bit PTS of a PES-start packet on the 90 kHz clock, if it carries one.
pub fn pes_pts(payload: &[u8]) -> (r: Option<u64>)
    ensures
        r == pts_of(payload@),
{
    if payload.len() < 14 || !at_start_code(payload, 0) {
        return None;
    }
    // PTS_DTS_flags live in the high two bits of byte 7; either value (PTS
    // only, or PTS and DTS) puts the PTS in bytes 9..14.
    if payload[7] < 0x80 {
        return None;
    }
    Some(
        (payload[9] / 2 % 8) as u64 * 0x4000_0000 + payload[10] as u64 * 0x40_0000 + (payload[11]
            / 2) as u64 * 0x8000 + payload[12] as u64 * 0x80 + (payload[13] / 2) as u64,
    )
}

/// The elementary stream bytes of a PES-start packet, past the PES header.
fn pes_payload(payload: &[u8]) -> (r: Option<&[u8]>)
    ensures
        r is Some <==> payload_of(payload@) is Some,
        r matches Some(es) ==> payload_of(payload@) == Some(es@),
{
    if payload.len() < 9 || !at_start_code(payload, 0) {
        return None;
    }
    let from: usize = 9 + payload[8] as usize;
    if from > payload.len() {
        return None;
    }
    let es = &payload[from..payload.len()];
    assert(es@ =~= payload@.skip(from as int));
    Some(es)
}

/// The layer of the first MPEG audio frame header in a PES-start packet, as
/// ffprobe names it.
pub fn mpeg_audio_layer(payload: &[u8]) -> (r: Option<&'static str>)
    ensures
        name_view(r) == layer_of(payload@),
{
    let es: &[u8] = match pes_payload(payload) {
        Some(es) => es,
        None => {
            return None;
        },
    };
    let mut i: usize = 0;
    while es.len() - i >= 3
        invariant
            i <= es@.len(),
            first_layer(es@, i as int) == first_layer(es@, 0),
            payload_of(payload@) == Some(es@),
        decreases es.len() - i,
    {
        let w1: u8 = es[i + 1];
        let w2: u8 = es[i + 2];
        let version: u8 = w1 / 8 % 4;  // 1 is reserved
        let bitrate: u8 = w2 / 16;  // 15 is invalid
        let rate: u8 = w2 / 4 % 4;  // 3 is reserved
        if es[i] == 0xFF && w1 / 32 == 7 && version != 1 && bitrate != 15 && rate != 3 {
            let layer: u8 = w1 / 2 % 4;
            if layer == 3 {
                return Some("mp1");
            }
            if layer == 2 {
                return Some("mp2");
            }
            if layer == 1 {
                return Some("mp3");
            }
        }
        i = i + 1;
    }
    None
}

/// What the start code at `i` settles.
fn settle(codec: Codec, es: &[u8], i: usize) -> (r: Option<bool>)
    requires
        i + 4 <= es@.len(),
    ensures
        r == verdict(codec, es@, i as int),
{
    assert(i + 4 <= es.len());
    let b: u8 = es[i + 3];
    match codec {
        Codec::H264 => {
            let nal: u8 = b % 32;
            if nal == 5 || nal == 7 {
                Some(true)  // IDR slice, or the SPS that precedes one
            } else if nal >= 1 && nal <= 4 {
                Some(false)  // a non-IDR slice
            } else {
                None  // AUD, SEI, PPS: keep looking
            }
        },
        Codec::Hevc => {
            let nal: u8 = b / 2 % 64;
            if nal >= 16 && nal <= 21 || nal == 32 || nal == 33 {
                Some(true)  // BLA/IDR/CRA, or VPS/SPS
            } else if nal <= 9 {
                Some(false)  // a non-IRAP slice
            } else {
                None
            }
        },
        Codec::Mpeg2 => {
            if b == 0xB3 || b == 0xB8 {
                Some(true)  // sequence header, GOP header
            } else if b == 0 && es.len() - i > 5 {
                // Picture start: coding type 1 is an I-frame.
                Some(es[i + 5] / 8 % 8 == 1)
            } else {
                None  // all else, and a picture cut off before its coding type
            }
        },
        Codec::Other => None,
    }
}

/// Whether the PES starting in `payload` is a keyframe: `Some(verdict)` when
/// the first packet's NAL units settle it, `None` when they do not.
pub fn keyframe(codec: Codec, payload: &[u8]) -> (r: Option<bool>)
    ensures
        r == keyframe_of(codec, payload@),
{
    let es: &[u8] = match pes_payload(payload) {
        Some(es) => es,
        None => {
            return None;
        },
    };
    let mut i: usize = 0;
    while es.len() - i >= 4
        invariant
            i <= es@.len(),
            first_verdict(codec, es@, i as int) == first_verdict(codec, es@, 0),
            payload_of(payload@) == Some(es@),
        decreases es.len() - i,
    {
        if !at_start_code(es, i) {
            i = i + 1;
        } else {
            let settled: Option<bool> = settle(codec, es, i);
            if settled.is_some() {
                return settled;
            }
            i = i + 4;
        }
    }
    None
}

/// A timestamp is a 33-bit number.
pub proof fn law_pts_is_33_bits(payload: Seq<u8>)
    ensures
        pts_of(payload) matches Some(pts) ==> pts < 0x2_0000_0000,
{
}

/// A stream type without a parser is never settled by its bytes.
pub proof fn law_unparsed_codec_settles_nothing(es: Seq<u8>, i: int)
    ensures
        first_verdict(Codec::Other, es, i) is None,
    decreases es.len() - i,
{
    if i + 4 <= es.len() {
        if !start_code(es, i) {
            law_unparsed_codec_settles_nothing(es, i + 1);
        } else {
            law_unparsed_codec_settles_nothing(es, i + 4);
        }
    }
}

} // verus!
