//! What ffmpeg is told, in words.
use super::{FragDurationMs, OutputFormat, TrackMode};
use crate::text;
use vstd::prelude::*;

verus! {

/// The words behind the input.
pub open spec fn output_side(
    fmt: OutputFormat,
    codec: Option<Seq<char>>,
    frag_ms: FragDurationMs,
    keyframe_start: bool,
) -> Seq<Seq<char>> {
    super::argv(fmt, codec, frag_ms, keyframe_start).skip(13)
}

/// The last three words are `-f`, the muxer of the format, and the output
/// pipe: `adts` for ADTS, `mp3` for MP3, `mp4` for fragmented MP4.
pub proof fn law_the_output_goes_to_the_muxer_of_its_format(
    fmt: OutputFormat,
    codec: Option<Seq<char>>,
    frag_ms: FragDurationMs,
    keyframe_start: bool,
)
    ensures
        ({
            let args = super::argv(fmt, codec, frag_ms, keyframe_start);
            &&& args.len() > 16
            &&& args.skip(args.len() - 3) == match fmt {
                OutputFormat::Adts => seq!["-f"@, "adts"@, "pipe:1"@],
                OutputFormat::Mp3 => seq!["-f"@, "mp3"@, "pipe:1"@],
                OutputFormat::Fmp4 => seq!["-f"@, "mp4"@, "pipe:1"@],
            }
        }),
{
    let args = super::argv(fmt, codec, frag_ms, keyframe_start);
    assert(args.skip(args.len() - 3) =~= match fmt {
        OutputFormat::Adts => seq!["-f"@, "adts"@, "pipe:1"@],
        OutputFormat::Mp3 => seq!["-f"@, "mp3"@, "pipe:1"@],
        OutputFormat::Fmp4 => seq!["-f"@, "mp4"@, "pipe:1"@],
    });
}

/// The input side names the demuxer, drops what is corrupt, says how much may
/// be examined, and ends with the input pipe: two seconds for video that
/// starts on a keyframe, three for video that does not, one for audio.
pub proof fn law_the_input_is_examined_for_so_long(
    fmt: OutputFormat,
    codec: Option<Seq<char>>,
    frag_ms: FragDurationMs,
    keyframe_start: bool,
)
    ensures
        super::argv(fmt, codec, frag_ms, keyframe_start).take(13) == seq![
            "-hide_banner"@,
            "-loglevel"@,
            "error"@,
            "-fflags"@,
            "discardcorrupt"@,
            "-analyzeduration"@,
            if fmt != OutputFormat::Fmp4 {
                "1000000"@
            } else if keyframe_start {
                "2000000"@
            } else {
                "3000000"@
            },
            "-probesize"@,
            if fmt != OutputFormat::Fmp4 {
                "500000"@
            } else {
                "5000000"@
            },
            "-f"@,
            "mpegts"@,
            "-i"@,
            "pipe:0"@,
        ],
{
    assert(super::argv(fmt, codec, frag_ms, keyframe_start).take(13) =~= super::input_words(
        fmt,
        keyframe_start,
    ));
}

/// Audio for ADTS drops every other track, and is copied if it is AAC, else
/// encoded as AAC.
pub proof fn law_adts_carries_aac_alone(
    codec: Option<Seq<char>>,
    frag_ms: FragDurationMs,
    keyframe_start: bool,
)
    ensures
        output_side(OutputFormat::Adts, codec, frag_ms, keyframe_start) == seq![
            "-vn"@,
            "-sn"@,
            "-dn"@,
        ] + (if codec == Some("aac"@) {
            seq!["-c:a"@, "copy"@]
        } else {
            seq!["-c:a"@, "aac"@, "-b:a"@, "128k"@, "-ac"@, "2"@]
        }) + seq!["-avioflags"@, "direct"@, "-flush_packets"@, "1"@, "-f"@, "adts"@, "pipe:1"@],
        super::modes_of(OutputFormat::Adts, codec) == (
            TrackMode::Dropped,
            if codec == Some("aac"@) {
                TrackMode::Copy
            } else {
                TrackMode::Transcode
            },
        ),
{
    assert(output_side(OutputFormat::Adts, codec, frag_ms, keyframe_start) =~= seq![
        "-vn"@,
        "-sn"@,
        "-dn"@,
    ] + (if codec == Some("aac"@) {
        seq!["-c:a"@, "copy"@]
    } else {
        seq!["-c:a"@, "aac"@, "-b:a"@, "128k"@, "-ac"@, "2"@]
    }) + seq!["-avioflags"@, "direct"@, "-flush_packets"@, "1"@, "-f"@, "adts"@, "pipe:1"@]);
}

/// Audio for MP3 drops every other track, and is copied if it is MP3, else
/// encoded as MP3.
pub proof fn law_mp3_carries_mp3_alone(
    codec: Option<Seq<char>>,
    frag_ms: FragDurationMs,
    keyframe_start: bool,
)
    ensures
        output_side(OutputFormat::Mp3, codec, frag_ms, keyframe_start) == seq![
            "-vn"@,
            "-sn"@,
            "-dn"@,
        ] + (if codec == Some("mp3"@) {
            seq!["-c:a"@, "copy"@]
        } else {
            seq!["-c:a"@, "libmp3lame"@, "-b:a"@, "128k"@, "-ac"@, "2"@]
        }) + seq!["-avioflags"@, "direct"@, "-flush_packets"@, "1"@, "-f"@, "mp3"@, "pipe:1"@],
        super::modes_of(OutputFormat::Mp3, codec) == (
            TrackMode::Dropped,
            if codec == Some("mp3"@) {
                TrackMode::Copy
            } else {
                TrackMode::Transcode
            },
        ),
{
    assert(output_side(OutputFormat::Mp3, codec, frag_ms, keyframe_start) =~= seq![
        "-vn"@,
        "-sn"@,
        "-dn"@,
    ] + (if codec == Some("mp3"@) {
        seq!["-c:a"@, "copy"@]
    } else {
        seq!["-c:a"@, "libmp3lame"@, "-b:a"@, "128k"@, "-ac"@, "2"@]
    }) + seq!["-avioflags"@, "direct"@, "-flush_packets"@, "1"@, "-f"@, "mp3"@, "pipe:1"@]);
}

/// Fragmented MP4 carries the video as it is, and AAC: copied into the framing
/// that MP4 wants if that is what the source has, encoded if it has another
/// codec, left out if it has none. Fragments are cut on keyframes, and on a
/// timer if one is asked for, whose microseconds are a thousand for each
/// millisecond.
pub proof fn law_mp4_carries_the_video_and_aac(
    codec: Option<Seq<char>>,
    frag_ms: FragDurationMs,
    keyframe_start: bool,
)
    ensures
        output_side(OutputFormat::Fmp4, codec, frag_ms, keyframe_start) == seq![
            "-c:v"@,
            "copy"@,
        ] + (if codec is None {
            seq!["-an"@]
        } else if codec == Some("aac"@) {
            seq!["-c:a"@, "copy"@, "-bsf:a"@, "aac_adtstoasc"@]
        } else {
            seq!["-c:a"@, "aac"@, "-b:a"@, "128k"@, "-ac"@, "2"@]
        }) + seq![
            "-avoid_negative_ts"@,
            "make_zero"@,
            "-avioflags"@,
            "direct"@,
            "-flush_packets"@,
            "1"@,
        ] + super::frag_words(frag_ms) + seq![
            "-movflags"@,
            "+frag_keyframe+empty_moov+default_base_moof+omit_tfhd_offset"@,
            "-f"@,
            "mp4"@,
            "pipe:1"@,
        ],
        frag_ms is None ==> super::frag_words(frag_ms).len() == 0,
        frag_ms matches Some(ms) ==> {
            &&& super::frag_words(frag_ms).len() == 2
            &&& super::frag_words(frag_ms)[0] == "-frag_duration"@
            &&& text::number(super::frag_words(frag_ms)[1]) == Some((ms * 1000) as u64)
            &&& super::frag_words(frag_ms)[1] == text::decimal((ms * 1000) as nat)
        },
        super::modes_of(OutputFormat::Fmp4, codec) == (
            TrackMode::Copy,
            if codec is None {
                TrackMode::Dropped
            } else if codec == Some("aac"@) {
                TrackMode::Copy
            } else {
                TrackMode::Transcode
            },
        ),
{
    if let Some(ms) = frag_ms {
        text::laws::law_a_number_is_read_back((ms * 1000) as u64);
    }
    assert(output_side(OutputFormat::Fmp4, codec, frag_ms, keyframe_start) =~= seq![
        "-c:v"@,
        "copy"@,
    ] + (if codec is None {
        seq!["-an"@]
    } else if codec == Some("aac"@) {
        seq!["-c:a"@, "copy"@, "-bsf:a"@, "aac_adtstoasc"@]
    } else {
        seq!["-c:a"@, "aac"@, "-b:a"@, "128k"@, "-ac"@, "2"@]
    }) + seq![
        "-avoid_negative_ts"@,
        "make_zero"@,
        "-avioflags"@,
        "direct"@,
        "-flush_packets"@,
        "1"@,
    ] + super::frag_words(frag_ms) + seq![
        "-movflags"@,
        "+frag_keyframe+empty_moov+default_base_moof+omit_tfhd_offset"@,
        "-f"@,
        "mp4"@,
        "pipe:1"@,
    ]);
}

/// A format is asked for by the word that it goes by, and by no other; it is
/// served as the media type of what it carries, and told apart in reports.
pub proof fn law_a_format_goes_by_its_word(word: Seq<char>)
    ensures
        super::audio_format("adts"@) == Some(OutputFormat::Adts),
        super::audio_format("mp3"@) == Some(OutputFormat::Mp3),
        super::audio_format(word) is Some ==> word == "adts"@ || word == "mp3"@,
        super::format_name(OutputFormat::Adts) == "adts"@,
        super::format_name(OutputFormat::Mp3) == "mp3"@,
        super::format_name(OutputFormat::Fmp4) == "fmp4"@,
        super::media_type(OutputFormat::Adts) == "audio/aac"@,
        super::media_type(OutputFormat::Mp3) == "audio/mpeg"@,
        super::media_type(OutputFormat::Fmp4) == "video/mp4"@,
        super::mode_word(TrackMode::Copy) == "copy"@,
        super::mode_word(TrackMode::Transcode) == "transcode"@,
        super::mode_word(TrackMode::Dropped) == "drop"@,
{
    reveal_strlit("adts");
    reveal_strlit("mp3");
    assert("adts"@.len() != "mp3"@.len());
}

/// Only fragmented MP4 carries video.
pub proof fn law_only_mp4_carries_video(fmt: OutputFormat)
    ensures
        super::carries_video(fmt) <==> super::format_name(fmt) == "fmp4"@,
        super::carries_video(fmt) <==> super::media_type(fmt) == "video/mp4"@,
{
    reveal_strlit("adts");
    reveal_strlit("mp3");
    reveal_strlit("fmp4");
    reveal_strlit("audio/aac");
    reveal_strlit("audio/mpeg");
    reveal_strlit("video/mp4");
    assert("adts"@[0] != "fmp4"@[0]);
    assert("mp3"@.len() != "fmp4"@.len());
    assert("audio/aac"@[0] != "video/mp4"@[0]);
    assert("audio/mpeg"@[0] != "video/mp4"@[0]);
}

} // verus!
