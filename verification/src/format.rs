//! Output formats and the copy-first decision table.
//!
//! ffmpeg reads raw MPEG-TS on stdin (fed by the shared engine puller) rather
//! than opening the engine URL itself, so there is exactly one engine pull per
//! content id no matter how many formats are being served from it.
use crate::text;
use vstd::prelude::*;

pub mod laws;

verus! {

/// What happens to a track on its way out.
#[derive(Debug, Clone, Copy, PartialEq, Eq, Structural)]
pub enum TrackMode {
    /// Stream-copied untouched: no re-encode, no quality loss, near-zero CPU.
    Copy,
    Transcode,
    /// Track is dropped entirely (video on the audio-only endpoints).
    Dropped,
}

/// The word for a track mode.
pub open spec fn mode_word(mode: TrackMode) -> Seq<char> {
    match mode {
        TrackMode::Copy => "copy"@,
        TrackMode::Transcode => "transcode"@,
        TrackMode::Dropped => "drop"@,
    }
}

impl TrackMode {
    /// The word for it, as status reports show it.
    pub fn as_str(self) -> (r: &'static str)
        ensures
            r@ == mode_word(self),
    {
        match self {
            TrackMode::Copy => "copy",
            TrackMode::Transcode => "transcode",
            TrackMode::Dropped => "drop",
        }
    }
}

#[derive(Debug, Clone, Copy, PartialEq, Eq, Hash, PartialOrd, Ord, Structural)]
pub enum OutputFormat {
    Adts,
    Mp3,
    Fmp4,
}

/// The name of a format.
pub open spec fn format_name(fmt: OutputFormat) -> Seq<char> {
    match fmt {
        OutputFormat::Adts => "adts"@,
        OutputFormat::Mp3 => "mp3"@,
        OutputFormat::Fmp4 => "fmp4"@,
    }
}

/// Whether a format carries the video track, and so has an init segment.
pub open spec fn carries_video(fmt: OutputFormat) -> bool {
    fmt == OutputFormat::Fmp4
}

/// The media type that a format is served as.
pub open spec fn media_type(fmt: OutputFormat) -> Seq<char> {
    match fmt {
        OutputFormat::Adts => "audio/aac"@,
        OutputFormat::Mp3 => "audio/mpeg"@,
        OutputFormat::Fmp4 => "video/mp4"@,
    }
}

impl OutputFormat {
    pub fn as_str(self) -> (r: &'static str)
        ensures
            r@ == format_name(self),
    {
        match self {
            OutputFormat::Adts => "adts",
            OutputFormat::Mp3 => "mp3",
            OutputFormat::Fmp4 => "fmp4",
        }
    }

    pub fn content_type(self) -> (r: &'static str)
        ensures
            r@ == media_type(self),
    {
        match self {
            OutputFormat::Adts => "audio/aac",
            OutputFormat::Mp3 => "audio/mpeg",
            OutputFormat::Fmp4 => "video/mp4",
        }
    }

    /// Only fMP4 has an init segment that late joiners need replayed; ADTS and
    /// MP3 are self-synchronising, so any byte offset is a valid join point.
    pub fn needs_init_segment(self) -> (r: bool)
        ensures
            r == (self == OutputFormat::Fmp4),
            r == carries_video(self),
    {
        matches!(self, OutputFormat::Fmp4)
    }

    /// Whether the output carries the video track. Decides how a new encoder
    /// is primed: video wants to start on a keyframe, audio does not care.
    pub fn has_video(self) -> (r: bool)
        ensures
            r == (self == OutputFormat::Fmp4),
            r == carries_video(self),
    {
        matches!(self, OutputFormat::Fmp4)
    }

    /// The `fmt=` values accepted on /audio.
    pub fn parse_audio(s: &str) -> (r: Option<Self>)
        ensures
            r == audio_format(s@),
    {
        if text::same(s, "adts") {
            Some(OutputFormat::Adts)
        } else if text::same(s, "mp3") {
            Some(OutputFormat::Mp3)
        } else {
            None
        }
    }
}

/// The audio format that a word names.
pub open spec fn audio_format(word: Seq<char>) -> Option<OutputFormat> {
    if word == "adts"@ {
        Some(OutputFormat::Adts)
    } else if word == "mp3"@ {
        Some(OutputFormat::Mp3)
    } else {
        None
    }
}

/// The chosen encoding for one (format, source codec) pair.
#[derive(Debug, Clone, PartialEq, Eq)]
pub struct Plan {
    pub args: Vec<String>,
    pub video: TrackMode,
    pub audio: TrackMode,
}

/// Fragment duration for fMP4, in milliseconds. `None` fragments on keyframes
/// only.
///
/// A `moof` cannot be written until its fragment is complete, so the fragment
/// duration is a hard latency floor. Keyframe-only fragments make that floor
/// the source GOP: each fragment is emitted when the *next* keyframe arrives,
/// so its content is already one GOP old. A timed cut keeps fragments short;
/// `frag_keyframe` stays on as well, so every keyframe still opens a fragment
/// and late joiners can be aligned to one (see `mp4::Piece::keyframe`).
pub type FragDurationMs = Option<u32>;

/// The texts behind a list of strings.
pub open spec fn texts(v: Seq<String>) -> Seq<Seq<char>> {
    v.map_values(|s: String| s@)
}

/// The texts behind a list of words.
pub open spec fn words(v: Seq<&str>) -> Seq<Seq<char>> {
    v.map_values(|s: &str| s@)
}

/// The text behind an optional codec name.
pub open spec fn codec_view(c: Option<&str>) -> Option<Seq<char>> {
    match c {
        Some(s) => Some(s@),
        None => None,
    }
}

/// Add words to a list of arguments.
pub(crate) fn add_words(args: &mut Vec<String>, more: &[&str])
    ensures
        texts(final(args)@) == texts(old(args)@) + words(more@),
{
    let ghost before = args@;
    let mut i: usize = 0;
    assert(texts(args@) =~= texts(before) + words(more@.take(0)));
    while i < more.len()
        invariant
            i <= more@.len(),
            texts(args@) == texts(before) + words(more@.take(i as int)),
        decreases more.len() - i,
    {
        let ghost now = args@;
        let word: String = more[i].to_owned();
        args.push(word);
        proof {
            assert(texts(args@) =~= texts(now).push(word@));
            assert(words(more@.take(i + 1)) =~= words(more@.take(i as int)).push(word@));
            assert(texts(args@) =~= texts(before) + words(more@.take(i + 1)));
        }
        i = i + 1;
    }
    assert(more@.take(i as int) =~= more@);
}

/// How much input ffmpeg may examine before it must have identified the
/// streams: the analysis duration in microseconds and the probe size in bytes.
pub open spec fn window_of(fmt: OutputFormat, keyframe_start: bool) -> (Seq<char>, Seq<char>) {
    match fmt {
        OutputFormat::Fmp4 => if keyframe_start {
            ("2000000"@, "5000000"@)
        } else {
            ("3000000"@, "5000000"@)
        },
        _ => ("1000000"@, "500000"@),
    }
}

/// How much input ffmpeg may examine before it must have identified the
/// streams, as `(analyzeduration_us, probesize_bytes)`.
///
/// This is not a free cap that `find_stream_info` exits early from: MPEG-TS
/// has no header, so ffmpeg reads the whole window regardless, instantly when
/// the replay window supplies it, at stream rate otherwise.
///
/// Copying H.264 into MP4 requires SPS/PPS extradata to build the `avcC` box,
/// which arrive only with a keyframe. The window must therefore reach from
/// wherever ffmpeg starts reading to the first keyframe, or the muxer refuses
/// to write a header at all ("non-existing PPS 0 referenced", then "dimensions
/// not set"). From a keyframe-aligned start every window from 0.5s up
/// succeeds; from a mid-GOP start 1s fails outright on a 3s GOP.
///
/// So a video encoder primed from a keyframe (the normal case, see
/// `replay::Policy::FromKeyframe`) gets 2s, comfortably over what it needs
/// and cheap because the replay window satisfies it at pipe speed, and one
/// that could not be gets 3s, which covers a mid-GOP start on a GOP of up to
/// 3s. Audio parameters come from any frame header, so 1s is plenty there.
///
/// probesize is never the binding constraint; it also sizes the buffer the
/// demuxer keeps for seeking back after its header scan, so it is kept modest.
fn probe_window(fmt: OutputFormat, keyframe_start: bool) -> (r: (&'static str, &'static str))
    ensures
        (r.0@, r.1@) == window_of(fmt, keyframe_start),
{
    match fmt {
        OutputFormat::Fmp4 => if keyframe_start {
            ("2000000", "5000000")
        } else {
            ("3000000", "5000000")
        },
        _ => ("1000000", "500000"),
    }
}

/// Input-side options, ending with the input itself.
pub open spec fn input_words(fmt: OutputFormat, keyframe_start: bool) -> Seq<Seq<char>> {
    seq![
        "-hide_banner"@,
        "-loglevel"@,
        "error"@,
        "-fflags"@,
        "discardcorrupt"@,
        "-analyzeduration"@,
        window_of(fmt, keyframe_start).0,
        "-probesize"@,
        window_of(fmt, keyframe_start).1,
        "-f"@,
        "mpegts"@,
        "-i"@,
        "pipe:0"@,
    ]
}

/// Input-side options. These must precede `-i`: `-fflags` is a demuxer option
/// and is silently inert if placed after it.
///
/// Deliberately *without* `-avioflags direct` here, although it is set on the
/// output. The mpegts demuxer scans the start of the input for its tables and
/// then seeks back through the AVIO buffer to re-read it; with direct I/O
/// there is no buffer, the seek fails ("Unable to seek back to the start",
/// logged only at info level) and everything the scan consumed is lost: most
/// of the replay window and several seconds of a live stream. The buffer costs
/// no latency: a pipe read returns whatever is there.
///
/// Also without `-fflags nobuffer`, despite its billing as a low-latency flag:
/// it slows stream analysis and so delays first output. Output-side latency is
/// handled by -flush_packets and -avioflags direct, which cost nothing.
fn input_args(fmt: OutputFormat, keyframe_start: bool) -> (r: Vec<String>)
    ensures
        texts(r@) == input_words(fmt, keyframe_start),
{
    let (analyzeduration, probesize) = probe_window(fmt, keyframe_start);
    let mut args: Vec<String> = Vec::new();
    // discardcorrupt matters for a P2P source, where corrupt and partial
    // frames are routine rather than exceptional.
    add_words(
        &mut args,
        &["-hide_banner", "-loglevel", "error", "-fflags", "discardcorrupt"],
    );
    add_words(&mut args, &["-analyzeduration", analyzeduration, "-probesize", probesize]);
    // The input is always raw TS from the engine puller; naming the demuxer
    // skips format detection entirely.
    add_words(&mut args, &["-f", "mpegts", "-i", "pipe:0"]);
    assert(texts(args@) =~= input_words(fmt, keyframe_start));
    args
}

pub open spec fn flush_words() -> Seq<Seq<char>> {
    seq!["-avioflags"@, "direct"@, "-flush_packets"@, "1"@]
}

/// Output-side options common to every format. `-flush_packets 1` is the single
/// biggest steady-state latency win: without it ffmpeg's output AVIO buffers
/// ~32KB before writing to the pipe, which at 128 kbps is ~2 seconds.
fn flush_args(args: &mut Vec<String>)
    ensures
        texts(final(args)@) == texts(old(args)@) + flush_words(),
{
    let ghost before = texts(args@);
    add_words(args, &["-avioflags", "direct", "-flush_packets", "1"]);
    assert(texts(args@) =~= before + flush_words());
}

pub open spec fn aac_words() -> Seq<Seq<char>> {
    seq!["-c:a"@, "aac"@, "-b:a"@, "128k"@, "-ac"@, "2"@]
}

fn aac_encode(args: &mut Vec<String>)
    ensures
        texts(final(args)@) == texts(old(args)@) + aac_words(),
{
    let ghost before = texts(args@);
    add_words(args, &["-c:a", "aac", "-b:a", "128k", "-ac", "2"]);
    assert(texts(args@) =~= before + aac_words());
}

pub open spec fn mp3_words() -> Seq<Seq<char>> {
    seq!["-c:a"@, "libmp3lame"@, "-b:a"@, "128k"@, "-ac"@, "2"@]
}

/// The copy-first decision for one (format, source audio codec) pair: what
/// happens to the video and to the audio.
pub open spec fn modes_of(fmt: OutputFormat, codec: Option<Seq<char>>) -> (TrackMode, TrackMode) {
    match fmt {
        OutputFormat::Adts => (
            TrackMode::Dropped,
            if codec == Some("aac"@) {
                TrackMode::Copy
            } else {
                TrackMode::Transcode
            },
        ),
        OutputFormat::Mp3 => (
            TrackMode::Dropped,
            if codec == Some("mp3"@) {
                TrackMode::Copy
            } else {
                TrackMode::Transcode
            },
        ),
        OutputFormat::Fmp4 => (
            TrackMode::Copy,
            if codec == Some("aac"@) {
                TrackMode::Copy
            } else if codec is Some {
                TrackMode::Transcode
            } else {
                TrackMode::Dropped
            },
        ),
    }
}

/// The copy-first decision for one (format, source audio codec) pair.
///
/// `audio_codec` is the source's first audio stream codec name as reported by
/// ffprobe (e.g. "aac", "ac3"); `None` means no audio stream was found.
pub fn modes(fmt: OutputFormat, audio_codec: Option<&str>) -> (r: (TrackMode, TrackMode))
    ensures
        r == modes_of(fmt, codec_view(audio_codec)),
{
    match fmt {
        OutputFormat::Adts | OutputFormat::Mp3 => {
            let want: &str = if fmt == OutputFormat::Adts {
                "aac"
            } else {
                "mp3"
            };
            let native: bool = match audio_codec {
                Some(codec) => text::same(codec, want),
                None => false,
            };
            let audio = if native {
                TrackMode::Copy
            } else {
                TrackMode::Transcode
            };
            (TrackMode::Dropped, audio)
        },
        OutputFormat::Fmp4 => {
            // AC-3, E-AC-3 and MP2 are legal in MP4 but browsers will not decode
            // them, so a blanket `-c copy` yields video with silence. Only AAC
            // survives the copy path.
            let audio = match audio_codec {
                Some(codec) => if text::same(codec, "aac") {
                    TrackMode::Copy
                } else {
                    TrackMode::Transcode
                },
                None => TrackMode::Dropped,
            };
            (TrackMode::Copy, audio)
        },
    }
}

/// The audio options of an audio-only output.
pub open spec fn audio_only_words(fmt: OutputFormat, audio: TrackMode) -> Seq<Seq<char>> {
    if audio == TrackMode::Copy {
        seq!["-c:a"@, "copy"@]
    } else if fmt == OutputFormat::Adts {
        aac_words()
    } else {
        mp3_words()
    }
}

/// The audio options of an MP4 output. MPEG-TS carries AAC in ADTS framing;
/// MP4 wants raw AAC, so a copy is converted.
pub open spec fn mp4_audio_words(audio: TrackMode) -> Seq<Seq<char>> {
    match audio {
        TrackMode::Copy => seq!["-c:a"@, "copy"@, "-bsf:a"@, "aac_adtstoasc"@],
        TrackMode::Transcode => aac_words(),
        TrackMode::Dropped => seq!["-an"@],
    }
}

/// The fragment duration option, in microseconds.
pub open spec fn frag_words(frag_ms: FragDurationMs) -> Seq<Seq<char>> {
    match frag_ms {
        Some(ms) => seq!["-frag_duration"@, text::decimal((ms as nat) * 1000)],
        None => Seq::empty(),
    }
}

pub open spec fn movflags() -> Seq<char> {
    "+frag_keyframe+empty_moov+default_base_moof+omit_tfhd_offset"@
}

/// Output-side options, ending with the output itself.
pub open spec fn output_words(
    fmt: OutputFormat,
    audio: TrackMode,
    frag_ms: FragDurationMs,
) -> Seq<Seq<char>> {
    match fmt {
        OutputFormat::Fmp4 => seq!["-c:v"@, "copy"@] + mp4_audio_words(audio) + seq![
            "-avoid_negative_ts"@,
            "make_zero"@,
        ] + flush_words() + frag_words(frag_ms) + seq![
            "-movflags"@,
            movflags(),
            "-f"@,
            "mp4"@,
            "pipe:1"@,
        ],
        _ => seq!["-vn"@, "-sn"@, "-dn"@] + audio_only_words(fmt, audio) + flush_words() + seq![
            "-f"@,
            format_name(fmt),
            "pipe:1"@,
        ],
    }
}

/// The full ffmpeg argv for one stream.
pub open spec fn argv(
    fmt: OutputFormat,
    codec: Option<Seq<char>>,
    frag_ms: FragDurationMs,
    keyframe_start: bool,
) -> Seq<Seq<char>> {
    input_words(fmt, keyframe_start) + output_words(fmt, modes_of(fmt, codec).1, frag_ms)
}

/// Output-side options of an audio-only output.
fn audio_only_args(args: &mut Vec<String>, fmt: OutputFormat, audio: TrackMode)
    requires
        fmt != OutputFormat::Fmp4,
    ensures
        texts(final(args)@) == texts(old(args)@) + output_words(fmt, audio, None),
{
    let ghost before = texts(args@);
    add_words(args, &["-vn", "-sn", "-dn"]);
    let ghost tracks = texts(args@);
    assert(tracks =~= before + seq!["-vn"@, "-sn"@, "-dn"@]);
    if audio == TrackMode::Copy {
        add_words(args, &["-c:a", "copy"]);
    } else if fmt == OutputFormat::Adts {
        aac_encode(args);
    } else {
        add_words(args, &["-c:a", "libmp3lame", "-b:a", "128k", "-ac", "2"]);
    }
    assert(texts(args@) =~= tracks + audio_only_words(fmt, audio));
    flush_args(args);
    add_words(args, &["-f", fmt.as_str(), "pipe:1"]);
    assert(texts(args@) =~= before + output_words(fmt, audio, None));
}

/// Output-side options of an MP4 output.
fn mp4_args(args: &mut Vec<String>, audio: TrackMode, frag_ms: FragDurationMs)
    ensures
        texts(final(args)@) == texts(old(args)@) + output_words(
            OutputFormat::Fmp4,
            audio,
            frag_ms,
        ),
{
    let ghost before = texts(args@);
    // Video is always copied: that is where the CPU win is, and it is
    // what "zero copy" means here (no re-encode, not untouched bytes).
    add_words(args, &["-c:v", "copy"]);
    let ghost video = texts(args@);
    assert(video =~= before + seq!["-c:v"@, "copy"@]);
    match audio {
        TrackMode::Copy => {
            // MPEG-TS carries AAC in ADTS framing; MP4 wants raw AAC with
            // an AudioSpecificConfig in the sample entry. The muxer does
            // not convert on copy: without this it aborts the stream with
            // "Malformed AAC bitstream detected". Not needed on the /audio
            // routes, where ADTS is the native output framing, nor when
            // transcoding, since the encoder emits raw AAC.
            add_words(args, &["-c:a", "copy", "-bsf:a", "aac_adtstoasc"]);
        },
        TrackMode::Transcode => {
            aac_encode(args);
        },
        TrackMode::Dropped => {
            add_words(args, &["-an"]);
        },
    }
    let ghost sound = texts(args@);
    assert(sound =~= video + mp4_audio_words(audio));
    // Broadcast TS carries timestamp discontinuities that MP4 rejects.
    add_words(args, &["-avoid_negative_ts", "make_zero"]);
    flush_args(args);
    let ghost flushed = texts(args@);
    assert(flushed =~= sound + seq!["-avoid_negative_ts"@, "make_zero"@] + flush_words());
    match frag_ms {
        Some(ms) => {
            // frag_duration is in microseconds. The muxer ORs it with
            // frag_keyframe below, so a keyframe still always opens a fragment.
            let us = text::decimal_text(ms as u64 * 1000);
            add_words(args, &["-frag_duration", us.as_str()]);
        },
        None => {},
    }
    assert(texts(args@) =~= flushed + frag_words(frag_ms));
    add_words(
        args,
        &[
            "-movflags",
            "+frag_keyframe+empty_moov+default_base_moof+omit_tfhd_offset",
            "-f",
            "mp4",
            "pipe:1",
        ],
    );
    assert(texts(args@) =~= before + output_words(OutputFormat::Fmp4, audio, frag_ms));
}

/// Build the full ffmpeg argv for one stream.
///
/// `keyframe_start` says the encoder will be primed from a video keyframe, so
/// stream analysis can be short; see [`probe_window`].
pub fn plan(
    fmt: OutputFormat,
    audio_codec: Option<&str>,
    frag_ms: FragDurationMs,
    keyframe_start: bool,
) -> (r: Plan)
    ensures
        texts(r.args@) == argv(fmt, codec_view(audio_codec), frag_ms, keyframe_start),
        (r.video, r.audio) == modes_of(fmt, codec_view(audio_codec)),
{
    let mut args = input_args(fmt, keyframe_start);
    let (video, audio) = modes(fmt, audio_codec);
    match fmt {
        OutputFormat::Adts | OutputFormat::Mp3 => {
            audio_only_args(&mut args, fmt, audio);
            assert(output_words(fmt, audio, None) == output_words(fmt, audio, frag_ms));
        },
        OutputFormat::Fmp4 => {
            mp4_args(&mut args, audio, frag_ms);
        },
    }
    Plan { args, video, audio }
}

/// Audio is copied exactly when the source is already what the endpoint
/// serves: AAC for ADTS and for MP4, MP3 for MP3. Otherwise it is transcoded,
/// but for a source without audio in an MP4, which has none to transcode.
pub proof fn law_audio_is_copied_first(fmt: OutputFormat, codec: Option<Seq<char>>)
    ensures
        modes_of(fmt, codec).1 == TrackMode::Copy <==> codec == Some(
            if fmt == OutputFormat::Mp3 {
                "mp3"@
            } else {
                "aac"@
            },
        ),
        modes_of(fmt, codec).1 == TrackMode::Dropped <==> fmt == OutputFormat::Fmp4 && codec is None,
{
}

/// Video is always copied where it is served, and never transcoded.
pub proof fn law_video_is_never_transcoded(fmt: OutputFormat, codec: Option<Seq<char>>)
    ensures
        modes_of(fmt, codec).0 == (if fmt == OutputFormat::Fmp4 {
            TrackMode::Copy
        } else {
            TrackMode::Dropped
        }),
{
}

/// Whether `run` stands somewhere in `v`, word after word.
pub open spec fn holds_run(v: Seq<Seq<char>>, run: Seq<Seq<char>>) -> bool {
    exists|i: int|
        0 <= i && i + run.len() <= v.len() && #[trigger] v.subrange(i, i + run.len()) == run
}

/// The input side comes first and ends with the shared TS pipe, so every
/// demuxer option precedes `-i`. Direct I/O is set on the output side only:
/// no word of the input side is `-avioflags`, and the output side sets it,
/// together with flushing per packet.
pub proof fn law_input_is_buffered_and_output_is_flushed(
    fmt: OutputFormat,
    codec: Option<Seq<char>>,
    frag_ms: FragDurationMs,
    keyframe_start: bool,
)
    ensures
        ({
            let args = argv(fmt, codec, frag_ms, keyframe_start);
            let input = input_words(fmt, keyframe_start);
            let output = args.skip(input.len() as int);
            &&& args.take(input.len() as int) == input
            &&& input.skip(input.len() - 4) == seq!["-f"@, "mpegts"@, "-i"@, "pipe:0"@]
            &&& !input.contains("-avioflags"@)
            &&& holds_run(output, flush_words())
        }),
{
    let args = argv(fmt, codec, frag_ms, keyframe_start);
    let input = input_words(fmt, keyframe_start);
    let audio = modes_of(fmt, codec).1;
    let output = output_words(fmt, audio, frag_ms);
    assert(args.take(input.len() as int) =~= input);
    assert(args.skip(input.len() as int) =~= output);
    assert(input.skip(input.len() - 4) =~= seq!["-f"@, "mpegts"@, "-i"@, "pipe:0"@]);
    reveal_strlit("-avioflags");
    reveal_strlit("-hide_banner");
    reveal_strlit("-loglevel");
    reveal_strlit("error");
    reveal_strlit("-fflags");
    reveal_strlit("discardcorrupt");
    reveal_strlit("-analyzeduration");
    reveal_strlit("1000000");
    reveal_strlit("2000000");
    reveal_strlit("3000000");
    reveal_strlit("5000000");
    reveal_strlit("500000");
    reveal_strlit("-probesize");
    reveal_strlit("-f");
    reveal_strlit("mpegts");
    reveal_strlit("-i");
    reveal_strlit("pipe:0");
    let direct = "-avioflags"@;
    assert(direct.len() == 10);
    assert(input[0].len() == 12 && input[1].len() == 9 && input[2].len() == 5 && input[3].len()
        == 7 && input[4].len() == 14 && input[5].len() == 16 && input[6].len() == 7);
    assert(input[7][1] != direct[1]);
    assert(input[8].len() <= 7 && input[9].len() == 2 && input[10].len() == 6 && input[11].len()
        == 2 && input[12].len() == 6);
    let at: int = if fmt == OutputFormat::Fmp4 {
        4 + mp4_audio_words(audio).len() as int
    } else {
        3 + audio_only_words(fmt, audio).len() as int
    };
    assert(output.subrange(at, at + flush_words().len()) =~= flush_words());
}

} // verus!
