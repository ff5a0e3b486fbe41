//! What a report on a source says, stream by stream.
use crate::json;
use crate::json::Tree;
use crate::text;
use crate::ts::ProgramView;
use vstd::prelude::*;

verus! {

/// Whether a stream is of the given type and has a codec of this name.
pub open spec fn codec(t: Tree, kind: Seq<char>, name: Seq<char>) -> bool {
    &&& name.len() > 0
    &&& json::field(t, "codec_type"@) == Some(Tree::Text(kind))
    &&& json::field(t, "codec_name"@) == Some(Tree::Text(name))
}

/// The codec of a type is that of the first stream that is of that type and
/// has a name; without such a stream there is none.
pub proof fn law_the_first_stream_of_a_type_counts(
    streams: Seq<Tree>,
    kind: Seq<char>,
    i: int,
    name: Seq<char>,
)
    requires
        0 <= i <= streams.len(),
        forall|j: int, n: Seq<char>| 0 <= j < i ==> !#[trigger] codec(streams[j], kind, n),
    ensures
        i < streams.len() && codec(streams[i], kind, name) ==> super::first_codec(streams, kind)
            == Some(name),
        i == streams.len() ==> super::first_codec(streams, kind) is None,
    decreases i,
{
    if i > 0 {
        let rest = streams.skip(1);
        assert forall|j: int, n: Seq<char>| 0 <= j < i - 1 implies !#[trigger] codec(
            rest[j],
            kind,
            n,
        ) by {
            assert(rest[j] == streams[j + 1]);
        }
        law_the_first_stream_of_a_type_counts(rest, kind, i - 1, name);
        if let Some(n) = super::text_field(streams[0], "codec_name"@) {
            assert(!codec(streams[0], kind, n));
        }
    }
}

/// A report gives the first video and the first audio codec, and is refused if
/// it has neither or lists no streams.
pub proof fn law_a_report_gives_the_first_of_each_type(t: Tree, streams: Seq<Tree>)
    ensures
        json::field(t, "streams"@) == Some(Tree::List(streams)) ==> super::probe_in(t) == if
            super::first_codec(streams, "video"@) is None && super::first_codec(
            streams,
            "audio"@,
        ) is None {
            Err::<ProgramView, Seq<char>>("no audio or video stream found"@)
        } else {
            Ok(
                ProgramView {
                    video: super::first_codec(streams, "video"@),
                    audio: super::first_codec(streams, "audio"@),
                },
            )
        },
        !(json::field(t, "streams"@) matches Some(Tree::List(_))) ==> super::probe_in(t) == Err::<
            ProgramView,
            Seq<char>,
        >("ffprobe output had no streams array"@),
{
}

/// A run that went well says what its output says; one that failed says why in
/// its own words, without the space around them, or else how it ended.
pub proof fn law_a_failed_run_says_why(
    ended: Seq<char>,
    a: Seq<char>,
    words: Seq<char>,
    b: Seq<char>,
    stdout: Seq<char>,
)
    requires
        forall|i: int| 0 <= i < a.len() ==> text::is_space(#[trigger] a[i]),
        forall|i: int| 0 <= i < b.len() ==> text::is_space(#[trigger] b[i]),
        words.len() > 0 ==> !text::is_space(words[0]) && !text::is_space(words.last()),
    ensures
        super::concluded(true, ended, a + words + b, stdout) == super::probe_text(stdout),
        words.len() > 0 ==> super::concluded(false, ended, a + words + b, stdout) == Err::<
            ProgramView,
            Seq<char>,
        >(words),
        super::concluded(false, ended, Seq::empty(), stdout) == Err::<ProgramView, Seq<char>>(
            "ffprobe exited with "@ + ended,
        ),
{
    if words.len() > 0 {
        text::laws::law_trimming_takes_the_space_around(a, words, b);
    }
}

/// Output that is no JSON is refused with why; any other is read as a report.
pub proof fn law_output_is_read_as_a_report(out: Seq<char>)
    ensures
        json::document(out) matches Ok(t) ==> super::probe_text(out) == super::probe_in(t),
        json::document(out) matches Err(e) ==> super::probe_text(out) == Err::<
            ProgramView,
            Seq<char>,
        >("ffprobe output was not json: "@ + e),
{
}

/// ffprobe reads transport stream from its input and reports the type and the
/// codec of each stream as JSON.
pub proof fn law_ffprobe_is_asked_for_codecs()
    ensures
        ({
            let args = super::argv();
            &&& args.take(4) == seq!["-v"@, "error"@, "-f"@, "mpegts"@]
            &&& args.subrange(4, 8) == seq![
                "-analyzeduration"@,
                "500000"@,
                "-probesize"@,
                "200000"@,
            ]
            &&& args.skip(8) == seq![
                "-show_entries"@,
                "stream=codec_type,codec_name"@,
                "-of"@,
                "json"@,
                "-i"@,
                "pipe:0"@,
            ]
        }),
{
    let args = super::argv();
    assert(args.take(4) =~= seq!["-v"@, "error"@, "-f"@, "mpegts"@]);
    assert(args.subrange(4, 8) =~= seq![
        "-analyzeduration"@,
        "500000"@,
        "-probesize"@,
        "200000"@,
    ]);
    assert(args.skip(8) =~= seq![
        "-show_entries"@,
        "stream=codec_type,codec_name"@,
        "-of"@,
        "json"@,
        "-i"@,
        "pipe:0"@,
    ]);
}

} // verus!
