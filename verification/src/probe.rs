//! Source codec detection, the slow way.
//!
//! The usual way is the PMT: `ts::Scanner` names the program's streams from
//! the first packets of the pull, with no process spawned and nothing to wait
//! for. ffprobe is the fallback for a stream it cannot name, that is a private
//! stream with no descriptor it knows, and runs against a buffered preroll of
//! the shared pull rather than opening its own connection to the engine, so
//! even then it costs no extra engine session and happens once per content id
//! instead of once per listener.
use crate::json;
use crate::json::{Json, Tree};
use crate::text;
use crate::ts;
use vstd::prelude::*;

pub mod laws;

verus! {

#[derive(Debug, Clone, Default, PartialEq, Eq)]
pub struct Probe {
    pub video: Option<String>,
    pub audio: Option<String>,
}

/// The text behind an optional name.
pub open spec fn name_of(s: Option<String>) -> Option<Seq<char>> {
    match s {
        Some(s) => Some(s@),
        None => None,
    }
}

impl View for Probe {
    type V = ts::ProgramView;

    open spec fn view(&self) -> ts::ProgramView {
        ts::ProgramView { video: name_of(self.video), audio: name_of(self.audio) }
    }
}

fn owned(name: Option<&'static str>) -> (r: Option<String>)
    ensures
        name_of(r) == ts::pes::name_view(name),
{
    match name {
        Some(s) => Some(s.to_owned()),
        None => None,
    }
}

impl Probe {
    /// What the PMT named.
    pub fn from(p: ts::Program) -> (r: Probe)
        ensures
            r@ == p@,
    {
        Probe { video: owned(p.video), audio: owned(p.audio) }
    }

    /// The first audio stream's codec.
    pub fn audio_codec(&self) -> (r: Option<&str>)
        ensures
            crate::format::codec_view(r) == self@.audio,
    {
        match &self.audio {
            Some(s) => Some(s.as_str()),
            None => None,
        }
    }
}

/// The text of a field, if it is one.
pub open spec fn text_field(t: Tree, key: Seq<char>) -> Option<Seq<char>> {
    match json::field(t, key) {
        Some(Tree::Text(s)) => Some(s),
        _ => None,
    }
}

/// The codec of the first stream of the given type that has a codec name.
pub open spec fn first_codec(streams: Seq<Tree>, kind: Seq<char>) -> Option<Seq<char>>
    decreases streams.len(),
{
    if streams.len() == 0 {
        None
    } else {
        match text_field(streams[0], "codec_name"@) {
            Some(name) => if name.len() > 0 && text_field(streams[0], "codec_type"@) == Some(kind) {
                Some(name)
            } else {
                first_codec(streams.skip(1), kind)
            },
            None => first_codec(streams.skip(1), kind),
        }
    }
}

/// What an ffprobe report says of the source.
pub open spec fn probe_in(t: Tree) -> Result<ts::ProgramView, Seq<char>> {
    match json::field(t, "streams"@) {
        Some(Tree::List(streams)) => {
            let video = first_codec(streams, "video"@);
            let audio = first_codec(streams, "audio"@);
            if video is None && audio is None {
                Err("no audio or video stream found"@)
            } else {
                Ok(ts::ProgramView { video, audio })
            }
        },
        _ => Err("ffprobe output had no streams array"@),
    }
}

/// What ffprobe output, which should be such a report, says of the source.
pub open spec fn probe_text(out: Seq<char>) -> Result<ts::ProgramView, Seq<char>> {
    match json::document(out) {
        Ok(t) => probe_in(t),
        Err(e) => Err("ffprobe output was not json: "@ + e),
    }
}

/// The view of what a probe returns.
pub open spec fn outcome(r: Result<Probe, String>) -> Result<ts::ProgramView, Seq<char>> {
    match r {
        Ok(p) => Ok(p@),
        Err(e) => Err(e@),
    }
}

/// The text of a field, if it is one.
fn text_of<'a>(j: &'a Json, key: &str) -> (r: Option<&'a str>)
    ensures
        crate::format::codec_view(r) == text_field(j.tree(), key@),
{
    match j.get(key) {
        Some(f) => f.as_str(),
        None => None,
    }
}

/// Read an ffprobe report: the first codec of each type.
///
/// MPEG-TS lists streams both inside the program and at top level, so ffprobe
/// reports each one twice; the first of each `codec_type` wins.
pub fn read_report(report: &Json) -> (r: Result<Probe, String>)
    ensures
        outcome(r) == probe_in(report.tree()),
{
    let streams: &Vec<Json> = match report.get("streams") {
        Some(s) => match s.as_array() {
            Some(items) => items,
            None => {
                return Err("ffprobe output had no streams array".to_owned());
            },
        },
        None => {
            return Err("ffprobe output had no streams array".to_owned());
        },
    };
    let ghost all = json::trees(streams@);
    let mut video: Option<String> = None;
    let mut audio: Option<String> = None;
    let mut i: usize = 0;
    assert(all.skip(0) =~= all);
    proof {
        reveal_strlit("video");
        reveal_strlit("audio");
        assert("video"@[0] != "audio"@[0]);
    }
    while i < streams.len()
        invariant
            i <= streams@.len(),
            all == json::trees(streams@),
            json::field(report.tree(), "streams"@) == Some(Tree::List(all)),
            "video"@ != "audio"@,
            first_codec(all, "video"@) == (if video is Some {
                name_of(video)
            } else {
                first_codec(all.skip(i as int), "video"@)
            }),
            first_codec(all, "audio"@) == (if audio is Some {
                name_of(audio)
            } else {
                first_codec(all.skip(i as int), "audio"@)
            }),
        decreases streams.len() - i,
    {
        let s = &streams[i];
        proof {
            assert(all.skip(i as int)[0] == s.tree());
            assert(all.skip(i as int).skip(1) =~= all.skip(i + 1));
        }
        match text_of(s, "codec_name") {
            Some(name) => {
                if !name.is_empty() {
                    match text_of(s, "codec_type") {
                        Some(kind) => {
                            if text::same(kind, "video") {
                                if video.is_none() {
                                    video = Some(name.to_owned());
                                }
                            } else if text::same(kind, "audio") {
                                if audio.is_none() {
                                    audio = Some(name.to_owned());
                                }
                            }
                        },
                        None => {},
                    }
                }
            },
            None => {},
        }
        i = i + 1;
    }
    assert(all.skip(i as int) =~= Seq::empty());
    if video.is_none() && audio.is_none() {
        return Err("no audio or video stream found".to_owned());
    }
    Ok(Probe { video, audio })
}

/// Parse `ffprobe -of json` output into the first codec of each type.
pub fn parse(json: &str) -> (r: Result<Probe, String>)
    ensures
        outcome(r) == probe_text(json@),
{
    match json::from_text(json) {
        Ok(v) => read_report(&json::plain(v)),
        Err(e) => {
            let mut m = "ffprobe output was not json: ".to_owned();
            m.append(e.as_str());
            Err(m)
        },
    }
}

/// The ffprobe argv. The preroll is always TS; naming the demuxer skips
/// detection.
pub open spec fn argv() -> Seq<Seq<char>> {
    seq![
        "-v"@,
        "error"@,
        "-f"@,
        "mpegts"@,
        "-analyzeduration"@,
        "500000"@,
        "-probesize"@,
        "200000"@,
        "-show_entries"@,
        "stream=codec_type,codec_name"@,
        "-of"@,
        "json"@,
        "-i"@,
        "pipe:0"@,
    ]
}

/// The ffprobe argv.
pub fn args() -> (r: Vec<String>)
    ensures
        crate::format::texts(r@) == argv(),
{
    let mut args: Vec<String> = Vec::new();
    crate::format::add_words(&mut args, &["-v", "error", "-f", "mpegts"]);
    crate::format::add_words(&mut args, &["-analyzeduration", "500000", "-probesize", "200000"]);
    crate::format::add_words(&mut args, &["-show_entries", "stream=codec_type,codec_name"]);
    crate::format::add_words(&mut args, &["-of", "json", "-i", "pipe:0"]);
    assert(crate::format::texts(args@) =~= argv());
    args
}

/// What an ffprobe run comes to, from how it ended and what it wrote. A run
/// that failed says why in its own words, or failing that how it ended.
pub open spec fn concluded(
    success: bool,
    ended: Seq<char>,
    stderr: Seq<char>,
    stdout: Seq<char>,
) -> Result<ts::ProgramView, Seq<char>> {
    let said = text::trimmed_end(text::trimmed_start(stderr));
    if success {
        probe_text(stdout)
    } else if said.len() == 0 {
        Err("ffprobe exited with "@ + ended)
    } else {
        Err(said)
    }
}

/// What an ffprobe run comes to. `ended` says in words how it ended.
pub fn conclude(success: bool, ended: &str, stderr: &[u8], stdout: &[u8]) -> (r: Result<
    Probe,
    String,
>)
    ensures
        outcome(r) == concluded(
            success,
            ended@,
            text::lossy_text(stderr@),
            text::lossy_text(stdout@),
        ),
{
    if !success {
        let words = text::lossy(stderr);
        let said = text::trim(words.as_str());
        return if said.is_empty() {
            let mut m = "ffprobe exited with ".to_owned();
            m.append(ended);
            Err(m)
        } else {
            Err(said.to_owned())
        };
    }
    parse(text::lossy(stdout).as_str())
}

} // verus!
