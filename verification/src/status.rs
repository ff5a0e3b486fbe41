//! The /status endpoint: what this service is pulling, what it is producing,
//! and what the AceStream engine reports about each swarm.
use serde_json::Value;

use crate::json;
use crate::json::{Json, Tree};
use crate::probe;
use crate::registry::encoder;
use crate::registry::listener;
use crate::registry::stream::StreamView;
use crate::registry::{Encoder, EngineStream};
use crate::replay::clock;
use crate::replay::Nanos;
use crate::format::{OutputFormat, TrackMode};
use vstd::prelude::*;

pub mod laws;

verus! {

/// One encoder's state.
#[derive(Debug)]
pub struct OutputStatus {
    pub fmt: OutputFormat,
    pub video: TrackMode,
    pub audio: TrackMode,
    pub uptime_s: u64,
    pub bytes_out: u64,
    /// No listener; ffmpeg is being kept for a reconnect.
    pub lingering: bool,
    /// Each listener, for how many seconds it has been there, and how many
    /// bytes it has been sent.
    pub listeners: Vec<(String, u64, u64)>,
}

/// One pull's state.
#[derive(Debug)]
pub struct StreamStatus {
    pub content_id: String,
    pub uptime_s: u64,
    pub bytes_in: u64,
    /// No encoder; the pull is being kept for a reconnect.
    pub lingering: bool,
    pub video: Option<String>,
    pub audio: Option<String>,
    /// Passed through verbatim: the shape varies between engine versions, and
    /// none means the engine offered no statistics.
    pub engine: Option<Value>,
    pub outputs: Vec<OutputStatus>,
}

#[verifier::ext_equal]
pub struct OutputView {
    pub fmt: OutputFormat,
    pub video: TrackMode,
    pub audio: TrackMode,
    pub uptime_s: u64,
    pub bytes_out: u64,
    pub lingering: bool,
    pub listeners: Seq<(Seq<char>, u64, u64)>,
}

#[verifier::ext_equal]
pub struct StreamStatusView {
    pub content_id: Seq<char>,
    pub uptime_s: u64,
    pub bytes_in: u64,
    pub lingering: bool,
    pub video: Option<Seq<char>>,
    pub audio: Option<Seq<char>>,
    pub engine: Option<Value>,
    pub outputs: Seq<OutputView>,
}

impl View for OutputStatus {
    type V = OutputView;

    open spec fn view(&self) -> OutputView {
        OutputView {
            fmt: self.fmt,
            video: self.video,
            audio: self.audio,
            uptime_s: self.uptime_s,
            bytes_out: self.bytes_out,
            lingering: self.lingering,
            listeners: encoder::info_views(self.listeners@),
        }
    }
}

pub open spec fn output_views(s: Seq<OutputStatus>) -> Seq<OutputView> {
    s.map_values(|o: OutputStatus| o@)
}

impl View for StreamStatus {
    type V = StreamStatusView;

    open spec fn view(&self) -> StreamStatusView {
        StreamStatusView {
            content_id: self.content_id@,
            uptime_s: self.uptime_s,
            bytes_in: self.bytes_in,
            lingering: self.lingering,
            video: probe::name_of(self.video),
            audio: probe::name_of(self.audio),
            engine: self.engine,
            outputs: output_views(self.outputs@),
        }
    }
}

pub open spec fn stream_views(s: Seq<StreamStatus>) -> Seq<StreamStatusView> {
    s.map_values(|x: StreamStatus| x@)
}

/// Whole seconds from `then` to `now`.
pub open spec fn seconds(now: Nanos, then: Nanos) -> u64 {
    let s = clock::age(now, then) / 1_000_000_000;
    if s <= u64::MAX {
        s as u64
    } else {
        u64::MAX
    }
}

fn seconds_of(now: Nanos, then: Nanos) -> (r: u64)
    ensures
        r == seconds(now, then),
{
    let s: u128 = clock::age_of(now, then) / 1_000_000_000;
    if s <= u64::MAX as u128 {
        s as u64
    } else {
        u64::MAX
    }
}

/// An encoder's state. `clock` is the time on the encoder's own clock.
pub open spec fn output_state(v: encoder::EncoderView, now: Nanos, clock: u64) -> OutputView {
    OutputView {
        fmt: v.fmt,
        video: v.video,
        audio: v.audio,
        uptime_s: seconds(now, v.started),
        bytes_out: v.bytes_out,
        lingering: v.listeners.len() == 0,
        listeners: encoder::infos(v.listeners, clock),
    }
}

/// A pull's state, with that of its encoders.
pub open spec fn stream_state<H>(
    v: StreamView<H>,
    now: Nanos,
    outputs: Seq<OutputView>,
) -> StreamStatusView {
    StreamStatusView {
        content_id: v.content_id,
        uptime_s: seconds(now, v.started),
        bytes_in: v.bytes_in,
        lingering: v.encoders.vacant(),
        video: match v.probe {
            Some(p) => p.video,
            None => None,
        },
        audio: match v.probe {
            Some(p) => p.audio,
            None => None,
        },
        engine: v.stats,
        outputs,
    }
}

/// An encoder's state. `clock` is the time on the encoder's own clock.
pub fn output_of(enc: &Encoder, now: Nanos, clock: u64) -> (r: OutputStatus)
    ensures
        r@ == (OutputView {
            fmt: enc@.fmt,
            video: enc@.video,
            audio: enc@.audio,
            uptime_s: seconds(now, enc@.started),
            bytes_out: enc@.bytes_out,
            lingering: enc@.listeners.len() == 0,
            listeners: encoder::infos(enc@.listeners, clock),
        }),
        r@ == output_state(enc@, now, clock),
{
    let (video, audio) = enc.modes();
    OutputStatus {
        fmt: enc.fmt(),
        video,
        audio,
        uptime_s: seconds_of(now, enc.started()),
        bytes_out: enc.bytes_out(),
        lingering: enc.lingering(),
        listeners: enc.listener_info(clock),
    }
}

/// A pull's state, with that of its encoders.
pub fn stream_of<H>(s: &EngineStream<H>, now: Nanos, outputs: Vec<OutputStatus>) -> (r:
    StreamStatus)
    ensures
        r@ == (StreamStatusView {
            content_id: s@.content_id,
            uptime_s: seconds(now, s@.started),
            bytes_in: s@.bytes_in,
            lingering: s@.encoders.vacant(),
            video: match s@.probe {
                Some(p) => p.video,
                None => None,
            },
            audio: match s@.probe {
                Some(p) => p.audio,
                None => None,
            },
            engine: s@.stats,
            outputs: output_views(outputs@),
        }),
        r@ == stream_state(s@, now, output_views(outputs@)),
{
    let (video, audio): (Option<String>, Option<String>) = match s.probe() {
        Some(p) => (
            match &p.video {
                Some(v) => Some(v.clone()),
                None => None,
            },
            match &p.audio {
                Some(a) => Some(a.clone()),
                None => None,
            },
        ),
        None => (None, None),
    };
    let engine: Option<Value> = match s.stats() {
        Some(v) => Some(v.clone()),
        None => None,
    };
    StreamStatus {
        content_id: s.content_id().clone(),
        uptime_s: seconds_of(now, s.started()),
        bytes_in: s.bytes_in(),
        lingering: s.lingering(),
        video,
        audio,
        engine,
        outputs,
    }
}

/// An optional text.
pub open spec fn text_tree(s: Option<Seq<char>>) -> Tree {
    match s {
        Some(s) => Tree::Text(s),
        None => Tree::Null,
    }
}

pub open spec fn listener_tree(l: (Seq<char>, u64, u64)) -> Tree {
    Tree::Object(
        seq![
            ("peer"@, Tree::Text(l.0)),
            ("uptime_s"@, Tree::Count(l.1)),
            ("bytes_sent"@, Tree::Count(l.2)),
        ],
    )
}

pub open spec fn output_tree(o: OutputView) -> Tree {
    Tree::Object(
        seq![
            ("format"@, Tree::Text(crate::format::format_name(o.fmt))),
            ("video"@, Tree::Text(crate::format::mode_word(o.video))),
            ("audio"@, Tree::Text(crate::format::mode_word(o.audio))),
            ("uptime_s"@, Tree::Count(o.uptime_s)),
            ("bytes_out"@, Tree::Count(o.bytes_out)),
            ("lingering"@, Tree::Bool(o.lingering)),
            (
                "listeners"@,
                Tree::List(
                    o.listeners.map_values(|l: (Seq<char>, u64, u64)| listener_tree(l)),
                ),
            ),
        ],
    )
}

pub open spec fn engine_tree(v: Option<Value>) -> Tree {
    match v {
        Some(v) => Tree::Verbatim(v),
        None => Tree::Null,
    }
}

pub open spec fn stream_tree(s: StreamStatusView) -> Tree {
    Tree::Object(
        seq![
            ("content_id"@, Tree::Text(s.content_id)),
            ("uptime_s"@, Tree::Count(s.uptime_s)),
            ("bytes_from_engine"@, Tree::Count(s.bytes_in)),
            ("lingering"@, Tree::Bool(s.lingering)),
            (
                "source"@,
                Tree::Object(
                    seq![("video"@, text_tree(s.video)), ("audio"@, text_tree(s.audio))],
                ),
            ),
            ("engine"@, engine_tree(s.engine)),
            ("outputs"@, Tree::List(s.outputs.map_values(|o: OutputView| output_tree(o)))),
        ],
    )
}

/// How many encoders these pulls have, modulo the counter's width.
pub open spec fn encoders_in(ss: Seq<StreamStatusView>) -> u64
    decreases ss.len(),
{
    if ss.len() == 0 {
        0
    } else {
        listener::counted(encoders_in(ss.drop_last()), ss.last().outputs.len() as int)
    }
}

/// How many listeners these encoders have, on top of `before`.
pub open spec fn listeners_on(os: Seq<OutputView>, before: u64) -> u64
    decreases os.len(),
{
    if os.len() == 0 {
        before
    } else {
        listener::counted(
            listeners_on(os.drop_last(), before),
            os.last().listeners.len() as int,
        )
    }
}

/// How many listeners these pulls have, modulo the counter's width.
pub open spec fn listeners_in(ss: Seq<StreamStatusView>) -> u64
    decreases ss.len(),
{
    if ss.len() == 0 {
        0
    } else {
        listeners_on(ss.last().outputs, listeners_in(ss.drop_last()))
    }
}

/// The whole report.
pub open spec fn report(uptime_s: u64, ss: Seq<StreamStatusView>) -> Tree {
    Tree::Object(
        seq![
            ("uptime_s"@, Tree::Count(uptime_s)),
            (
                "summary"@,
                Tree::Object(
                    seq![
                        ("engine_pulls"@, Tree::Count(ss.len() as u64)),
                        ("encoders"@, Tree::Count(encoders_in(ss))),
                        ("listeners"@, Tree::Count(listeners_in(ss))),
                    ],
                ),
            ),
            ("streams"@, Tree::List(ss.map_values(|s: StreamStatusView| stream_tree(s)))),
        ],
    )
}

/// Add a field to an object in the making.
fn put(fields: &mut Vec<(String, Json)>, key: &str, value: Json)
    ensures
        json::fields_of(final(fields)@) == json::fields_of(old(fields)@).push((key@, value.tree())),
{
    let ghost before = fields@;
    let f: (String, Json) = (key.to_owned(), value);
    fields.push(f);
    assert(json::fields_of(fields@) =~= json::fields_of(before).push((key@, value.tree())));
}

fn text_json(s: &Option<String>) -> (r: Json)
    ensures
        r.tree() == text_tree(probe::name_of(*s)),
{
    match s {
        Some(s) => Json::Text(s.clone()),
        None => Json::Null,
    }
}

fn listener_json(l: &(String, u64, u64)) -> (r: Json)
    ensures
        r.tree() == listener_tree(encoder::info_view(*l)),
{
    let mut f: Vec<(String, Json)> = Vec::new();
    put(&mut f, "peer", Json::Text(l.0.clone()));
    put(&mut f, "uptime_s", Json::Count(l.1));
    put(&mut f, "bytes_sent", Json::Count(l.2));
    proof {
        json::lemma_object(f);
        assert(json::fields_of(f@) =~= listener_tree(encoder::info_view(*l))->Object_0);
    }
    Json::Object(f)
}

fn output_json(o: &OutputStatus) -> (r: Json)
    ensures
        r.tree() == output_tree(o@),
{
    let ghost all = o@.listeners.map_values(|l: (Seq<char>, u64, u64)| listener_tree(l));
    let mut ls: Vec<Json> = Vec::new();
    let mut i: usize = 0;
    assert(json::trees(ls@) =~= all.take(0));
    while i < o.listeners.len()
        invariant
            i <= o.listeners@.len(),
            all == o@.listeners.map_values(|l: (Seq<char>, u64, u64)| listener_tree(l)),
            json::trees(ls@) == all.take(i as int),
        decreases o.listeners.len() - i,
    {
        let ghost before = ls@;
        let j = listener_json(&o.listeners[i]);
        ls.push(j);
        proof {
            assert(all[i as int] == j.tree());
            assert(json::trees(ls@) =~= json::trees(before).push(j.tree()));
            assert(all.take(i + 1) =~= all.take(i as int).push(all[i as int]));
        }
        i = i + 1;
    }
    assert(all.take(i as int) =~= all);
    proof {
        json::lemma_list(ls);
    }
    let mut f: Vec<(String, Json)> = Vec::new();
    put(&mut f, "format", Json::Text(o.fmt.as_str().to_owned()));
    put(&mut f, "video", Json::Text(o.video.as_str().to_owned()));
    put(&mut f, "audio", Json::Text(o.audio.as_str().to_owned()));
    put(&mut f, "uptime_s", Json::Count(o.uptime_s));
    put(&mut f, "bytes_out", Json::Count(o.bytes_out));
    put(&mut f, "lingering", Json::Bool(o.lingering));
    put(&mut f, "listeners", Json::List(ls));
    proof {
        json::lemma_object(f);
        assert(json::fields_of(f@) =~= output_tree(o@)->Object_0);
    }
    Json::Object(f)
}

fn stream_json(s: &StreamStatus) -> (r: Json)
    ensures
        r.tree() == stream_tree(s@),
{
    let ghost all = s@.outputs.map_values(|o: OutputView| output_tree(o));
    let mut outputs: Vec<Json> = Vec::new();
    let mut i: usize = 0;
    assert(json::trees(outputs@) =~= all.take(0));
    while i < s.outputs.len()
        invariant
            i <= s.outputs@.len(),
            all == s@.outputs.map_values(|o: OutputView| output_tree(o)),
            json::trees(outputs@) == all.take(i as int),
        decreases s.outputs.len() - i,
    {
        let ghost before = outputs@;
        let j = output_json(&s.outputs[i]);
        outputs.push(j);
        proof {
            assert(all[i as int] == j.tree());
            assert(json::trees(outputs@) =~= json::trees(before).push(j.tree()));
            assert(all.take(i + 1) =~= all.take(i as int).push(all[i as int]));
        }
        i = i + 1;
    }
    assert(all.take(i as int) =~= all);
    proof {
        json::lemma_list(outputs);
    }
    let mut source: Vec<(String, Json)> = Vec::new();
    put(&mut source, "video", text_json(&s.video));
    put(&mut source, "audio", text_json(&s.audio));
    proof {
        json::lemma_object(source);
        assert(json::fields_of(source@) =~= seq![
            ("video"@, text_tree(s@.video)),
            ("audio"@, text_tree(s@.audio)),
        ]);
    }
    let engine: Json = match &s.engine {
        Some(v) => Json::Verbatim(v.clone()),
        None => Json::Null,
    };
    let mut f: Vec<(String, Json)> = Vec::new();
    put(&mut f, "content_id", Json::Text(s.content_id.clone()));
    put(&mut f, "uptime_s", Json::Count(s.uptime_s));
    put(&mut f, "bytes_from_engine", Json::Count(s.bytes_in));
    put(&mut f, "lingering", Json::Bool(s.lingering));
    put(&mut f, "source", Json::Object(source));
    put(&mut f, "engine", engine);
    put(&mut f, "outputs", Json::List(outputs));
    proof {
        json::lemma_object(f);
        assert(json::fields_of(f@) =~= stream_tree(s@)->Object_0);
    }
    Json::Object(f)
}

/// How many listeners these encoders have, on top of `before`.
fn count_listeners(outputs: &Vec<OutputStatus>, before: u64) -> (r: u64)
    ensures
        r == listeners_on(output_views(outputs@), before),
{
    let ghost all = output_views(outputs@);
    let mut n: u64 = before;
    let mut i: usize = 0;
    assert(all.take(0) =~= Seq::empty());
    while i < outputs.len()
        invariant
            i <= outputs@.len(),
            all == output_views(outputs@),
            n == listeners_on(all.take(i as int), before),
        decreases outputs.len() - i,
    {
        proof {
            assert(all.take(i + 1).drop_last() =~= all.take(i as int));
            assert(all.take(i + 1).last() == outputs@[i as int]@);
        }
        n = n.wrapping_add(outputs[i].listeners.len() as u64);
        i = i + 1;
    }
    assert(all.take(i as int) =~= all);
    n
}

/// The report on these pulls.
pub fn snapshot(uptime_s: u64, streams: &Vec<StreamStatus>) -> (r: Json)
    ensures
        r.tree() == report(uptime_s, stream_views(streams@)),
{
    let ghost ss = stream_views(streams@);
    let ghost all = ss.map_values(|s: StreamStatusView| stream_tree(s));
    let mut listeners_total: u64 = 0;
    let mut encoders_total: u64 = 0;
    let mut list: Vec<Json> = Vec::new();
    let mut i: usize = 0;
    proof {
        assert(json::trees(list@) =~= all.take(0));
        assert(ss.take(0) =~= Seq::empty());
    }
    while i < streams.len()
        invariant
            i <= streams@.len(),
            ss == stream_views(streams@),
            all == ss.map_values(|s: StreamStatusView| stream_tree(s)),
            json::trees(list@) == all.take(i as int),
            encoders_total == encoders_in(ss.take(i as int)),
            listeners_total == listeners_in(ss.take(i as int)),
        decreases streams.len() - i,
    {
        let ghost before = list@;
        let s = &streams[i];
        proof {
            assert(ss.take(i + 1).drop_last() =~= ss.take(i as int));
            assert(ss.take(i + 1).last() == s@);
        }
        encoders_total = encoders_total.wrapping_add(s.outputs.len() as u64);
        listeners_total = count_listeners(&s.outputs, listeners_total);
        let j = stream_json(s);
        list.push(j);
        proof {
            assert(all[i as int] == j.tree());
            assert(json::trees(list@) =~= json::trees(before).push(j.tree()));
            assert(all.take(i + 1) =~= all.take(i as int).push(all[i as int]));
        }
        i = i + 1;
    }
    proof {
        assert(all.take(i as int) =~= all);
        assert(ss.take(i as int) =~= ss);
        json::lemma_list(list);
    }
    // The point of the two-tier fan-out: engine_pulls stays at one per
    // content id however many formats and listeners hang off it.
    let mut summary: Vec<(String, Json)> = Vec::new();
    put(&mut summary, "engine_pulls", Json::Count(streams.len() as u64));
    put(&mut summary, "encoders", Json::Count(encoders_total));
    put(&mut summary, "listeners", Json::Count(listeners_total));
    proof {
        json::lemma_object(summary);
        assert(json::fields_of(summary@) =~= seq![
            ("engine_pulls"@, Tree::Count(ss.len() as u64)),
            ("encoders"@, Tree::Count(encoders_in(ss))),
            ("listeners"@, Tree::Count(listeners_in(ss))),
        ]);
    }
    let mut f: Vec<(String, Json)> = Vec::new();
    put(&mut f, "uptime_s", Json::Count(uptime_s));
    put(&mut f, "summary", Json::Object(summary));
    put(&mut f, "streams", Json::List(list));
    proof {
        json::lemma_object(f);
        assert(json::fields_of(f@) =~= report(uptime_s, ss)->Object_0);
    }
    Json::Object(f)
}

/// The report on these pulls, as the JSON text that is served.
pub fn document(uptime_s: u64, streams: &Vec<StreamStatus>) -> (r: String)
    ensures
        r@ == json::written(json::value_of(report(uptime_s, stream_views(streams@)))),
{
    json::write(&json::value(snapshot(uptime_s, streams)))
}

/// The summary counts one engine pull per stream listed, whatever hangs off
/// it.
pub proof fn law_engine_pulls_count_the_streams(uptime_s: u64, ss: Seq<StreamStatusView>)
    requires
        ss.len() <= u64::MAX,
    ensures
        json::field(report(uptime_s, ss), "streams"@) == Some(
            Tree::List(ss.map_values(|s: StreamStatusView| stream_tree(s))),
        ),
        json::field(report(uptime_s, ss), "summary"@) matches Some(t) && json::field(
            t,
            "engine_pulls"@,
        ) == Some(Tree::Count(ss.len() as u64)),
{
    reveal_with_fuel(json::field_in, 4);
    reveal_strlit("uptime_s");
    reveal_strlit("summary");
    reveal_strlit("streams");
    let fields = report(uptime_s, ss)->Object_0;
    assert(fields[0].0 == "uptime_s"@);
    assert("uptime_s"@.len() != "summary"@.len());
    assert("uptime_s"@.len() != "streams"@.len());
    assert("summary"@[1] != "streams"@[1]);
}

} // verus!
