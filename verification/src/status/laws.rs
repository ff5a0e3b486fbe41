//! What a report says, field by field.
use super::{OutputView, StreamStatusView};
use crate::format::OutputFormat;
use crate::json;
use crate::json::Tree;
use crate::registry::encoder::EncoderView;
use crate::registry::stream::StreamView;
use crate::replay::Nanos;
use vstd::prelude::*;

verus! {

/// A field of an object is found by its name, the first of that name if there
/// are several.
pub proof fn law_a_field_is_found_by_its_name(
    fields: Seq<(Seq<char>, Tree)>,
    i: int,
    key: Seq<char>,
)
    requires
        0 <= i <= fields.len(),
        forall|j: int| 0 <= j < i ==> (#[trigger] fields[j]).0 != key,
        i < fields.len() ==> fields[i].0 == key,
    ensures
        json::field(Tree::Object(fields), key) == if i < fields.len() {
            Some(fields[i].1)
        } else {
            None
        },
    decreases i,
{
    if i > 0 {
        let rest = fields.skip(1);
        assert(fields[0].0 != key);
        assert(forall|j: int| 0 <= j < rest.len() ==> rest[j] == fields[j + 1]);
        law_a_field_is_found_by_its_name(rest, i - 1, key);
    }
}

/// How many encoders these pulls have.
pub open spec fn encoders(ss: Seq<StreamStatusView>) -> int
    decreases ss.len(),
{
    if ss.len() == 0 {
        0
    } else {
        ss[0].outputs.len() + encoders(ss.skip(1))
    }
}

/// How many listeners these encoders have.
pub open spec fn on_outputs(os: Seq<OutputView>) -> int
    decreases os.len(),
{
    if os.len() == 0 {
        0
    } else {
        os[0].listeners.len() + on_outputs(os.skip(1))
    }
}

/// How many listeners these pulls have.
pub open spec fn listeners(ss: Seq<StreamStatusView>) -> int
    decreases ss.len(),
{
    if ss.len() == 0 {
        0
    } else {
        on_outputs(ss[0].outputs) + listeners(ss.skip(1))
    }
}

proof fn lemma_encoders_last(ss: Seq<StreamStatusView>)
    requires
        ss.len() > 0,
    ensures
        encoders(ss) == encoders(ss.drop_last()) + ss.last().outputs.len(),
        encoders(ss.drop_last()) >= 0,
    decreases ss.len(),
{
    reveal_with_fuel(encoders, 2);
    if ss.len() == 1 {
        assert(ss.drop_last() =~= Seq::empty());
        assert(ss.skip(1) =~= Seq::empty());
    } else {
        assert(ss.skip(1).drop_last() =~= ss.drop_last().skip(1));
        lemma_encoders_last(ss.skip(1));
    }
}

proof fn lemma_outputs_last(os: Seq<OutputView>)
    requires
        os.len() > 0,
    ensures
        on_outputs(os) == on_outputs(os.drop_last()) + os.last().listeners.len(),
    decreases os.len(),
{
    reveal_with_fuel(on_outputs, 2);
    if os.len() == 1 {
        assert(os.drop_last() =~= Seq::empty());
        assert(os.skip(1) =~= Seq::empty());
    } else {
        assert(os.skip(1).drop_last() =~= os.drop_last().skip(1));
        lemma_outputs_last(os.skip(1));
    }
}

proof fn lemma_listeners_last(ss: Seq<StreamStatusView>)
    requires
        ss.len() > 0,
    ensures
        listeners(ss) == listeners(ss.drop_last()) + on_outputs(ss.last().outputs),
    decreases ss.len(),
{
    reveal_with_fuel(listeners, 2);
    if ss.len() == 1 {
        assert(ss.drop_last() =~= Seq::empty());
        assert(ss.skip(1) =~= Seq::empty());
    } else {
        assert(ss.skip(1).drop_last() =~= ss.drop_last().skip(1));
        lemma_listeners_last(ss.skip(1));
    }
}

proof fn lemma_counts_grow(ss: Seq<StreamStatusView>)
    ensures
        encoders(ss) >= 0,
        listeners(ss) >= 0,
    decreases ss.len(),
{
    if ss.len() > 0 {
        lemma_counts_grow(ss.skip(1));
        lemma_on_outputs_grow(ss[0].outputs);
    }
}

proof fn lemma_on_outputs_grow(os: Seq<OutputView>)
    ensures
        on_outputs(os) >= 0,
    decreases os.len(),
{
    if os.len() > 0 {
        lemma_on_outputs_grow(os.skip(1));
    }
}

proof fn lemma_listeners_on(os: Seq<OutputView>, before: u64)
    requires
        before + on_outputs(os) <= u64::MAX,
    ensures
        super::listeners_on(os, before) == before + on_outputs(os),
    decreases os.len(),
{
    if os.len() > 0 {
        lemma_outputs_last(os);
        lemma_on_outputs_grow(os.drop_last());
        lemma_listeners_on(os.drop_last(), before);
    }
}

proof fn lemma_counts(ss: Seq<StreamStatusView>)
    requires
        encoders(ss) <= u64::MAX,
        listeners(ss) <= u64::MAX,
    ensures
        super::encoders_in(ss) == encoders(ss),
        super::listeners_in(ss) == listeners(ss),
    decreases ss.len(),
{
    if ss.len() > 0 {
        lemma_encoders_last(ss);
        lemma_listeners_last(ss);
        lemma_counts_grow(ss.drop_last());
        lemma_on_outputs_grow(ss.last().outputs);
        lemma_counts(ss.drop_last());
        lemma_listeners_on(ss.last().outputs, super::listeners_in(ss.drop_last()));
    }
}

/// Names of one object are told apart by these.
proof fn lemma_names()
    ensures
        "uptime_s"@ != "summary"@,
        "uptime_s"@ != "streams"@,
        "summary"@ != "streams"@,
        "engine_pulls"@ != "encoders"@,
        "engine_pulls"@ != "listeners"@,
        "encoders"@ != "listeners"@,
{
    reveal_strlit("uptime_s");
    reveal_strlit("summary");
    reveal_strlit("streams");
    reveal_strlit("engine_pulls");
    reveal_strlit("encoders");
    reveal_strlit("listeners");
    assert("uptime_s"@.len() == 8 && "summary"@.len() == 7 && "streams"@.len() == 7);
    assert("summary"@[1] != "streams"@[1]);
    assert("engine_pulls"@.len() == 12 && "encoders"@.len() == 8 && "listeners"@.len() == 9);
}

/// The report says how long the service has been up, and counts every pull,
/// every encoder on one, and every listener on one of those.
pub proof fn law_the_summary_counts_everything(uptime_s: u64, ss: Seq<StreamStatusView>)
    requires
        ss.len() <= u64::MAX,
        encoders(ss) <= u64::MAX,
        listeners(ss) <= u64::MAX,
    ensures
        ({
            let t = super::report(uptime_s, ss);
            &&& json::field(t, "uptime_s"@) == Some(Tree::Count(uptime_s))
            &&& json::field(t, "summary"@) matches Some(s) && {
                &&& json::field(s, "engine_pulls"@) == Some(Tree::Count(ss.len() as u64))
                &&& json::field(s, "encoders"@) == Some(Tree::Count(encoders(ss) as u64))
                &&& json::field(s, "listeners"@) == Some(Tree::Count(listeners(ss) as u64))
            }
        }),
{
    lemma_names();
    lemma_counts(ss);
    let fields = super::report(uptime_s, ss)->Object_0;
    law_a_field_is_found_by_its_name(fields, 0, "uptime_s"@);
    law_a_field_is_found_by_its_name(fields, 1, "summary"@);
    let s = fields[1].1->Object_0;
    law_a_field_is_found_by_its_name(s, 0, "engine_pulls"@);
    law_a_field_is_found_by_its_name(s, 1, "encoders"@);
    law_a_field_is_found_by_its_name(s, 2, "listeners"@);
}

proof fn lemma_stream_names()
    ensures
        "content_id"@.len() == 10,
        "uptime_s"@.len() == 8,
        "bytes_from_engine"@.len() == 17,
        "lingering"@.len() == 9,
        "source"@.len() == 6,
        "engine"@.len() == 6,
        "outputs"@.len() == 7,
        "source"@ != "engine"@,
        "video"@ != "audio"@,
{
    reveal_strlit("content_id");
    reveal_strlit("uptime_s");
    reveal_strlit("bytes_from_engine");
    reveal_strlit("lingering");
    reveal_strlit("source");
    reveal_strlit("engine");
    reveal_strlit("outputs");
    reveal_strlit("video");
    reveal_strlit("audio");
    assert("source"@[0] != "engine"@[0]);
    assert("video"@[0] != "audio"@[0]);
}

/// An optional text as JSON.
pub open spec fn or_null(s: Option<Seq<char>>) -> Tree {
    match s {
        Some(s) => Tree::Text(s),
        None => Tree::Null,
    }
}

/// Each pull is listed in order, with its id, its uptime, what it has read,
/// whether it lingers, its codecs, what the engine says, and its encoders.
pub proof fn law_a_pull_is_reported_as_it_is(uptime_s: u64, ss: Seq<StreamStatusView>, i: int)
    requires
        0 <= i < ss.len(),
    ensures
        json::field(super::report(uptime_s, ss), "streams"@) matches Some(Tree::List(items))
            && items.len() == ss.len() && {
            let t = items[i];
            let s = ss[i];
            &&& json::field(t, "content_id"@) == Some(Tree::Text(s.content_id))
            &&& json::field(t, "uptime_s"@) == Some(Tree::Count(s.uptime_s))
            &&& json::field(t, "bytes_from_engine"@) == Some(Tree::Count(s.bytes_in))
            &&& json::field(t, "lingering"@) == Some(Tree::Bool(s.lingering))
            &&& json::field(t, "source"@) matches Some(source) && {
                &&& json::field(source, "video"@) == Some(or_null(s.video))
                &&& json::field(source, "audio"@) == Some(or_null(s.audio))
            }
            &&& json::field(t, "engine"@) == Some(
                match s.engine {
                    Some(v) => Tree::Verbatim(v),
                    None => Tree::Null,
                },
            )
            &&& json::field(t, "outputs"@) matches Some(Tree::List(outputs)) && outputs.len()
                == s.outputs.len()
        },
{
    lemma_names();
    lemma_stream_names();
    let fields = super::report(uptime_s, ss)->Object_0;
    law_a_field_is_found_by_its_name(fields, 2, "streams"@);
    let f = super::stream_tree(ss[i])->Object_0;
    law_a_field_is_found_by_its_name(f, 0, "content_id"@);
    law_a_field_is_found_by_its_name(f, 1, "uptime_s"@);
    law_a_field_is_found_by_its_name(f, 2, "bytes_from_engine"@);
    law_a_field_is_found_by_its_name(f, 3, "lingering"@);
    law_a_field_is_found_by_its_name(f, 4, "source"@);
    law_a_field_is_found_by_its_name(f, 5, "engine"@);
    law_a_field_is_found_by_its_name(f, 6, "outputs"@);
    let source = f[4].1->Object_0;
    law_a_field_is_found_by_its_name(source, 0, "video"@);
    law_a_field_is_found_by_its_name(source, 1, "audio"@);
}

proof fn lemma_output_names()
    ensures
        "format"@.len() == 6,
        "video"@.len() == 5,
        "audio"@.len() == 5,
        "uptime_s"@.len() == 8,
        "bytes_out"@.len() == 9,
        "lingering"@.len() == 9,
        "listeners"@.len() == 9,
        "video"@ != "audio"@,
        "bytes_out"@ != "lingering"@,
        "bytes_out"@ != "listeners"@,
        "lingering"@ != "listeners"@,
        "peer"@.len() == 4,
        "bytes_sent"@.len() == 10,
{
    reveal_strlit("format");
    reveal_strlit("video");
    reveal_strlit("audio");
    reveal_strlit("uptime_s");
    reveal_strlit("bytes_out");
    reveal_strlit("lingering");
    reveal_strlit("listeners");
    reveal_strlit("peer");
    reveal_strlit("bytes_sent");
    assert("video"@[0] != "audio"@[0]);
    assert("bytes_out"@[0] != "lingering"@[0]);
    assert("bytes_out"@[0] != "listeners"@[0]);
    assert("lingering"@[2] != "listeners"@[2]);
}

/// Each encoder is reported with its format, what happens to its tracks, its
/// uptime, what it has put out, whether it lingers, and each listener with who
/// it is, for how long it has been there and what it has been sent.
pub proof fn law_an_encoder_is_reported_as_it_is(o: OutputView, i: int)
    requires
        0 <= i < o.listeners.len(),
    ensures
        ({
            let t = super::output_tree(o);
            &&& json::field(t, "format"@) == Some(Tree::Text(crate::format::format_name(o.fmt)))
            &&& json::field(t, "video"@) == Some(Tree::Text(crate::format::mode_word(o.video)))
            &&& json::field(t, "audio"@) == Some(Tree::Text(crate::format::mode_word(o.audio)))
            &&& json::field(t, "uptime_s"@) == Some(Tree::Count(o.uptime_s))
            &&& json::field(t, "bytes_out"@) == Some(Tree::Count(o.bytes_out))
            &&& json::field(t, "lingering"@) == Some(Tree::Bool(o.lingering))
            &&& json::field(t, "listeners"@) matches Some(Tree::List(ls)) && ls.len()
                == o.listeners.len() && {
                &&& json::field(ls[i], "peer"@) == Some(Tree::Text(o.listeners[i].0))
                &&& json::field(ls[i], "uptime_s"@) == Some(Tree::Count(o.listeners[i].1))
                &&& json::field(ls[i], "bytes_sent"@) == Some(Tree::Count(o.listeners[i].2))
            }
        }),
{
    lemma_output_names();
    let f = super::output_tree(o)->Object_0;
    law_a_field_is_found_by_its_name(f, 0, "format"@);
    law_a_field_is_found_by_its_name(f, 1, "video"@);
    law_a_field_is_found_by_its_name(f, 2, "audio"@);
    law_a_field_is_found_by_its_name(f, 3, "uptime_s"@);
    law_a_field_is_found_by_its_name(f, 4, "bytes_out"@);
    law_a_field_is_found_by_its_name(f, 5, "lingering"@);
    law_a_field_is_found_by_its_name(f, 6, "listeners"@);
    let l = super::listener_tree(o.listeners[i])->Object_0;
    law_a_field_is_found_by_its_name(l, 0, "peer"@);
    law_a_field_is_found_by_its_name(l, 1, "uptime_s"@);
    law_a_field_is_found_by_its_name(l, 2, "bytes_sent"@);
}

/// An uptime is in whole seconds.
pub proof fn law_an_uptime_is_in_whole_seconds(now: Nanos, then: Nanos)
    requires
        then <= now,
        now - then < 0x1_0000_0000_0000_0000,
    ensures
        ({
            let s = super::seconds(now, then);
            s * 1_000_000_000 <= now - then < s * 1_000_000_000 + 1_000_000_000
        }),
{
}

/// An encoder lingers while it has no listener, and is reported with each that
/// it has; a pull lingers while it has no encoder.
pub proof fn law_a_state_is_reported_as_it_is<H>(
    v: EncoderView,
    s: StreamView<H>,
    now: Nanos,
    clock: u64,
    outputs: Seq<OutputView>,
)
    ensures
        ({
            let o = super::output_state(v, now, clock);
            &&& (o.fmt, o.video, o.audio, o.bytes_out) == (v.fmt, v.video, v.audio, v.bytes_out)
            &&& o.lingering <==> v.listeners.len() == 0
            &&& o.listeners.len() == v.listeners.len()
            &&& forall|i: int|
                0 <= i < v.listeners.len() ==> #[trigger] o.listeners[i] == v.listeners[i].info(
                    clock,
                )
            &&& o.uptime_s == super::seconds(now, v.started)
        }),
        ({
            let t = super::stream_state(s, now, outputs);
            &&& (t.content_id, t.bytes_in, t.engine) == (s.content_id, s.bytes_in, s.stats)
            &&& t.lingering <==> forall|fmt: OutputFormat|
                (#[trigger] s.encoders.at(fmt)) is None
            &&& s.probe matches Some(p) ==> (t.video, t.audio) == (p.video, p.audio)
            &&& s.probe is None ==> t.video is None && t.audio is None
            &&& t.outputs == outputs
            &&& t.uptime_s == super::seconds(now, s.started)
        }),
{
}

} // verus!
