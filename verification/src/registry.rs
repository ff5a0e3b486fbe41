//! Two-tier fan-out.
//!
//! ```text
//!   engine  --1 pull per content id-->  EngineStream
//!                                          |  raw MPEG-TS
//!                    +---------------------+---------------------+
//!                    v                                           v
//!            Encoder (adts)   <-- 1 ffmpeg per format -->  Encoder (fmp4)
//!                    |                                           |
//!            +-------+-------+                           +-------+
//!            v               v                           v
//!        listener        listener                     listener
//! ```
//!
//! The last listener leaving an encoder tears down its ffmpeg, and the last
//! encoder leaving a content id closes the engine connection. Not immediately,
//! though. A reconnect is the common case for a live viewer (a phone changing
//! networks, a player restarting, a listener evicted for falling behind) and a
//! cold start costs the engine's swarm discovery. So the last leaver starts a
//! **linger** period (see [`linger`]): the encoder keeps running with no
//! listeners, and the engine pull keeps pulling with no encoders, until either
//! a new listener claims them or the period lapses.
use crate::format::FragDurationMs;
use crate::replay::Nanos;
use crate::text;
use vstd::prelude::*;

pub use encoder::Encoder;
pub use encoder::Subscription;
pub use stream::EngineStream;

pub mod encoder;
pub mod laws;
pub mod limits;
pub mod listener;
pub mod pull;
pub mod slots;
pub mod stream;

verus! {

#[derive(Debug)]
pub struct Config {
    pub engine_host: String,
    pub frag_duration_ms: FragDurationMs,
    /// How long an encoder outlives its last listener. Zero disables.
    pub encoder_linger: Nanos,
    /// How long an engine pull outlives its last encoder. Zero disables.
    pub engine_linger: Nanos,
}

/// For how long something outlives its last user: the period, unless that is
/// zero or there is another user.
pub open spec fn kept_for(period: Nanos, last: bool) -> Option<Nanos> {
    if last && period > 0 {
        Some(period)
    } else {
        None
    }
}

/// For how long something outlives its last user, if at all.
pub fn linger(period: Nanos, last: bool) -> (r: Option<Nanos>)
    ensures
        r == (if last && period > 0 {
            Some(period)
        } else {
            None
        }),
        r == kept_for(period, last),
{
    if last && period > 0 {
        Some(period)
    } else {
        None
    }
}

/// The hexadecimal digit with value `d`.
pub open spec fn hex_digit(d: int) -> char {
    if d < 10 {
        (48 + d) as char
    } else {
        (87 + d) as char
    }
}

/// A number in lower-case hexadecimal, without leading zeros.
pub open spec fn hex(n: nat) -> Seq<char>
    decreases n,
{
    if n < 16 {
        seq![hex_digit(n as int)]
    } else {
        hex(n / 16).push(hex_digit((n % 16) as int))
    }
}

fn hex_text(n: u128) -> (r: String)
    ensures
        r@ == hex(n as nat),
    decreases n,
{
    let d: u8 = (n % 16) as u8;
    let c: u8 = if d < 10 {
        48 + d
    } else {
        87 + d
    };
    assert(c as char == hex_digit((n % 16) as int));
    let mut r: String = if n < 16 {
        String::new()
    } else {
        hex_text(n / 16)
    };
    r.push(c as char);
    assert(n < 16 ==> r@ =~= seq![hex_digit(n as int)]);
    r
}

/// The name of a session that is opened at this time.
pub open spec fn session_name(nanos: nat) -> Seq<char> {
    "proxy-"@ + hex(nanos)
}

/// The name under which a session is opened, from the time in nanoseconds.
pub fn now_pid(nanos: u128) -> (r: String)
    ensures
        r@ == "proxy-"@ + hex(nanos as nat),
        r@ == session_name(nanos as nat),
{
    let mut r = "proxy-".to_owned();
    r.append(hex_text(nanos).as_str());
    r
}

/// The first eight bytes of a name, or all of it if it is shorter.
pub open spec fn first_eight(name: Seq<u8>) -> Seq<u8> {
    if name.len() > 8 {
        name.take(8)
    } else {
        name
    }
}

/// A thread name prefix from a content id: its first eight bytes, or all of it
/// if it is shorter. A content id is ASCII, so these are whole characters.
pub fn short(content_id: &str) -> (r: &str)
    requires
        vstd::utf8::encode_utf8(content_id@).len() > 8 ==> vstd::utf8::is_char_boundary(
            vstd::utf8::encode_utf8(content_id@),
            8,
        ),
    ensures
        vstd::utf8::encode_utf8(r@) == (if vstd::utf8::encode_utf8(content_id@).len() > 8 {
            vstd::utf8::encode_utf8(content_id@).take(8)
        } else {
            vstd::utf8::encode_utf8(content_id@)
        }),
        vstd::utf8::encode_utf8(r@) == first_eight(vstd::utf8::encode_utf8(content_id@)),
{
    if content_id.as_bytes().len() > 8 {
        let (r, _) = content_id.split_at(8);
        r
    } else {
        content_id
    }
}

/// The pulls that are known, by content id, oldest first. Entries outlive
/// their pulls; whether one is still alive only its handle knows.
#[derive(Debug)]
pub struct Registry<H> {
    streams: Vec<(String, H)>,
}

/// An entry as its view.
pub open spec fn entry<H>(e: (String, H)) -> (Seq<char>, H) {
    (e.0@, e.1)
}

impl<H> View for Registry<H> {
    type V = Seq<(Seq<char>, H)>;

    closed spec fn view(&self) -> Seq<(Seq<char>, H)> {
        self.streams@.map_values(|e: (String, H)| entry(e))
    }
}

/// Where a content id stands; the length if it is not known.
pub open spec fn place<H>(es: Seq<(Seq<char>, H)>, id: Seq<char>) -> int
    decreases es.len(),
{
    if es.len() == 0 || es[0].0 == id {
        0
    } else {
        1 + place(es.skip(1), id)
    }
}

/// The entries that are alive, in order.
pub open spec fn living<H>(es: Seq<(Seq<char>, H)>, alive: Seq<bool>) -> Seq<(Seq<char>, H)>
    decreases es.len(),
{
    if es.len() == 0 {
        Seq::empty()
    } else if alive[es.len() - 1] {
        living(es.drop_last(), alive).push(es.last())
    } else {
        living(es.drop_last(), alive)
    }
}

/// Whether no content id is listed twice.
pub open spec fn distinct<H>(es: Seq<(Seq<char>, H)>) -> bool {
    forall|i: int, j: int|
        #![trigger es[i], es[j]]
        0 <= i < j < es.len() ==> es[i].0 != es[j].0
}

/// Whether a pull for a content id is alive.
pub open spec fn runs<H>(es: Seq<(Seq<char>, H)>, alive: Seq<bool>, id: Seq<char>) -> bool {
    exists|i: int| 0 <= i < es.len() && alive[i] && (#[trigger] es[i]).0 == id
}

impl<H> Registry<H> {
    /// What holds of every registry: no content id is listed twice.
    pub open spec fn wf(self) -> bool {
        distinct(self@)
    }

    pub fn new() -> (r: Registry<H>)
        ensures
            r.wf(),
            r@.len() == 0,
    {
        Registry { streams: Vec::new() }
    }

    /// The known pulls.
    pub fn entries(&self) -> (r: &Vec<(String, H)>)
        ensures
            r@.map_values(|e: (String, H)| entry(e)) == self@,
    {
        &self.streams
    }

    /// The handle for a content id, if it is known.
    pub fn find(&self, id: &str) -> (r: Option<&H>)
        ensures
            r is Some <==> place(self@, id@) < self@.len(),
            r matches Some(h) ==> self@[place(self@, id@)] == (id@, *h),
    {
        let ghost all = self@;
        let mut i: usize = 0;
        assert(all.skip(0) =~= all);
        while i < self.streams.len()
            invariant
                i <= self.streams@.len(),
                all == self@,
                place(all, id@) == i + place(all.skip(i as int), id@),
            decreases self.streams.len() - i,
        {
            let e = &self.streams[i];
            proof {
                assert(all[i as int] == entry(self.streams@[i as int]));
                assert(all.skip(i as int)[0] == all[i as int]);
                assert(all.skip(i as int).skip(1) =~= all.skip(i + 1));
            }
            if text::same(e.0.as_str(), id) {
                return Some(&e.1);
            }
            i = i + 1;
        }
        assert(all.skip(i as int) =~= Seq::empty());
        None
    }

    /// Add a pull for a content id, unless one is alive already; true if it
    /// was added. Entries outlive their pulls; the dead ones are swept then,
    /// rather than growing by one per content id ever seen.
    pub fn engine_stream(&mut self, id: &str, alive: &Vec<bool>, handle: H) -> (r: bool)
        requires
            old(self).wf(),
            alive@.len() == old(self)@.len(),
        ensures
            final(self).wf(),
            r == !runs(old(self)@, alive@, id@),
            final(self)@ == (if r {
                living(old(self)@, alive@).push((id@, handle))
            } else {
                old(self)@
            }),
    {
        let ghost all = self@;
        let mut n: usize = 0;
        while n < alive.len()
            invariant
                n <= alive@.len(),
                alive@.len() == all.len(),
                all == self@,
                distinct(all),
                forall|i: int| 0 <= i < n && alive@[i] ==> (#[trigger] all[i]).0 != id@,
            decreases alive.len() - n,
        {
            assert(all[n as int] == entry(self.streams@[n as int]));
            if alive[n] && text::same(self.streams[n].0.as_str(), id) {
                assert(all[n as int].0 == id@);
                return false;
            }
            n = n + 1;
        }
        proof {
            law_one_pull_per_content_id(all, alive@, id@, handle);
        }
        let mut i: usize = 0;
        let mut k: usize = 0;
        proof {
            assert(all.take(0) =~= Seq::empty());
            assert(living(all.take(0), alive@) + all.skip(0) =~= all);
        }
        while k < alive.len()
            invariant
                i <= k <= alive@.len(),
                alive@.len() == all.len(),
                i == living(all.take(k as int), alive@).len(),
                self@ == living(all.take(k as int), alive@) + all.skip(k as int),
            decreases alive.len() - k,
        {
            let ghost kept = living(all.take(k as int), alive@);
            let ghost before = self.streams@;
            proof {
                assert(all.take(k + 1).drop_last() =~= all.take(k as int));
                assert(all.take(k + 1).last() == all[k as int]);
                assert(self@.len() == before.len());
            }
            if alive[k] {
                assert(kept + all.skip(k as int) =~= kept.push(all[k as int]) + all.skip(k + 1));
                i = i + 1;
            } else {
                let _ = self.streams.remove(i);
                proof {
                    assert(self@ =~= (kept + all.skip(k as int)).remove(i as int));
                    assert((kept + all.skip(k as int)).remove(kept.len() as int) =~= kept
                        + all.skip(k + 1));
                }
            }
            k = k + 1;
        }
        proof {
            assert(all.take(k as int) =~= all);
            assert(living(all, alive@) + all.skip(k as int) =~= living(all, alive@));
        }
        let ghost before = self@;
        let e: (String, H) = (id.to_owned(), handle);
        self.streams.push(e);
        assert(self@ =~= before.push((id@, handle)));
        true
    }
}

/// Whether an entry is among those alive.
pub open spec fn lives<H>(es: Seq<(Seq<char>, H)>, alive: Seq<bool>, e: (Seq<char>, H)) -> bool {
    exists|i: int| 0 <= i < es.len() && alive[i] && #[trigger] es[i] == e
}

/// What is alive comes from what was there, in order.
proof fn lemma_living<H>(es: Seq<(Seq<char>, H)>, alive: Seq<bool>)
    requires
        alive.len() >= es.len(),
        distinct(es),
    ensures
        distinct(living(es, alive)),
        forall|j: int|
            0 <= j < living(es, alive).len() ==> lives(es, alive, #[trigger] living(es, alive)[j]),
        forall|i: int|
            #![trigger es[i]]
            0 <= i < es.len() && alive[i] ==> living(es, alive).contains(es[i]),
    decreases es.len(),
{
    if es.len() > 0 {
        let front = es.drop_last();
        assert forall|i: int, j: int|
            #![trigger front[i], front[j]]
            0 <= i < j < front.len() implies front[i].0 != front[j].0 by {
            assert(es[i].0 != es[j].0);
        }
        lemma_living(front, alive);
        let kept = living(front, alive);
        let out = living(es, alive);
        assert forall|j: int| 0 <= j < out.len() implies lives(es, alive, #[trigger] out[j]) by {
            if j < kept.len() {
                assert(out[j] == kept[j]);
                let i = choose|i: int|
                    0 <= i < front.len() && alive[i] && #[trigger] front[i] == kept[j];
                assert(es[i] == out[j]);
            } else {
                assert(es[es.len() - 1] == out[j]);
            }
        }
        assert forall|i: int| #![trigger es[i]] 0 <= i < es.len() && alive[i] implies out.contains(
            es[i],
        ) by {
            if i < front.len() {
                assert(front[i] == es[i]);
                let j = choose|j: int| 0 <= j < kept.len() && kept[j] == es[i];
                assert(out[j] == es[i]);
            } else {
                assert(out[out.len() - 1] == es[i]);
            }
        }
        assert forall|i: int, j: int|
            #![trigger out[i], out[j]]
            0 <= i < j < out.len() implies out[i].0 != out[j].0 by {
            assert(out[i] == kept[i]);
            if j < kept.len() {
                assert(out[j] == kept[j]);
            } else {
                let a = choose|a: int|
                    0 <= a < front.len() && alive[a] && #[trigger] front[a] == kept[i];
                assert(es[a].0 != es[es.len() - 1].0);
            }
        }
    }
}

/// One pull per content id: where no living entry has the id, adding it keeps
/// every living entry, drops every dead one, and lists no id twice.
pub proof fn law_one_pull_per_content_id<H>(
    es: Seq<(Seq<char>, H)>,
    alive: Seq<bool>,
    id: Seq<char>,
    handle: H,
)
    requires
        distinct(es),
        alive.len() == es.len(),
        !runs(es, alive, id),
    ensures
        ({
            let after = living(es, alive).push((id, handle));
            &&& distinct(after)
            &&& after.last() == (id, handle)
            &&& forall|i: int|
                #![trigger es[i]]
                0 <= i < es.len() && alive[i] ==> after.contains(es[i])
            &&& forall|j: int|
                0 <= j < after.len() - 1 ==> lives(es, alive, #[trigger] after[j])
        }),
{
    lemma_living(es, alive);
    let kept = living(es, alive);
    let after = kept.push((id, handle));
    assert forall|i: int, j: int|
        #![trigger after[i], after[j]]
        0 <= i < j < after.len() implies after[i].0 != after[j].0 by {
        assert(after[i] == kept[i]);
        if j < kept.len() {
            assert(after[j] == kept[j]);
        } else {
            let a = choose|a: int| 0 <= a < es.len() && alive[a] && #[trigger] es[a] == kept[i];
            assert(es[a].0 != id);
        }
    }
    assert forall|i: int| #![trigger es[i]] 0 <= i < es.len() && alive[i] implies after.contains(
        es[i],
    ) by {
        let j = choose|j: int| 0 <= j < kept.len() && kept[j] == es[i];
        assert(after[j] == es[i]);
    }
    assert forall|j: int| 0 <= j < after.len() - 1 implies lives(es, alive, #[trigger] after[j]) by {
        assert(after[j] == kept[j]);
    }
}

} // verus!
