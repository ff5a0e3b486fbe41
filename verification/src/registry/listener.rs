//! One listener of an encoder: what it has been sent and has yet to take.
use std::collections::VecDeque;

use bytes::Bytes;

use super::limits::{SUB_MAX_BYTES, SUB_MAX_LAG};
use crate::chunk;
use vstd::prelude::*;

verus! {

/// How many bytes a backlog holds.
pub open spec fn backlog(queue: Seq<(u64, Seq<u8>)>) -> int
    decreases queue.len(),
{
    if queue.len() == 0 {
        0
    } else {
        queue[0].1.len() + backlog(queue.skip(1))
    }
}

/// The bytes of a backlog, one chunk after the other.
pub open spec fn flat(queue: Seq<(u64, Seq<u8>)>) -> Seq<u8>
    decreases queue.len(),
{
    if queue.len() == 0 {
        Seq::empty()
    } else {
        queue[0].1 + flat(queue.skip(1))
    }
}

/// The state of a listener. Times are nanoseconds on the encoder clock.
#[verifier::ext_equal]
pub struct ListenerView {
    pub id: u64,
    /// Chunks sent but not yet taken, each with its arrival time.
    pub queue: Seq<(u64, Seq<u8>)>,
    /// Arrival time of the chunk most recently taken.
    pub consumed_at: u64,
    /// Arrival time of the chunk that was sent while the queue was empty.
    pub oldest_unread: u64,
    /// True until aligned to a keyframe `moof`.
    pub awaiting: bool,
    pub peer: Seq<char>,
    pub joined: u64,
    /// Bytes sent, modulo the counter's width.
    pub bytes: u64,
}

/// A counter after `n` more.
pub open spec fn counted(total: u64, n: int) -> u64 {
    ((total + n) % 0x1_0000_0000_0000_0000) as u64
}

impl ListenerView {
    /// Whether a piece is useless to this listener: it has only had the init
    /// segment, and the piece does not open a keyframe fragment.
    pub open spec fn skips(self, attach: bool) -> bool {
        self.awaiting && !attach
    }

    /// Arrival time of the oldest unread chunk, if one arrives now.
    pub open spec fn oldest(self, now: u64) -> u64 {
        if backlog(self.queue) == 0 {
            now
        } else {
            self.oldest_unread
        }
    }

    /// How far behind the reader is: the age of its oldest unread chunk,
    /// bounded below by the chunk it most recently took.
    pub open spec fn behind(self, now: u64) -> u64 {
        let from = if self.oldest(now) >= self.consumed_at {
            self.oldest(now)
        } else {
            self.consumed_at
        };
        if now >= from {
            (now - from) as u64
        } else {
            0
        }
    }

    /// Whether it is not keeping up: too far behind, or too much unread with
    /// `n` bytes more.
    pub open spec fn falls_behind(self, n: int, now: u64) -> bool {
        self.behind(now) > SUB_MAX_LAG || backlog(self.queue) + n > SUB_MAX_BYTES
    }

    /// The listener with a chunk sent to it.
    pub open spec fn sent(self, data: Seq<u8>, now: u64) -> ListenerView {
        ListenerView {
            queue: self.queue.push((now, data)),
            oldest_unread: self.oldest(now),
            awaiting: false,
            bytes: counted(self.bytes, data.len() as int),
            ..self
        }
    }

    /// The listener cut off: its backlog is still its own.
    pub open spec fn cut(self, now: u64) -> ListenerView {
        ListenerView { oldest_unread: self.oldest(now), awaiting: false, ..self }
    }

    /// Who it is, for how many seconds it has been there, and how many bytes
    /// it has been sent.
    pub open spec fn info(self, now: u64) -> (Seq<char>, u64, u64) {
        let secs: u64 = if now >= self.joined {
            ((now - self.joined) / 1_000_000_000) as u64
        } else {
            0
        };
        (self.peer, secs, self.bytes)
    }

    /// The listener with its oldest chunk taken.
    pub open spec fn taken(self) -> ListenerView {
        ListenerView { queue: self.queue.skip(1), consumed_at: self.queue[0].0, ..self }
    }
}

#[derive(Debug)]
pub struct Listener {
    id: u64,
    /// Unbounded on purpose: the bound is bytes and lag, enforced on delivery,
    /// not a chunk count that means 45KB of audio and 4MB of video.
    queue: VecDeque<(u64, Bytes)>,
    /// Bytes sent but not yet taken by the request thread.
    queued: usize,
    /// Arrival time (nanos on the encoder clock) of the chunk the request
    /// thread most recently took.
    consumed_at: u64,
    /// Arrival time of the chunk that was sent while the queue was empty, i.e.
    /// the oldest unread one, until the reader has passed it.
    oldest_unread: u64,
    /// fMP4 only: true until this listener has been aligned to a keyframe `moof`.
    awaiting_fragment: bool,
    peer: String,
    joined: u64,
    bytes: u64,
}

/// The chunks behind a queue.
pub open spec fn queue_view(queue: Seq<(u64, Bytes)>) -> Seq<(u64, Seq<u8>)> {
    queue.map_values(|c: (u64, Bytes)| (c.0, chunk::contents(c.1)))
}

/// What a listener begins with: the init segment, if it needs one.
pub open spec fn opening(init: Option<Bytes>, now: u64) -> Seq<(u64, Seq<u8>)> {
    match init {
        Some(b) => seq![(now, chunk::contents(b))],
        None => Seq::empty(),
    }
}

impl View for Listener {
    type V = ListenerView;

    closed spec fn view(&self) -> ListenerView {
        ListenerView {
            id: self.id,
            queue: queue_view(self.queue@),
            consumed_at: self.consumed_at,
            oldest_unread: self.oldest_unread,
            awaiting: self.awaiting_fragment,
            peer: self.peer@,
            joined: self.joined,
            bytes: self.bytes,
        }
    }
}

/// The sum of the lengths is the length of the sum.
pub proof fn lemma_backlog(queue: Seq<(u64, Seq<u8>)>)
    ensures
        backlog(queue) == flat(queue).len(),
    decreases queue.len(),
{
    if queue.len() > 0 {
        lemma_backlog(queue.skip(1));
    }
}

/// One chunk more.
pub proof fn lemma_queue_push(queue: Seq<(u64, Seq<u8>)>, c: (u64, Seq<u8>))
    ensures
        backlog(queue.push(c)) == backlog(queue) + c.1.len(),
        flat(queue.push(c)) == flat(queue) + c.1,
    decreases queue.len(),
{
    reveal_with_fuel(backlog, 2);
    reveal_with_fuel(flat, 2);
    if queue.len() == 0 {
        assert(queue.push(c).skip(1) =~= Seq::empty());
        assert(flat(queue.push(c)) =~= flat(queue) + c.1);
    } else {
        assert(queue.push(c).skip(1) =~= queue.skip(1).push(c));
        lemma_queue_push(queue.skip(1), c);
        assert(flat(queue.push(c)) =~= flat(queue) + c.1);
    }
}

/// What came of a delivery.
#[derive(Debug, Clone, Copy, PartialEq, Eq, Structural)]
pub enum Delivery {
    /// The piece was useless to the listener.
    Skipped,
    Sent,
    /// The listener is not keeping up: it was this far behind.
    Behind(u64),
}

impl Listener {
    /// What holds of every listener: the byte count is that of the queue.
    pub closed spec fn wf(self) -> bool {
        self.queued == backlog(self@.queue)
    }

    pub fn new(id: u64, peer: String, now: u64, init: Option<Bytes>) -> (r: Listener)
        ensures
            r.wf(),
            r@ == (ListenerView {
                id,
                queue: opening(init, now),
                consumed_at: now,
                oldest_unread: now,
                awaiting: init is Some,
                peer: peer@,
                joined: now,
                bytes: 0,
            }),
    {
        let mut queue: VecDeque<(u64, Bytes)> = VecDeque::new();
        let mut queued: usize = 0;
        let awaiting_fragment: bool = init.is_some();
        let ghost first = opening(init, now);
        match init {
            Some(b) => {
                // Must land before any media.
                queued = b.len();
                queue.push_back((now, b));
            },
            None => {},
        }
        proof {
            assert(queue_view(queue@) =~= first);
            reveal_with_fuel(backlog, 2);
            assert(first.len() > 0 ==> first.skip(1) =~= Seq::empty());
        }
        Listener {
            id,
            queue,
            queued,
            consumed_at: now,
            oldest_unread: now,
            awaiting_fragment,
            peer,
            joined: now,
            bytes: 0,
        }
    }

    pub fn id(&self) -> (r: u64)
        ensures
            r == self@.id,
    {
        self.id
    }

    /// Who it is, for how many seconds it has been there, and how many bytes
    /// it has been sent.
    pub fn info(&self, now: u64) -> (r: (String, u64, u64))
        ensures
            (r.0@, r.1, r.2) == self@.info(now),
    {
        let secs: u64 = if now >= self.joined {
            (now - self.joined) / 1_000_000_000
        } else {
            0
        };
        (self.peer.clone(), secs, self.bytes)
    }

    /// Bytes sent but not yet taken.
    pub fn queued(&self) -> (r: usize)
        requires
            self.wf(),
        ensures
            r == backlog(self@.queue),
    {
        self.queued
    }

    /// Send one piece, unless the listener is not keeping up.
    pub fn deliver(&mut self, data: &Bytes, attach: bool, now: u64) -> (r: Delivery)
        requires
            old(self).wf(),
        ensures
            final(self).wf(),
            ({
                let l = old(self)@;
                let n = chunk::contents(*data).len() as int;
                if l.skips(attach) {
                    r == Delivery::Skipped && final(self)@ == l
                } else if l.falls_behind(n, now) {
                    r == Delivery::Behind(l.behind(now)) && final(self)@ == l.cut(now)
                } else {
                    r == Delivery::Sent && final(self)@ == l.sent(chunk::contents(*data), now)
                }
            }),
    {
        let ghost l = self@;
        if self.awaiting_fragment {
            if !attach {
                // Mid-fragment bytes, or a fragment that does not open on a
                // keyframe, are useless to a client that has only had the
                // init segment; hold it until one that does.
                return Delivery::Skipped;
            }
            self.awaiting_fragment = false;
        }
        if self.queued == 0 {
            self.oldest_unread = now;
        }
        // How far behind the reader is: the age of its oldest unread
        // chunk, bounded below by the chunk it most recently took.
        let from: u64 = if self.oldest_unread >= self.consumed_at {
            self.oldest_unread
        } else {
            self.consumed_at
        };
        let behind: u64 = if now >= from {
            now - from
        } else {
            0
        };
        let n: usize = data.len();
        if behind > SUB_MAX_LAG || n > SUB_MAX_BYTES || self.queued > SUB_MAX_BYTES - n {
            assert(self@ =~= l.cut(now));
            return Delivery::Behind(behind);
        }
        let ghost before = self.queue@;
        let c: (u64, Bytes) = (now, data.clone());
        self.queued = self.queued + n;
        self.queue.push_back(c);
        self.bytes = self.bytes.wrapping_add(n as u64);
        proof {
            let v = (now, chunk::contents(*data));
            assert(queue_view(self.queue@) =~= queue_view(before).push(v));
            lemma_queue_push(queue_view(before), v);
            assert(self@ =~= l.sent(chunk::contents(*data), now));
        }
        Delivery::Sent
    }

    /// Take the oldest chunk, if there is one.
    pub fn take(&mut self) -> (r: Option<Bytes>)
        requires
            old(self).wf(),
        ensures
            final(self).wf(),
            r is Some <==> old(self)@.queue.len() > 0,
            match r {
                Some(b) => chunk::contents(b) == old(self)@.queue[0].1 && final(self)@ == old(
                    self,
                )@.taken(),
                None => final(self)@ == old(self)@,
            },
    {
        let ghost l = self@;
        let ghost before = self.queue@;
        match self.queue.pop_front() {
            Some((at, b)) => {
                proof {
                    assert(queue_view(self.queue@) =~= l.queue.skip(1));
                    lemma_backlog(l.queue.skip(1));
                    assert(l.queue[0] == (at, chunk::contents(b)));
                }
                self.queued = self.queued - b.len();
                self.consumed_at = at;
                assert(self@ =~= l.taken());
                Some(b)
            },
            None => None,
        }
    }
}

/// What happens to a listener: a piece is delivered, or it takes a chunk.
pub enum Step {
    Piece(Seq<u8>, bool, u64),
    Take,
}

/// The listener after these steps, and all the bytes it took; none once it
/// has been cut off.
pub open spec fn run(l: ListenerView, steps: Seq<Step>) -> Option<(ListenerView, Seq<u8>)>
    decreases steps.len(),
{
    if steps.len() == 0 {
        Some((l, Seq::empty()))
    } else {
        match run(l, steps.drop_last()) {
            None => None,
            Some((m, got)) => match steps.last() {
                Step::Piece(data, attach, now) => if m.skips(attach) {
                    Some((m, got))
                } else if m.falls_behind(data.len() as int, now) {
                    None
                } else {
                    Some((m.sent(data, now), got))
                },
                Step::Take => if m.queue.len() == 0 {
                    Some((m, got))
                } else {
                    Some((m.taken(), got + m.queue[0].1))
                },
            },
        }
    }
}

/// The bytes of all pieces from the first that may be joined at on, or of all
/// pieces once `open`.
pub open spec fn from_join(steps: Seq<Step>, open: bool) -> (Seq<u8>, bool)
    decreases steps.len(),
{
    if steps.len() == 0 {
        (Seq::empty(), open)
    } else {
        let (bytes, joined) = from_join(steps.drop_last(), open);
        match steps.last() {
            Step::Piece(data, attach, _) => if joined || attach {
                (bytes + data, true)
            } else {
                (bytes, joined)
            },
            Step::Take => (bytes, joined),
        }
    }
}

/// A listener that is not cut off misses nothing: what it has taken and what
/// still waits for it are what it began with, which for fMP4 is the init
/// segment, followed by every piece from the first that may be joined at on,
/// to the byte, in order.
pub proof fn law_a_listener_misses_nothing(l: ListenerView, steps: Seq<Step>)
    ensures
        run(l, steps) matches Some((m, got)) ==> {
            &&& got + flat(m.queue) == flat(l.queue) + from_join(steps, !l.awaiting).0
            &&& m.awaiting == !from_join(steps, !l.awaiting).1
        },
    decreases steps.len(),
{
    if steps.len() == 0 {
        assert(Seq::<u8>::empty() + flat(l.queue) =~= flat(l.queue) + Seq::<u8>::empty());
    } else {
        law_a_listener_misses_nothing(l, steps.drop_last());
        let (bytes, joined) = from_join(steps.drop_last(), !l.awaiting);
        if let Some((m, got)) = run(l, steps.drop_last()) {
            match steps.last() {
                Step::Piece(data, attach, now) => {
                    lemma_queue_push(m.queue, (now, data));
                    assert(got + (flat(m.queue) + data) =~= (got + flat(m.queue)) + data);
                    assert((flat(l.queue) + bytes) + data =~= flat(l.queue) + (bytes + data));
                },
                Step::Take => {
                    if m.queue.len() > 0 {
                        assert(flat(m.queue) == m.queue[0].1 + flat(m.queue.skip(1)));
                        assert((got + m.queue[0].1) + flat(m.queue.skip(1)) =~= got + flat(
                            m.queue,
                        ));
                    }
                },
            }
        }
    }
}

/// A listener's backlog stays within the memory guard, or what it began with.
pub proof fn law_the_backlog_is_bounded(l: ListenerView, data: Seq<u8>, now: u64)
    requires
        !l.falls_behind(data.len() as int, now),
    ensures
        backlog(l.sent(data, now).queue) <= SUB_MAX_BYTES,
{
    lemma_queue_push(l.queue, (now, data));
}

/// A listener that has taken everything is never cut off for its backlog or
/// its lag, as long as one piece is within the memory guard.
pub proof fn law_a_listener_that_keeps_up_is_kept(l: ListenerView, data: Seq<u8>, now: u64)
    requires
        backlog(l.queue) == 0,
        data.len() <= SUB_MAX_BYTES,
    ensures
        !l.falls_behind(data.len() as int, now),
{
}

} // verus!
