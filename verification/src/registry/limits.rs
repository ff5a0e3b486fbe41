//! The bounds that the fan-out works within. Durations are in nanoseconds.
use crate::replay::Nanos;
use vstd::prelude::*;

verus! {

/// Read size for the engine pull and for ffmpeg output. A pipe read returns as
/// soon as any data is there, so this is an upper bound, not a batching delay.
pub const CHUNK: usize = 65_536;

/// How much of the engine stream ffprobe gets when the PMT could not name the
/// source. Sized to match ffprobe's `-probesize`.
pub const PREROLL: usize = 262_144;

/// Per-encoder raw-TS backlog. Bounded deliberately small: the response to a
/// full queue is backpressure onto the engine socket, not buffering.
pub const TS_QUEUE: usize = 64;

/// How long an encoder may go without consuming *any* raw TS before it is
/// torn down.
///
/// Only lack of progress counts, not a full queue. An AceStream engine
/// prebuffers tens of megabytes and then releases the lot at link speed, so at
/// stream start the queue fills instantly through no fault of the encoder.
/// Blocking the puller is the correct response: it stops reading, TCP flow
/// control throttles the engine, and the burst drains at the rate the encoders
/// can actually consume. An encoder that is draining, however slowly, is never
/// torn down; one whose ffmpeg has stopped reading is, after this long.
pub const TS_STALL: Nanos = 8_000_000_000;

/// A listener further behind the encoder than this is disconnected. See
/// `Encoder::fan_out`.
pub const SUB_MAX_LAG: u64 = 8_000_000_000;

/// Memory guard on a listener's unsent backlog, for when the lag bound has not
/// yet tripped (a burst of many fragments at once).
pub const SUB_MAX_BYTES: usize = 16_777_216;

pub const STATS_INTERVAL: Nanos = 5_000_000_000;

/// How long a request will wait for a cold stream to connect and probe.
pub const START_TIMEOUT: Nanos = 45_000_000_000;

/// How long an fMP4 joiner waits for the first fragment. A fragment closes on a
/// keyframe, so this must comfortably exceed the source GOP.
pub const INIT_TIMEOUT: Nanos = 30_000_000_000;

/// Bounds on the replay window of raw TS kept per engine pull. It must hold at
/// least one GOP plus the video analysis window, so that a new video encoder
/// can be primed from a keyframe with enough behind it; the byte cap only
/// guards memory on a very high-bitrate source. See `replay`.
pub const REPLAY_MAX_AGE: Nanos = 12_000_000_000;

pub const REPLAY_MAX_BYTES: usize = 16_777_216;

/// Raw TS replayed into a new audio encoder: its 1s analysis window plus
/// margin, from wherever that lands. Audio needs no keyframe.
pub const AUDIO_TAIL: Nanos = 1_500_000_000;

/// Content a cold video encoder is primed with when the window can supply it:
/// the keyframe-start analysis window (2s, see `format::probe_window`) plus
/// margin so ffmpeg's analysis completes from the buffer. Also the encoder's
/// steady lag behind live, so kept as small as the analysis allows.
pub const PRIME_CONTENT: Nanos = 2_500_000_000;

/// How long the first video encoder on a cold pull will wait for the window to
/// reach `PRIME_CONTENT`. Only spent while the engine is bursting faster than
/// real time (which is what makes the wait pay off); a real-time source stops
/// it after `BURST_SAMPLE`, so it never delays startup beyond that.
pub const PRIME_WAIT: Nanos = 3_000_000_000;

/// The shortest window over which "arriving faster than real time" is judged,
/// and so the most a non-bursting source is ever delayed by the wait above.
pub const BURST_SAMPLE: Nanos = 150_000_000;

} // verus!
