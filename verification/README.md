# acestream_proxy

The logic of a service that pulls an AceStream engine stream once per content
id and serves it to many listeners, as audio (ADTS or MP3) or as fragmented MP4
with the video track copied untouched. The library under `src/` is verified
with Verus: every function states in its contract what it returns or changes,
and the properties that hold across functions are proved as `law_*` proof
functions.

| Module | What it decides |
| --- | --- |
| `http` | request heads, refusals, response framing |
| `route` | how each request is answered, and the settings |
| `format` | output formats, the copy-first table, the ffmpeg arguments |
| `ts` | what an MPEG-TS program carries and where its keyframes are |
| `replay` | the trailing window of raw TS that a new encoder is primed from |
| `probe` | what an ffprobe run says of a source |
| `mp4` | fragment boundaries, join points and the init segment of fMP4 output |
| `registry` | pulls, encoders, listeners, lingering and backpressure |
| `status` | the `/status` document |
| `chunk`, `json`, `text` | shared bytes, JSON documents and text |

Times are plain numbers of nanoseconds that the caller hands in, so every
decision that depends on one is a function of its arguments. The exception is
`Replay::push`, and what feeds a pull through it: it reads the clock itself and
leaves the rest to `Replay::push_at`.

`app/` is the program around the library: sockets, threads, ffmpeg and ffprobe
processes, and the engine client. `tests/` runs the library on concrete values.
