# rtsp2webrtc

The logic of a gateway that pulls RTSP camera streams and serves them to
browsers, over WebRTC and over WebSocket (FLV or MPEG-TS), written in Rust and
verified with Verus.

- `src/` is the library. Every function states in its contract what it returns
  or changes, and Verus proves it. Functions that take part in I/O are steps:
  they take what has happened and return what is to be done next.
- `tests/` runs the library on concrete values.
- `app/` carries the steps out: sockets, FFmpeg processes, timers, HTTP and
  WebSocket endpoints. The RTSP client and the WebRTC stack are traits there
  (`app/backends.rs`).

| Module | What it holds |
| --- | --- |
| `stream`, `stream_laws` | the registry of RTSP streams, and what holds of it over several calls |
| `api` | the answers of the REST API |
| `signaling`, `sdp`, `json` | the signaling exchange, the normalisation of SDP answers, ICE candidates as JSON |
| `live`, `live_session`, `flv` | live streams over WebSocket, and the head of an FLV stream for late clients |
| `ffmpeg_puller` | the transcoding pull of H.265 sources |
| `camera_url` | camera URLs for the log |
| `registry`, `text`, `payload`, `codec`, `error` | what the others are built from |

What is believed without proof about other crates is marked
`external_body`, `external_type_specification` or `assume_specification`, each
with a comment that says what is claimed.
