# CamFast

A viewer for up to four live cameras in a 2x2 mosaic.

- `src/` is the library: the configuration, the RTSP decisions, the choice of frames, the decoder's
  and the supervisors' rules, and the state of every window. All of it is verified with Verus; what
  each function does stands in its contract.
- `app/` is the macOS application around it: files, network, threads, VideoToolbox and the GPUI
  windows. It asks the library what to do and does it.
- `tests/` runs the library.

Times are counted in nanoseconds (`clock`), rates and lengths in fixed point: the library computes
with integers throughout.

| Module | What it decides |
| --- | --- |
| `camera`, `config`, `stored`, `error` | cameras, the mosaic's slots, validation, and how both are stored |
| `rtsp` | what is requested of a camera, which stream is played, the connection test |
| `nal` | the kind of picture in an access unit |
| `session` | which received frames go to the decoder |
| `decoder` | when to open, replace and give up a decompression session; playout of held units |
| `timing`, `round`, `single`, `clock` | rates, jitter, bitrate and pacing; rounding |
| `policy`, `control`, `supervisor`, `manager` | backoff, visibility, sleep and wake, reconnecting, the set of running streams |
| `shared` | what a camera's threads and its tile share |
| `tile`, `mosaic`, `listing`, `settings`, `dropdown`, `text_input`, `state`, `window` | the windows |
| `platform` | the login item, sleep and wake |
| `text` | characters and numbers as text |

The statements about code from outside the library are few and marked `external_body` or
`assume_specification`: UUIDs and their texts, random numbers, the URL parser, and what the standard
library says about characters, `String` and `Arc`.
