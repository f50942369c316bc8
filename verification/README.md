# screenshare

The producer side of a WebRTC screen share: `ffmpeg` captures the screen as
an H.264 stream, the stream is cut into NAL units, and the units are sent to
every consumer that makes an offer through a websocket signalling server.

- `src/` is the verified library:
  - `h264.rs`: the H.264 reader, a state machine fed with bytes
    (`push_input`) that hands out NAL units (`next_nal`), specified by
    `spec_next_nal`; `nal_laws.rs` proves what it does to whole streams.
  - `signaling.rs`: what is done with each websocket message, and the
    per-consumer buffer of ICE candidates that arrive before the offer;
    `id_map.rs`: the map keyed by consumer that holds the buffer's lists
    and the consumers' connections.
  - `message.rs`: the signalling messages; `capture.rs`: the `ffmpeg`
    arguments read from the configuration file.
  - `buffers.rs`: the trusted contracts of the `bytes` buffers used.
- `app/` runs the program: command line, websocket, WebRTC connections,
  the `ffmpeg` process and the JSON encoding of messages.
- `tests/` exercises the library on concrete streams and messages.
