# ondar

The core of an internet radio, written in Verus: every decision the player makes is a verified
function, and the threads, sockets, decoder and database around it only carry them out.

- `src/engine.rs` - what the threads share, the buffering supervision, the commands, a session's
  retry policy. `src/onda/` is a smaller player on the same parts.
- `src/hls/` - HTTP Live Streaming: the playlist parser, the choice of a variant, the refresh
  planner, the ADTS walk, what a request comes to, the open, and the fetch task.
- `src/icy.rs`, `src/ring.rs`, `src/eq.rs`, `src/reconnect.rs`, `src/stream.rs` - in-band titles,
  the ring between decoder and output, the equalizer's bookkeeping, the backoff, and the opening of
  a stream.
- `src/stations/` - the station directory: normalising, ranking, server discovery, the client's
  retries, the cache, favourites and recents, and the service.
- `src/text.rs`, `src/time.rs` - text as characters, and spans of time.
- `src/outside.rs`, the first part of `src/ring.rs` and `String::push` in `src/text.rs` - everything
  that is taken from other crates and from std without proof.
- `app/` - the program around the library. `tests/` runs the library with the real crates linked.

Some values stand in the library as their bits: samples and gains (32 bits), coordinates (64).
URLs are texts in their normal form.
