# orbital_time_server

The verified core of a time server that tracks the carriers of low-orbit
satellites and steers the system clock from the Doppler passes it records.

`src/` is the library, checked by Verus:

- `allocator` — assignment of satellites to demodulation channels, with the
  per-step allocation plan over visible satellites.
- `control` — guided-search fallback, the tracker bank's fade ride-through,
  the pass-capture state machine, spur persistence, and the clock-steering
  decisions.
- `dashboard` — the lock bell, per-channel frequency trails and the event
  log behind the terminal dashboard.
- `websocket` — SHA-1, Base64, the WebSocket handshake and text frames.
- `tle` — TLE checksums, fitted element lines, catalog reading (decoding by
  the `sgp4` crate) and the cache refresh rule.
- `decimation` — the block schedule and history of the FIR decimator.
- `spectrum`, `pass_file`, `fields`, `numeric`, `display`, `text` — bin
  bookkeeping of the spur notch, pass-file lines, `/proc` fields, p-adic
  valuations, gauges, and the string helpers the rest builds on.

`app/` is the command-line front end: files, sockets, the operating-system
clock calls, and the floating-point filters and measurements.
