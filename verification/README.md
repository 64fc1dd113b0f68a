# family_frame

A family dashboard for a 7.5" e-paper panel: a server paints the day
(calendar, to-dos, rooms, weather, Tube, school) and a Raspberry Pi Pico
client polls it for frames. This crate holds the rules of both sides,
verified with Verus.

Layout:

- `src/fw/` — the client: frame protocol and CRC, wake schedule, the
  configuration record, HTTP response framing, the serial command line.
- `src/server/` — the server: calendar parsing and recurrence, dates and time
  zones, the dashboard model and its fitting to the panel, poll scheduling,
  the debug log, the Meross rooms, the Pronote login and session protocol, and the
  order in which sources load with their fallbacks, and the dithering of a
  rendered frame to the panel's six inks and its packing two pixels a byte
  (`src/server/pack.rs`).
- `src/sim.rs` — unpacking a frame into a preview image.
- `src/cipher.rs`, `src/hashing.rs`, `src/text.rs` — digests, ciphers,
  codecs and text helpers shared by the above.
- `app/` — the desktop preview program around the library.
- `tests/` — tests on concrete values.

Calls into outside crates (chrono, chrono-tz, icalendar, rrule, image, the
RustCrypto crates, flate2, hex, base64, serde_json, num-bigint, rand) sit behind small trusted
wrappers whose contracts say what those crates document; everything else in
`src/` is proved.
