# overnvr

A network video recorder: it receives the streams of cameras, records them, looks
for people and things in them, tells a home automation server when something
comes into a region, and shows live and recorded video to its watchers.

- `src/` is the logic of the recorder, verified with Verus: events and their
  groups (`events`), regions and alerts (`dvr`, `alerts`, `mqtt`), queries and
  updates of the store (`database`), users and tokens (`auth`, `error`), requests
  (`routes`, `api`), streams and links (`source`, `link`), recorded and live
  playback (`playback`, `track`, `client`), and what feeds the detector
  (`detector`, `surface`). `oid`, `time`, `text`, `keymap` and `model` hold what
  they share.
- `tests/` runs the library.
- `app/` is the program around it: the media pipelines, the inference library, the
  store, the server, and everything that is computed in floating point numbers.

A few functions of the library call other crates. Each of them says in its
comment what is taken for granted of that crate: identifiers are read and written
by `bson`, passwords are hashed by `sha2` with a salt from `rand`, tokens are
signed by `jwt` and `hmac`, and recordings are named by `chrono`.
