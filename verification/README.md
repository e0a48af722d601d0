# waywallen

The decision logic of the Waywallen wallpaper daemon, written in Verus and
proved against its contracts.

## Layout

- `src/wayproto/` — the wire protocol description parser: a byte-level XML
  grammar (`xml.rs`), the protocol model (`types.rs`), the meaning of a
  description as spec functions (`spec.rs`), and the executable parser proved
  equal to it (`semantics.rs`, `order.rs`, `protocol.rs`). `laws.rs` proves
  that named structs come out dependencies first, `cycles.rs` that ordering
  fails exactly on a struct that contains itself, `permute.rs` that the order
  does not depend on the order of the input, and `resolve.rs` that a parsed
  protocol declares every type it names and keeps its document's enums and
  structs.
- `src/reaper/` — frame release bookkeeping: per-frame buckets of consumers,
  the release frontier that publishes release points strictly in order, and
  the reaper's record handling.
- `src/slot.rs` — a retained renderer's slot: revisions, process generations,
  stop and restart decisions.
- `src/audio.rs` — the audio capture worker as a state machine over a
  millisecond clock: warm idle, backoff, the missing-library latch.
- `src/playlist.rs`, `src/hotplug.rs` — which display belongs to which shared
  playlist session, and which playlist a display returns to.
- `src/plugin.rs` — plugin state limits and paths, update manifests.
- `src/steam/` — Steam QR sign-in steps, the stored session, and the workshop
  downloader's decisions.
- `src/system_info.rs`, `src/apply.rs`, `src/text.rs` — `os-release` parsing,
  renderer choice and routing when applying a wallpaper, and string helpers.
- `src/router.rs` — display groups, automatic pausing, and which retained
  renderer a display group keeps when the assignment changes.
- `src/routing.rs` — the table of retained renderers: links from renderers
  to displays, slots by renderer id, and the relinking that assigning a
  wallpaper to displays makes.
- `app/` — file, process and D-Bus work around the library, and the loops
  that drive the reaper, the audio worker and Steam sign-in.
- `tests/` — tests of the library on concrete values.
