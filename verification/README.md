# longfred_proto

Protocol and session logic of the LongFred wireless throttle handset, verified with Verus.

- `src/`: the library. WiThrottle line parser and command builders, the Z21 and BigFred
  session adapters, protocol capabilities, loco catalogues, the persisted settings record
  and its binary encoding, mDNS discovery, Wi-Fi roaming decisions, handset pairing and
  provisioning logic. Of the handset UI it holds the input vocabulary, navigation
  profiles, the headless drive shell, the LED presenter's decisions, display-line
  rendering (grid lines, the grouped address editor line, the diagnostics pages' text),
  the menu's text grid for every screen (the rows of list screens come from the paged
  list that lays them out) and the menu's navigation (Back, list cursor and paging, the
  Extras entries), and the on-screen text entry engine (caret slot, multitap, character
  cycle and idle commit; its character tables and timing are passed in). Every public function carries
  a contract over a mathematical model; the `law_*` proof functions state properties
  that relate several operations (round trips, bounds, invariants).
- Fixed-capacity buffers of the firmware (display lines, names, passwords, outgoing
  bytes) are plain `Vec`s here; each capacity is part of the contract that fills the
  buffer (a push that does not fit leaves the buffer as it was, as on the handset).
- `tests/`: executable tests of the library.
- `app/`: the firmware-side JSON layer (`serde-json-core`) for the pairing and
  provisioning HTTP bodies.
