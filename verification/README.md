# linkd

The Linux side of Linux Link: a daemon that pairs with a phone over QUIC and
shares the clipboard, files, notifications, media and volume control, battery
and presence, folder sync, and a second screen streamed as H.264.

## Layout

- `src/` is the verified library (Verus). It holds the wire protocol and the
  daemon's decisions on it: pairing and the trust store, folder-sync planning,
  H.264 stream framing, file transfer names and chunks, notification
  bookkeeping, the proximity lock, finger gestures on the second screen, the
  shortcut and autostart files it writes, and the text formats it reads from
  `xrandr`, `wpctl`, `pactl`, `ufw` and friends. Each public function states
  what it returns in its `ensures`; the laws that relate several functions
  are public proof functions named `lemma_*`.
- `app/` is the daemon and its command line: sockets, D-Bus, mDNS, QUIC,
  uinput, child processes, and the floating-point geometry of the second
  screen. It calls the library for every decision.
- `tests/` runs the library on concrete values.

The outside crates that the library calls (`sha2`, `hex`, `rand`, and a few
std functions) are reached through small wrappers marked
`#[verifier::external_body]`, each with a doc comment saying what its
contract assumes of the outside code.
