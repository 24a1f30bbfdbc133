# MeshNet

Zero-configuration file transfer between devices on one local network: every
node discovers its peers (mDNS and a scan of its /24 subnet), receives uploads
over HTTP, and sends files to a peer picked by name, by address, or from a list.

## Layout

- `src/` — the library, verified with Verus:
  - `list.rs` — discovered devices: names, list and menu labels, merging mDNS
    and subnet results, the subnet's host addresses and endpoint URLs.
  - `send.rs` — reading a typed `IP[:PORT]`, finding a device by name, choosing
    the target, checking the paths to send, and judging transfer outcomes.
  - `serve.rs` — the receiver's identity and banner, and the state machine that
    decides how an upload request is answered.
  - `completer.rs` — path completion for the file prompt (`~` expansion,
    filtering, sorting, longest shared prefix).
  - `cli.rs` — choices of the interactive mode.
  - `text.rs`, `order.rs` — character-sequence helpers (trimming, number
    formatting and parsing, searching) and a lexicographic sort.
- `app/` — the command-line program: prompts, networking, files and mDNS.
- `tests/` — tests of the library.
