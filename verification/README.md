# qshare

Zero-config LAN file sharing: pick a folder, get a URL (and a QR code).

- `src/` is the library, written in Verus: the path sandbox, directory
  listings and their ordering, HTTP range parsing, MIME classification,
  the listing cache, the connection registry and live log, request
  statistics, the directory-watcher registry, search, the WebSocket
  session, name search (substring or regular expression), thumbnails
  and digests, mDNS naming, QR rendering, and the
  state machines of the terminal and desktop dashboards. Every function
  carries a `requires`/`ensures` contract that Verus proves. Where a
  result rests on the clock or on chance, the contract states what holds
  for every reading (each clock-driven method has a twin taking the time
  as an argument, with an exact contract). Calls into outside crates go
  through small trusted wrappers, each documented with what it assumes.
- `app/` is the program around it: the HTTP server (axum/tokio), file
  and network I/O, filesystem watching, mDNS announcement, the command
  line (`qshare-cli`) and, when started under the name `qshare-tui`, the
  terminal dashboard.
- The desktop window's model (settings, server status, address picker,
  polling, styles) is `src/gui.rs`; the window itself, drawn with a GUI
  toolkit, is not part of this build.
- `tests/` exercises the library with concrete values.
