# hypr_clipboard

The clipboard of a Wayland desktop, shared with the client of a remote session.

`src/` is the library: the rules, written in Verus and proved against their contracts. It
decides which reads of the remote's files are admitted, matches answers with requests, keeps
superseded selections serving for as long as their lock holds, chooses what the desktop is
offered, and bounds every transfer. It sends, waits and locks nothing, and reads no more than
the clock; each step says what is to be done next.

`app/` is ordinary Rust around it: the channel to the session, the mount thread, the
descriptors and the Wayland objects. What mounts the files, and what keeps local files for the
remote, is handed to it by its user (`Mounted`, `LocalClipboard`).

`tests/` runs the library with the remote, the compositor and the pipes played by hand.
