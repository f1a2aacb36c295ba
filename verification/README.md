# mojo_rs

A native Mojo IPC runtime in Rust, verified with Verus: each function states in
its contract what it returns or changes, and the contracts are proved.

* `src/` is the library.
  * `runtime`: handles, message pipes, data pipes, shared buffers, traps, waits.
  * `ipcz`: the node-link protocol: framing, messages, the shared link memory,
    the bootstrap acceptor, and a routing node with its scenarios and their runs.
  * `casefile`: replayable cases, the events that a run emits, their
    normalization, and the comparison of two runs.
  * `digest`, `text`, `bytes`: hexadecimal text and digests, the text of
    numbers, little-endian fields.
* `app/` holds the programs: sockets, shared memory, files and JSON around the
  library.
* `tests/` runs the library on concrete values.

The library holds no descriptors or mappings of its own. A step takes what
happened outside as a value and leaves what is to be sent in an outbox; link
memory is a copy of the shared buffers that the program refreshes and writes
back.

What is not proved is marked `#[verifier::external_body]`: the calls into the
`hex` and `sha2` crates in `digest`, and two conversions of the standard library
in `ipcz::dump`.
