# flextunnel

The verified core of a tunnel over authenticated peer-to-peer connections: the bytes on its
streams, its handshake, its port forwards, the server's identity, and the desktop app that manages
profiles and keys.

- `src/` is the library. Every function carries its contract, and Verus proves it. What the parts
  promise together stands in public proof functions whose names begin with `law_`.
- `app/` is the code around the library: sockets, files, the keychain and the desktop's events. It
  performs what the library decides.
- `tests/` runs the library from outside.

The library calls a few functions of other crates (base64, iroh, rand, serde_json) and of the
standard library that Verus has no specification for. Each has a small wrapper or declaration
whose comment says what is taken on trust.
