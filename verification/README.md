# Nebula

Containers, Kubernetes and microVMs on one machine: an engine VM that a daemon
owns, named vessels beside it with snapshots and branches, and the tools of the
host pointed at them and back.

- `src/` is the library. It decides: what a request is routed to, what a machine
  is configured with, which ports are forwarded, when the balloon grows, what a
  snapshot does next. Every function is stated against a mathematical model and
  proved with Verus; the laws of the library stand beside the functions they
  speak of as public proof functions.
- `app/` acts: sockets, processes, files, the terminal. One program under
  several names: `nebula`, `nebulad`, `vessel-agent`, `vessel-init`,
  `nebula-battletest`. What is computed in floating point (averages, slopes,
  charts, rates) is there too.
- `tests/` runs the library, with the outside crates linked.

The outside crates that the library computes with (`serde_json`, `serde_yaml`,
`toml`, `sha2`, `flate2`, `libc`) are called through a few small functions whose
contracts are trusted; each says in its comment what it claims.
