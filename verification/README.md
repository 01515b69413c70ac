# pingpong

A ping-pong TCP benchmark: a client that sends fixed-size packets over many
connections and measures round trips, and echo servers on several async
runtimes (Monoio, Compio, Glommio, May, Nio, Smol, Tokio Uring).

- `src/` is the library, verified with Verus: the core-list syntax
  (`cores.rs`), the configuration and the client's start-up figures
  (`config.rs`), the banners (`banner.rs`, `text.rs`), the client's
  per-connection request loop, per-core tally and request budget, and
  once-a-second report
  (`client.rs`), the server's echo loop (`echo.rs`), and the CPU set used to
  pin a thread (`affinity.rs`, over `nix`).
- `app/` is the program: command-line parsing, runtimes, sockets and threads.
  Each connection is driven by the library's state machine: the program does
  the action the library chose and reports back what happened.
- `tests/` runs the library on concrete values.
