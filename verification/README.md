# veredus

A relay server for 0 A.D. multiplayer matches, and the Verus library it is made of.

Clients connect over ENet. The relay admits them, lets one of them set a match up, passes
commands on, releases turns once everyone has sealed them, serves joiners a snapshot and
delayed observers a feed, charges pauses, and reports the match to the multiplayer lobby.

## Layout

- `src/relay/server_fsm/` is the server of one match: a function from its state and what
  happened to its next state and what is to be done. `laws.rs`, `rights.rs` and `order.rs`
  state and prove what holds of it whatever happens.
- `src/relay/` beside it holds what the server is made of: messages and their bytes, turns,
  slots, pause budgets, rate limits, transfers, the observer feed, the loop around a match.
- `src/lobby/` is what a lobby account says and answers, and which accounts host what.
- `src/config.rs`, `src/cli.rs`, `src/game_pool.rs`, `src/hosting.rs`, `src/metrics.rs` are the
  rules of the program around the matches.
- `app/` is the program: sockets, threads, XMPP sessions, files, Prometheus. It hands events
  to the library and performs what the library answers. It drives no engine: a match that
  asks for a replay, a checkpoint or an AI host is told that it failed.
- `tests/` runs the library.

Time, randomness and everything read from outside enter the library as values. Calls into
other crates stand behind small functions whose contracts are not proved; each says in its
doc comment what is taken on trust.
