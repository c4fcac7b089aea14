# game_lobby

A game lobby with chat rooms and tic-tac-toe, written in Verus.

- `src/` is the verified library: the lobby's tables and their queries
  (`db`), the rules of tic-tac-toe (`tictactoe`), the registry of websocket
  sessions and chat rooms (`server`), and what a session does with each chat
  message (`session`). Fresh ids, timestamps and session numbers come from
  `uuid`, `chrono` and `rand` behind the trusted functions of `fresh`.
- `app/` is the web server around it: actix-web routes, the actors, the JSON
  texts, and the SQLite tables the lobby is kept in.
- `tests/` runs the library on concrete lobbies.

The chat server's registry (`server::ChatServer`) keeps its connected
sessions in a `HashSet<usize>`, as vstd specifies it, and its named rooms in
a `Vec`, with the type invariant that no two rooms share a name; its view is
the `Set` of sessions and a `Map` from room name to sessions. Rooms are named
by `String`s, and vstd gives `String` no key model for `HashMap`: a map keyed
by room names would state nothing about its lookups without an assumption,
which this crate does not make. Each room keeps its own sessions in a `Vec`
beside its name, since the rooms are rebuilt when a session enters or leaves
and vstd does not specify copying a `HashSet`.
