# lyys_panel

The rules of LYYS Panel, a web panel for running a Debian or Arch Linux
server (system state, processes, services, logs, files, packages, crontab,
network, Docker), written in Verus with their contracts proved.

- `src/` — the verified library. Each module reads the output of a system
  command or builds its arguments, decides what a request may do, or holds
  the panel's own state (login back-off, revoked tokens, the file guard),
  with `requires`/`ensures` over spec models; public proof functions
  (`law_*`) state what holds across calls, such as reading a crontab back
  after writing it. The assistant's streamed answer is a state machine
  (`stream`): each line of the model's answer, or each outcome around it,
  gives the next state and what to do next; its laws bound the requests of
  a turn by the round limit and allow one final event.
- `app/` — the server around it: HTTP routes, the database, command
  execution, file access and system sampling.
- `tests/` — tests of the library on concrete values.

Calls into other crates (`rand`, `argon2`, `serde_json`, `regex`, `time`)
stand behind small trusted wrappers, each with a doc comment that says what
its contract claims.
