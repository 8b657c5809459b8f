# eir_svc

The decisions of the Eir service, a guardian that watches a machine, asks a model what is
wrong with it, and runs, queues or refuses the fixes that come back. Its decisions stand in
`src/` as a verified library: each function states in its contract what it returns or
changes, over mathematical models of the data.

- `policy`, `routing`, `execution`, `safety`, `prefs`: which fixes may run, by themselves or
  with the user's consent, and what becomes of them.
- `state`, `cycle`, `commands`: the state that the user interface sees, the pace of the
  decision loop, and the answer to each command.
- `signals`: what is read of the machine: event logs, journald, log files, the system's
  state, the user's screen, and the feed that is shown of it.
- `pipe_server`, `proto`: the control channel, its framing and its bounds.
- `models`, `json`, `paths`, `text`, `metric`, `clock`, `keyed`, `copied`: the data model and
  the text, path and number handling underneath.
- `service_install`, `portable`, `session`, `notify`: installing and hosting the service.

Floating-point numbers are kept as their bits; clocks, files, processes and the database are
read outside and handed in as plain values. `app/` is the Linux host: collectors, the control
socket, the store and the loop around the library. `tests/` runs the library on examples.
