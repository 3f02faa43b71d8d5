# swarmdeck

A config-driven control deck for robot swarms: a control host tracks every
robot agent, dispatches shell actions across the swarm, and serves an
HTTP/WebSocket API, a WebUI and a command-line client.

The library in `src/` holds the deck's logic, with its behaviour stated in
`requires`/`ensures` contracts and proved by Verus:

| Module       | What it holds |
|--------------|---------------|
| `config`     | swarm and agent configuration, validation, merging shared robot types |
| `layers`     | merging agent config files that extend one another |
| `template`   | rendering `{{…}}` placeholders of action commands |
| `dispatch`   | resolving action references and selecting target robots |
| `registry`   | what the host knows of each robot: sessions, reports, liveness, logs, adoption |
| `runs`       | the store of batch runs and its newest-first listing |
| `dispatcher` | dispatching and stopping batches, and driving workflows |
| `agent`      | session messages and the agent's table of running actions |
| `metrics`    | reading `/proc` text (CPU ticks, memory, line splitting) |
| `listing`    | the action and config summaries the API serves |
| `cli`        | target flags, labels, URLs, stop prompts and provisioning targets |
| `api`        | the API's data types |
| `strmap`     | a string-keyed map kept in key order |
| `text`       | string helpers with specifications |
| `laws`       | properties that span several functions |

`app/` is the program around the library: the host's HTTP server and
background tasks, the command-line client, configuration file reading and the
serde forms of the library's types. `tests/` exercises the library.

The agents' gRPC session transport (the host's session service and the
agent program that dials it) is not part of this crate: its service and
message types are generated from protocol definitions (`proto/swarm.proto`)
that the crate does not hold. What a session does is in the library
(`Registry::open_session`, `handle_report` and `disconnect` on the host;
`Runner`, `status_report`, `spawn_ack` and the report conversions on the
agent), for a transport to drive.
