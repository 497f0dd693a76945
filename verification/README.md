# DSTP Relay

A small HTTP forwarder that lets the DSTP mod of Don't Starve Together work with
a remote backend. The game may only call `127.0.0.1`; the relay listens there
and forwards each request to the backend. Syncs go through one lasting WebSocket
connection, on which the backend also pushes commands.

## Layout

- `src/` holds the logic, verified with Verus:
  - `relay`: what is done with a request, and the replies;
  - `tunnel`: the connection, the numbering of syncs, and the waits between
    attempts to connect;
  - `commands`: the keys of commands, their merging, and pushed commands;
  - `sync`, `headers`, `endpoint`, `config`, `report`, `clock`: what these need;
  - `json`, `text`: JSON values and strings.
- `app/` is the program: sockets, files, environment and printing.
- `tests/` runs the library.

Each function states what it does in its `ensures` clause. What holds across
functions is stated by the proof functions whose names start with `law_`.
Functions marked `external_body` call `serde_json`, `url`, `hyper` or the
standard library; their contracts are taken on trust.

## Configuration

| Field | Variable | Default |
|---|---|---|
| `upstream` | `DSTP_UPSTREAM` | `https://local.marcosbrendon.com` |
| `port` | `DSTP_PORT` | `47834` |
| `token` | `DSTP_TOKEN` | none |

The fields stand in `dstp-relay.config.json`, next to the binary or in the
current directory. A variable overrides the file, and the file overrides the
default. Fields whose name starts with `_` are ignored. `DSTP_VERBOSE=1` logs
each step, and `DSTP_USE_WS=0` switches the tunnel off.
