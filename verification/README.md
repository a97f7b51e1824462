# tagnetd

The daemon of tagnet: it keeps tagged files in sync between devices. The rules it goes
by are written in Verus and proved; tasks, sockets, files and databases stand around them
in ordinary Rust.

## The library (`src/`)

| module | what it holds |
| --- | --- |
| `ids`, `text`, `path_text`, `table`, `versions` | identifiers, texts, paths, ordered tables and version logs |
| `state`, `bus` | changes, frames for peers, and the messages on the ingest bus |
| `configuration`, `runtime`, `paths` | what a device is configured to do, and where it keeps its files |
| `database` | files, tags, relationships and versions: last-writer-wins updates, the tag hierarchy, queries, short identifiers, manifests |
| `reconcile` | what a device wants of a peer, given the peer's manifests |
| `pipeline`, `persistence` | what every message on the ingest bus leads to, and which rows it touches |
| `directory_manager`, `watcher` | the sync directories: commands, file system events, the daemon's own writes, placement by tags |
| `file_bytes`, `transfer` | content in transit, and windowed transfers of it |
| `fetch`, `peer_session` | fetches across peers, and the session with one |
| `identity` | keys and the handshake between peers |
| `chunk`, `api`, `control`, `transport` | the query language, and the requests of user interfaces |

The library decides and never acts: a function takes the state and an event, and gives
back the next state and the actions to perform. Channels and waiters are numbers to it.

Functions named `law_*` state what holds across operations: that the order in which
changes arrive does not matter, that an exchange of manifests makes two devices agree on
tags and relationships, that bytes which a failed pull left out are sought again,
that an honest sender's file arrives whole, that placing a file by its tags loses no
bytes, that no change is echoed to the peer it came from, and the like.

## Around it

`app/` runs the daemon: it performs the actions and feeds the events back. `tests/` runs
the library on concrete values.
