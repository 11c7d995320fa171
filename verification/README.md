# stemplayer

A manager for the Stem Player: it talks to the device over USB, splits songs
into stems with Demucs, uploads them, and reads the device's library back.

Everything that can be decided without touching the outside world is in `src/`
and is verified with Verus. `app/` carries the decisions out: USB transfers,
HTTP requests, the Demucs process, files, and the desktop bridge.

## The library

| Module | What it holds |
|---|---|
| `frame` | the frame: length, opcode, payload |
| `commands` | commands with their sub-command byte and JSON payload |
| `device` | finding the device, and what its acknowledgements mean |
| `enumerate` | the walk over the album slots |
| `files` | files in pieces, and their headers |
| `bundle` | the upload of one track, as a script of steps |
| `upload` | an upload from the song on: identifier, notices, waiting |
| `sequence` | the whole of an upload, step by step |
| `library` | what the device's library says, and which slot is free |
| `auth` | the authentication handshake |
| `calendar` | timestamps that the device accepts |
| `stems` | how Demucs is found and called |
| `progress` | what Demucs prints |
| `cache` | the copies of uploads that are kept on the host |
| `json` | JSON as `serde_json` holds, writes and reads it |
| `text`, `paths`, `error` | what the others share |

Work that alternates between the outside and a decision is a state that is
advanced step by step (`Enumeration`, `LibraryScan`, `Handshake`,
`FreshUpload`, `Awaited::step`, `ack_step`). Work that is fixed beforehand is a list of steps
(`push_track_bundle`, `push_file`, `cache_track`, `keep_song`).

Names that begin with `law_` are proofs of what holds of the library as a whole,
such as that a frame is read back from its own bytes, or that the titles written
by an upload are those that the library shows.

## What is taken on trust

The calls into `serde_json` stand at the end of `json.rs`, those into the
standard library at the beginning of `text.rs`. Each says in its contract what
it is taken to do.
