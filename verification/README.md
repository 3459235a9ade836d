# steamdepot

Downloads Steam depot content. The library in `src/` holds the logic and proves
it with [Verus](https://github.com/verus-lang/verus); the program in `app/` adds
sockets, files, the clock and the protobuf codec.

| Module | What it holds |
| --- | --- |
| `connection`, `emsg`, `session`, `proto` | frames and messages of a CM, envelopes of several messages, service method calls, the session |
| `login`, `jwt` | logons, auth sessions, password encryption, the SteamID in a refresh token |
| `pics`, `workshop` | product info, depot keys, free licenses, workshop items |
| `cdn` | the pool of CDN servers, their tokens, calls that are tried again |
| `manifest` | where manifests are, how they are packed, their sections |
| `crypto`, `chunk`, `zstd` | decryption, decompression, checksums, how far a frame expands |
| `paths`, `order`, `prepare` | file names, the order in which a tree is created, the plan of it |
| `download` | the chunks of a depot: which, from where, and what became of them |
| `report`, `json` | what the user is told |
| `text`, `wire`, `error` | numerals and text, numbers as bytes, failures |
| `outside` | what is taken from other crates and from std without proof |

Each function says in `ensures` what it returns, over spec functions that stand
beside it. Public proof functions state what holds across functions: that a frame,
an envelope, a manifest and a chunk are read back as they were written, that
folded names keep apart, that every chunk is written to a file that the plan
creates, that a pool of servers rotates.
