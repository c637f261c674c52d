# omarchy-syncd

Authenticated discovery, pairing and bilateral trust between Omarchy machines
on one network. Each installation has a permanent Ed25519 identity; a device
certificate issued under a pinned root says that the identity belongs to an
Omarchy machine; two machines that find each other authenticate over Noise XX,
and after one local approval both sign and keep the same pairing record.
Pairing grants nothing but identity trust: capabilities are separate records.

`src/` is the library, written in Verus: every function in it is verified
against its contract. `app/` is the daemon around it: sockets, threads, files,
prompts and the parsing of JSON. `tests/` runs the library with the real
cryptography.

## The library

| Module | What it holds |
| --- | --- |
| `codec`, `text` | big-endian fields, bounded strings, hexadecimal, order |
| `crypto`, `noise` | what the library relies on from `sha2`, `ed25519-dalek` and `snow` |
| `json` | JSON texts, numbers and lists, written by `serde_json` |
| `identity`, `capability` | the device identity and DeviceID; capability grants |
| `protocol_v3`, `discovery` | the pinned root, device certificates; announcements, freshness and replay |
| `frames`, `authentication` | pairing frames; transcripts, hellos, proofs and pinned identities |
| `pairing` | the two ends of the exchange and the authenticated session |
| `record`, `trust` | pairing records and the store of pending, active and revoked ones |
| `readback` | that no two records have the same stored form |
| `peers`, `runtime_v3` | discovered peers, one attempt at a time, cool-down; enrollment, wire and routing |
| `prompt` | how the local user is asked, and what counts as consent |
| `pairing_run` | one pairing from first frame to active record, on either side, as steps |
| `exchange`, `bilateral` | what holds of two ends, and of stores |
| `conduct`, `attempts` | what holds of one run and of two, and over any number of them |
| `meeting`, `recovery`, `series` | two ends from their first frame on, after an interruption, and over any series of them |

The store and the runs perform no input or output. A store is opened on what
its directories hold and keeps a journal of changes to make there; a run takes
what happened last and says what to do next.

## What is trusted

The contracts in `crypto`, `noise` and `json` about the four outside crates,
and two about the standard library: `String::from_utf8` in `codec` and
`str::trim` in `text`. Each says above it what is claimed and not proved. That
a signature verifies, or that a ciphertext opens, is what those crates report;
nothing is claimed about how hard either is to forge. Laws about two ends take as premises
that the cipher and the handshake work between honest ends (`aead_sound`,
`noise_sound`), or that a key accepts only the signature that was made
(`accepts_only`).
