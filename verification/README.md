# Owner's ledger

The rules of a self-hosted ledger for a Keyholder and the submissives in their care: accounts,
invites and links, chastity devices and confinement sessions, verification codes and proof, a
catalog of tasks, rewards and punishments with their escalation chains, points, check-ins, play
sessions, limits, notifications, two-factor login and reports. The rules are written in Verus, and
what they promise is proved.

## Layout

- `src/` is the library. Every function has a contract.
  - `ledger.rs` holds the `Ledger`: every table as a list of plain rows, and its view.
  - `table.rs` holds what is done to tables: finding, counting, ordering, updating and removing rows.
  - `domain/` holds the rules, one module for each subject.
  - `invariants.rs` holds what all of them keep together: a balance is the sum of its lines, the
    lines and the log only grow, and nobody has two open sessions.
  - `live.rs` keeps the channels of those who watch a play session.
  - `text.rs`, `numeral.rs`, `clock.rs`, `json.rs`, `arith.rs` and `ids.rs` are the small tools.
- `tests/` runs the library on concrete values.
- `app/` is the program around it: the SQLite file, the background sweeps, the local commands, the
  streams and the error texts.

## How to read a contract

A function takes the ledger and the time, and says what the ledger is afterwards. Most contracts go
through a spec function that gives the new ledger or the refusal, such as `points::adjusted` or
`confinement::resumed`; where a row gets a random id, a function whose name ends in `_as` takes the
id as an argument and is exact, and the function without it says that some row identifier was used.
A refused call leaves the ledger as it was, unless its contract says otherwise: a wrong code counts
against its login challenge, and a sweep keeps what it settled before it stopped. What a function
computes from an outside answer (a one-time password, a JSON text) stands in a function whose name
ends in `_with` or `_by`, which takes that answer as an argument.

Public proof functions named `law_...` state what holds across functions: that a code proves one
submission, that a pause costs no time, that a balance is covered, and the like.

## What is trusted

Functions marked `external_body` call an outside crate: `uuid` for ids, `serde_json` for JSON,
`sha2`, `base64`, `chrono` for weekdays, `jwt-simple` for key pairs and `totp-rs` for one-time
passwords. The comment above each says what is taken on trust. Keys, references and column checks
are the storage's: the library relies on none of them but where a law names it.
