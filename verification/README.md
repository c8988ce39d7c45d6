# postivene

The logic behind a Delta Chat client for Sailfish OS, verified with Verus:
how the app supervises the core's server, makes and takes over profiles,
keeps its profile list in step with the core, and relays the core's events;
and the double of the core's JSON-RPC server that the app's tests talk to.

## Layout

- `src/` — the verified library.
  - `launch.rs`: which server binary to run.
  - `supervisor.rs`: the restart backoff, and the server's last words.
  - `session.rs`: the core object's state — status, restarts, IO to resume,
    the reader's settings.
  - `signup.rs`: attempts at a profile, one at a time, and what the page
    hears of each.
  - `accounts.rs`: the profile rows, brought in line with the core's list
    edit by edit, and the profile to open on.
  - `events.rs`: what each event off the core's stream is relayed as.
  - `fake/`: the server double — its accounts, chats, contacts, messages,
    reactions and app updates (`state.rs` holds what each call does).
  - `text.rs`, `idset.rs`: text and id-set helpers with their proofs.
- `tests/` — tests of the library.
- `app/` — the Qt object, the catalogs, and the double's wire: JSON-RPC over
  standard input and output, the environment and the clock. Run as a
  program (`app/main.rs`), it is the double.
