# hex_harness

The rules of a personal memory and messaging harness, written in Verus: every
function of the library carries a contract, and the contracts are proved.

The library decides; it does not touch the disk, the network or the clock.
Where work and decisions alternate, a value of the library stands for the work
on its way. It says what to do next, is told what came of it, and goes on. The
program in `app/` carries out these actions.

## Layout

- `src/assets.rs`, `comments.rs`, `messaging.rs`, `server.rs`: the handlers of
  the local service and their command lines.
- `src/harness.rs`, `src/hook/`: taking in an event, and adding what is
  remembered to a prompt.
- `src/memory/`: what is indexed and how it is cut (`index`, `sources`,
  `file_run`, `clear`, `run`), how transcripts become facts (`distill`,
  `distill_run`, `provider`), which registered source answers a query
  (`authority`, `safe_read`, `resolving`), and the tables (`open`, `init`,
  `plan2`, `schema`, `migration`, `stats`).
- `src/failures.rs`: what was missed, what runs twice, what fails together.
- `src/log_tail/`: following a log and telling of slow episodes.
- `src/doctor/`: checks of a workspace.
- `src/llm_config.rs`, `telemetry.rs`, `cli.rs`, `scipd.rs`: settings and
  commands.
- `src/text.rs`, `json.rs`, `order.rs`, `lists.rs`, `paths.rs`, `calendar.rs`:
  what the others build on.

The proof functions named `law_…` state what holds of several functions
together. The functions marked `external_body`, and the specifications of
functions of the standard library, are believed and not proved; each says what
it claims.

The name of the assistant is given by the caller: the directory, the notes and
the models that carry it are derived from that name. The program takes the
assistant whose directory and notes the workspace holds, unless `HEX_ASSISTANT`
names one.
