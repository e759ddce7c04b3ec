# qeminga

A small guest agent for virtual machines: it answers a fixed set of requests
that arrive over a virtio-serial channel, freezes and thaws filesystems for
snapshots, and records every request it receives.

The agent's logic is a library written in Verus. Every function of it states
what it returns or changes, and the statements are proved; laws that span
several functions stand beside them as public proof functions named `law_*`.

## Layout

- `src/framing.rs`: frames from a byte stream, with resynchronisation.
- `src/proto.rs`, `src/json.rs`: requests, errors and replies.
- `src/dispatch.rs`, `src/dispatch/`: which request runs, with rate limits.
- `src/handlers.rs`, `src/handlers/`: what each command answers.
- `src/mountinfo.rs`, `src/freeze_plan.rs`: which filesystems a freeze takes.
- `src/freeze_op.rs`, `src/freeze_op/`: a freeze from its preparation to its end,
  with its deadline, abort and recovery.
- `src/handlers/fsfreeze/`: drains, rollback and thaw.
- `src/handlers/fstrim/`: the walk of a trim, and what it asked of the kernel.
- `src/state.rs`, `src/watchdog.rs`: the freeze state and the deadline of a
  freeze nobody thaws.
- `src/channel.rs`, `src/channel/`: reopening the device; one session on it.
- `src/audit.rs`, `src/audit/`: audit records, and where they go while
  filesystems are frozen.
- `src/config.rs`, `src/daemon.rs`, `src/daemon/`: configuration, arguments,
  the order of the startup steps and the way out.
- `src/kernel.rs`, `src/marker.rs`, `src/text.rs`: shared values and texts.
- `app/`: the process around the library. It opens files and devices, makes
  the system calls, runs the tasks and hands the library what came back. It
  carries no seccomp filter, so it serves only with
  `hardening = "unenforced-development-only"`.
- `tests/`: tests of the library.

What the library takes on trust is marked `external_body`, each with a comment
that says what is claimed of the outside function: SHA-256 (`sha2`), the token
buckets (`governor`), the quoting of a JSON string (`serde_json`), the names of
error numbers (`nix`), and a few conversions of the standard library.
