# tome

The decisions of a desktop workspace for coding agents, written in Verus: executable Rust whose
contracts are proved.

- `src/flow/`: flows as graphs, what may start when, the life of a run and of its nodes, drafts
  and their layout, where a path really lies.
- `src/airgap.rs`, `src/pane.rs`, `src/pty.rs`, `src/agent_env.rs`, `src/command.rs`: panes, the gap
  around them, their environment, and the command lines they come up with.
- `src/auth.rs`, `src/runs.rs`, `src/windows.rs`: the lock, the check before anything runs
  unsandboxed, windows and going down.
- `src/chat/`: providers, their keys, whom a talk is with and how it ends.
- `src/schedules.rs`, `src/export.rs`, `src/remote.rs`: what starts by itself, and what leaves the
  machine.
- `src/git.rs`, `src/graphify.rs`, `src/files.rs`, `src/doc.rs`, `src/stt.rs`, `src/workspace.rs`:
  the programs and files around a workspace.
- `src/text.rs`, `src/parse.rs`, `src/paths.rs`, `src/clock.rs`, `src/json.rs`, `src/strmap.rs`,
  `src/sorting.rs`, `src/records.rs`, `src/listing.rs`: the values all of this is made of.

The library does no I/O. Where a decision takes several looks at the world, a function takes what
is known so far and says what to find out next; `app/` holds the loops that do so, around
processes, files, timers and pseudo-terminals. Public proof functions whose names begin with
`law_` state what holds of several functions at once.

Calls into other crates, and the few parts of the standard library that are called without a
specification of their own, stand behind small trusted functions. Each says in its comment what is
taken on trust: `src/text.rs`, `src/command.rs`, `src/chat/egress.rs` and `src/chat/send.rs`.
