# crabbybot_core

Core logic of a small AI assistant, written in Verus and proved against its
contracts.

- `src/text.rs` — a character-level model of the `str` operations the library
  relies on (`trim`, `starts_with`, `find`, `lines`, `join`) and verified
  scanning functions over `Vec<char>` windows.
- `src/frontmatter.rs` — parsing of the `---` frontmatter block of skill files:
  field lookup (with folded `>` values), stripping, and the `intent-category` and
  `user-invocable` fields.
- `src/skills.rs` — the skill catalogue: listing, selection by intent, loading,
  the context section and the summary, computed from a `SkillListing` (what the
  skill directories held when they were read).
- `src/intent.rs` — intent categories.
- `src/agent.rs` — decisions of the agent loop: session routing, history budget,
  iteration limit, trimming a request for a retry, confirm-buy buttons, progress
  messages.
- `src/rounds.rs` — `RoundLoop`, the agent loop of one message as a state
  machine: bus messages, session entries, model calls, tool runs and saving.
- `src/cli.rs` — decisions of the command-line front end.
- `src/restart.rs` — the restart flag.
- `app/lib.rs` — reading skill directories from disk, the process-wide restart
  flag, the error type with its messages, the agent configuration, and
  `run_rounds`, which drives `RoundLoop` with the model and tools it is given.
