# workmux

The decision logic of workmux, a manager of git worktrees and coding agents,
with its behaviour stated in contracts and proved by Verus.

- `src/text.rs`: trimming, searching, comparing and printing text.
- `src/output.rs`: the bytes that programs print, as text.
- `src/json.rs`: JSON values, their equality and order, and reading and writing
  them with `serde_json`.
- `src/merge.rs`: merging hook groups into settings without loss or repetition.
- `src/hooks.rs`: the hooks that are installed, as text and as a JSON value.
- `src/gemini.rs`: checking and installing the Gemini CLI hooks.
- `src/github.rs`: aggregating checks, choosing pull requests, and the dialogue
  with the GitHub CLI.
- `src/llm.rs`: generating branch names with a language model.
- `src/dashboard.rs`: what the dashboard fetches in the background.
- `app/`: files, processes and threads around the library.
- `tests/`: tests of the library.

Calls into `serde_json`, `slug`, `shlex` and the decoders of `String` stand
behind small functions whose contracts are trusted; each says in its comment
what is claimed of the call. Properties that relate several functions are the
proof functions whose names start with `law_`.
