# chronogit

A read-only Git history explorer for the terminal, with Vim-style motions and
language-server navigation. The library is written in Verus: each function
states its behaviour in `requires`/`ensures` contracts, and the contracts are
proved.

## Layout

- `src/domain/` — repository paths, commits, diffs, trees, search hits and
  source positions.
- `src/git/` — the typed Git commands, the argument and environment lists
  they run with, the parsers of Git's machine output, and `GitService`, which
  runs commands through the `GitRunner` trait. Each service method states
  which command it runs and how the answer is read.
- `src/app/` — the application state and its reducer: views, selections,
  the bounded diff cache, in-document and repository search, the Vim motion
  engine, the code viewer, and semantic navigation with the shared jump
  list. `effect_event` turns each repository effect into its completion.
- `src/lsp/` — language-server configuration and profiles, position
  encodings, the `Content-Length` framing, and the reading of JSON answers
  (locations, hover, capabilities, status).
- `src/text.rs`, `src/bytes.rs`, `src/unicode.rs`, `src/paths.rs` — text and
  byte models, and the few calls into `std`, `bstr`, `url` and
  `unicode-width` whose contracts are trusted.
- `app/` — the program: command-line parsing, the process-spawning Git
  runner, working-tree file reads, and the loop that runs the reducer's work.
- `tests/` — tests of the library on concrete values.

Laws the library states and proves are public proof functions named
`lemma_*`, for example `lemma_matching_pair_symmetric`,
`lemma_percent_round_trip`, `lemma_cancel_keeps_confirmed_search`,
`lemma_back_after_jump`, `lemma_request_ids_never_reused`,
`lemma_stream_kept` and `lemma_written_length_read_back`.
