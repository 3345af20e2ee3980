# ferroni

Building blocks of an Oniguruma-style regular expression engine, written in
Verus and proved against their contracts: encodings, error messages, the
compiled-program types and their construction helpers, the candidate scans a
search runs before matching, the matcher's backtracking stack, the first-byte
and literal-trie filters, and the memoization cache. The pattern parser and
compiler, the backtracking matcher and the search loop that drives it are not
part of this library; `Regex` holds an already compiled program.

## Layout

- `src/` — the verified library.
  - `oniguruma.rs`, `regint.rs`, `regenc.rs`: option flags, error codes,
    the compiled-program types, and encoding helpers.
  - `encodings/`: ASCII and UTF-8 character decoding, encoding and case folding.
  - `regerror.rs`, `error.rs`: error messages and the typed error enum.
  - `search.rs`: the literal and map scans that find match candidates
    (forward, backward, Sunday quick search), with exact specifications of
    the position each one returns.
  - `stack.rs`: the backtracking stack of the matcher: popping to alternatives
    and marks, repeat counters, capture lookups, empty-loop checks and
    back-reference comparison at a nesting level.
  - `regexec.rs`: word-boundary tests, code-range tables, callout data slots,
    stack limits and case-insensitive comparison.
  - `first_bytes.rs`: the first-byte filter and the guard analysis of the
    program's leading branches.
  - `literal_trie.rs`: the trie of alternated literals, with the walk that
    accepts Unicode case folds of ASCII literals.
  - `match_cache.rs`: the memoization of (instruction, position) pairs with
    its memory budget.
  - `regcomp.rs`, `api.rs`: program construction helpers and the high-level
    `Regex`, `Match`, `Captures` and iteration types.
- `tests/` — ordinary Rust tests run against the compiled library.
- `app/` — process-wide limits held in atomics, and an error type with
  `Display` and `std::error::Error`.
