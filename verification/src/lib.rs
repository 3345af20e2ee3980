//! Oniguruma-compatible regular expression building blocks with verified contracts.
pub mod api;
pub mod encodings;
pub mod match_cache;
pub mod oniguruma;
pub mod regenc;
pub mod regint;
pub mod regcomp;
pub mod regerror;
pub mod regexec;
pub mod error;
pub mod first_bytes;
pub mod literal_trie;
pub mod search;
pub mod stack;
