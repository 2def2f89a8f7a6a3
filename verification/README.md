# exercises

Small Rust exercises — parsing numbers, handling errors, iterators, traits,
conversions — written as a library whose functions carry Verus contracts and
proofs, plus the `log-grep` line filter.

- `src/` — the verified library, one module per topic (`decimal`, `text`,
  `error_handling`, `log_grep`, `iterators`, `options`, `traits`, ...).
  `log_grep` calls the `regex` crate through a few trusted wrappers whose
  contracts name what `Regex::new` and `Regex::is_match` return.
- `tests/` — ordinary Rust tests run against the compiled library.
- `app/` — the command-line programs (`log-grep`, and `hello-rust` when the
  binary is started under that name) and the functions that only print, read
  files or use floating point.
