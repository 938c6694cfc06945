# yara_diagnostics

Slow-pattern diagnostics, PHP detection and scan profiling for a YARA compiler
and scanner, verified with [Verus](https://github.com/verus-lang/verus).

* `src/` is the library. Every function states in its contract what it returns,
  and Verus proves that it does.
* `src/*_laws.rs` hold what follows for the library as a whole.
* `tests/` run the library on concrete inputs.
* `app/` is the `diagnose` command around it: arguments, files and printing.

What is not proved, but believed, is said at the functions marked
`external_body` and at the `assume_specification` items: what `regex-syntax`,
`serde_json`, `yansi` and a few functions of the standard library return.
