# philiprehberger_assert_cmd

Fluent assertions on the exit code, standard output and standard error of a
command line program, written in Verus.

- `src/` is the verified library: the command builder (`command.rs`), the
  captured output and its assertions (`output.rs`), glob matching
  (`glob.rs`), the text operations behind them (`text.rs`), the error type
  (`error.rs`) and the decisions taken while a process with a time limit runs
  (`watch.rs`).
- `app/` runs a command with `std::process` (the `Run` trait) and gives the
  gives `Display` and `std::error::Error` to `RunError`, a wrapper around the
  library's error type.
- `tests/` exercises the library on concrete values.
