# mango

A double-entry personal finance ledger for the command line.

- `src/` is the verified library (Verus): money formatting (`money`),
  calendar periods on top of `chrono` (`dates`), the double-entry integrity
  check (`ledger`), the transactions that each command records
  (`transactions`, `commands`, `schedule`), account and budget rules
  (`accounts`), report arithmetic (`reports`) and texts (`text`).
- `app/` is the program: command-line parsing (`clap`), SQLite storage
  (`rusqlite`), tables (`comfy_table`), and the conversions between decimal
  amounts and cents, which use floating point.
- `tests/` exercises the library.
