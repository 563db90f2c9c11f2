# heft

A process monitor for Linux that shows what is heavy by application, service
and container rather than by process.

- `src/` is the library: everything that is decided or computed. It parses what
  `/proc`, `/sys`, cgroups and the container engine say, applies the grouping
  rules, places every process in one row, adds the rows up, and works out what
  each line of the screen, the JSON output and `explain` holds. Each function
  carries a contract that Verus proves. Functions named `law_*` state what holds
  of several functions together.
- `app/` is the program around it: arguments, files and sockets, the clock, the
  terminal, and the figures that are fractions.
- `tests/` runs the library on concrete inputs.

What other crates and the standard library do is believed where the library
calls it: `src/text.rs`, `src/identity.rs`, `src/rules/check.rs`,
`src/explain.rs` (`serde_json`) and `src/ui/filter.rs` (`regex`) state what.
