# ifmon

A terminal network-interface monitor. The library under `src/` holds the
monitor's logic, verified with Verus; `app/` is the terminal program around it.

- `src/app.rs`: the application state machine (selection, view modes, help,
  address scrolling, key and mouse handling, sidebar geometry, status texts,
  totals per interface, update-interval parsing, sampling cadence), with its
  abstract state `AppState` and the laws that relate its transitions.
- `src/network/filter.rs`: which interfaces the physical view lists.
- `src/types/history.rs`: the speed-history ring buffer.
- `src/ui/`: text layout for the sidebar (display-width truncation and
  padding), the interface panel's address rows, and the help screen's keys.
- `src/utils/format.rs`: byte totals written exactly as their `f64` values
  format, and optional values.
- `app/`: reads interfaces and counters from the OS (`netdev`), terminal
  events (`crossterm`), draws with `ratatui`, and computes speeds, which are
  floating point.
