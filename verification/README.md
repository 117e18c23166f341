# wakectl

Schedules wake events for the machine's real-time clock.

`src/` is the library, verified with Verus:

- `text` reads characters: decimal numbers as Rust's integer parser reads
  them, ASCII case folding, pair removal and splitting at a separator.
- `clock` holds what comes from `chrono`: the calendar rules, the range of
  instants, and the calls that read the machine's clock and time zone.
- `time` reads wake times (`+90s`, `7am`, `14:30` with a date `12/25/2026`)
  and places them in time; `time_laws` states what the notations mean for
  every input of their documented shapes.
- `parse_time` reads a relative time as the current Unix time plus the span
  it gives.
- `schedule` keeps the schedule of wake events, one event per id.

`app/` is the command-line program around it: arguments, the schedules file,
the RTC alarm file, and the serde form of the schedule.
