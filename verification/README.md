# ghostty_top

A monitor for the terminals of Ghostty with a calendar of focused time, verified
with Verus.

- `src/` is the library: reading what `ps`, `lsof`, `ioreg`, `stty` and Ghostty
  tell, grouping processes under their terminals, the leak alert, tracking of the
  focused tab, the history files, the calendar, and both views as lines of text
  with their click targets. Every function has a contract that Verus proves.
- `app/` is the program around it: commands, files, threads, the terminal, and
  what needs floating point.
- `tests/` runs the library on concrete values.

Times are nanoseconds of a monotonic clock. A share of processor time is held as
its rank among all shares together with its text. The library trusts two
functions of the standard library: `String::push` and `str::to_lowercase`.

Every property that spans functions is a public proof function whose name begins
with `law_`.
