# standby

A cross-platform time tool — `sleep`, `timeout` and `wait` — whose logic is a
library verified with Verus.

## Layout

- `src/` — the verified library:
  - `time/parser.rs`: the duration parser (`5`, `5.5`, `1.5m`, `1h30m45s`,
    `infinity`), specified by `parse_spec`;
  - `time/duration.rs`: `Duration` and its conversions and display;
  - `time/magnitude.rs`: comparing numbers of many digits, and where the range
    of `f64` ends;
  - `time/laws.rs`: proved laws (display then parse gives the duration back,
    a number with a unit is that many seconds, `<h>h<m>m<s>s` is
    `3600·h + 60·m + s` seconds, `<n>e<k>` is `n·10^k` seconds, surrounding
    whitespace is ignored, …);
  - `commands/`: what each subcommand reads from its arguments and decides, with
    the decision steps of `timeout` and `wait`;
  - `signals.rs`, `timing.rs`, `debug.rs`, `text.rs`, `errors.rs`.
- `app/` — the program: argument parsing with clap, spawning, signalling with
  nix (winapi on Windows), terminal restoration, sleeping and printing.
- `tests/` — tests of the library.

## Duration strings

Numbers are exact decimals, truncated to 18 decimal places; the total is
truncated to whole nanoseconds. A number may carry a sign, may be `inf`,
`infinity` or `nan` (any ASCII case), and may carry an exponent (`1e3`,
`2.5E-1`), as `f64::from_str` reads numbers. A number with one unit is cut
from its unit at the count of its number characters taken as a byte offset, so
a numeral of several bytes (such as `٣`) ends the number early; a text that
would be cut inside a character cannot be read (`parse_fails`), and the
program stops on it. A compound duration is searched
for `d`, `h`, `m` and `s` in that order; `ms` counts as minutes followed by an
empty second. A total from `2^64 - 1024` up to `2^64 + 2048` seconds (the
numbers that `f64` rounds to `2^64`) is the infinite duration; larger durations
are refused. A term
beyond the range of `f64` (whose whole number of units, times the unit, reaches
`2^1024 - 2^970` seconds) is an infinity of its sign, as `f64` reads it: the
duration is then infinite, unless infinities of both signs meet.

## Exit codes of `timeout`

A command that ends before its time limit passes its exit code on. After the
timeout the exit code is 1, or, with `--preserve-status`, the command's own
code. A command ended by a signal has no code: that gives 1, a failed command.
