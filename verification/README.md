# anchor_desktop

The desktop side of a motion-sensing pair: it receives motion samples over UDP,
tracks the sending session, records them to NDJSON datasets, checks and analyzes
those datasets, calibrates a stationary profile and selects a tilt-estimation
filter policy.

The library in `src/` is written in Verus. Each public function carries a
contract over a mathematical model (sequences, maps, integers), and the
properties that span several calls (sequence numbers increase within a session,
the rate limiter never admits more than its limit per window, gap accounting
adds up, Pareto dominance is asymmetric, ...) stand as proof functions.

- `protocol`, `receiver`: datagram admission, session takeover, staleness and metrics.
- `dataset`, `analysis`: recorder bookkeeping, line-by-line dataset validation and structure analysis.
- `timefmt`: RFC 3339 parsing and UTC calendar fields, through the `time` crate.
- `calibration`, `selection`, `filtering`: profile checks, quality gates, Pareto front and policy choice.
- `cli`, `text`: command-line parsing and text helpers.

`app/` holds the program around the library: sockets, files, JSON, the async
runtime and the floating-point statistics. `tests/` exercises the library.
