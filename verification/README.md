# rpg2java-transpiler

A transpiler from RPG source (free and fixed format) to Java skeletons, with
migration reports. Unsupported statements are never dropped: they are kept as
`// TODO` comments and listed in the reports.

The library under `src/` is verified with Verus:

- `text` — character classes, trimming, searching, replacing and decimal
  rendering over `Seq<char>`, with the executable helpers the other modules use.
- `parser` — line parsing in free and fixed format, mode detection,
  diagnostics, operation statistics and subroutine routes.
- `ir` — the intermediate representation, symbol tracking (assigned and
  referenced lines) and type inference.
- `transpiler` — Java identifiers, collision-free symbol names, expression and
  condition translation, and the generated class.
- `report` — JSON, Markdown and HTML migration reports and source maps.
- `java_lines` — where the Java of each statement stands in the generated
  class, which is what the source map records.
- `cli` — the command line, class names, failure categories, TODO policies and
  the distribution of batch files over workers.
- `perf` — the metrics table and the performance summary of batch runs: the
  slowest files, size bands, signals and recommendations.

Each public function states its result exactly over spec functions; the laws
of the library (line bookkeeping, source-map lines, TODO listing, legal and
distinct Java names, brace nesting of the generated class, report ordering
and layout, escaping, free-format parsing, subroutine routes, performance
thresholds, snapshot checks, batch outcomes, failure categories, worker
distribution, consistency of accepted command lines) are public proof
functions.

`app/main.rs` is the command-line program: it reads and writes files, runs the
Java compiler, spreads batch work over threads and computes the floating-point
statistics of batch runs (averages, rates, percentiles), and leaves every
other decision to the library.
