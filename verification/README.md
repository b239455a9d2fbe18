# bridge_probes

Probes for hosting interactive command-line programs under a pseudo-terminal:
what such a session is launched with, how it is driven and torn down, what it
leaves behind, and what the read path costs. The decisions, parsers, checks and
reports are a library whose contracts are proved with Verus; the programs around
it do the I/O.

## Layout

`src/` is the verified library.

- Text and bytes: `text`, `utf8`, `ansi`, `lines`, `json`, `double`.
- A hosted session: `environ`, `binary`, `launch`, `pty`, `firsttoken`, `hooks`,
  `rig`, `reports`, `capture`, `failure`.
- The interactive lanes: `standin`, `fourpoint`, `cleanup`, `inspect`, `script`,
  `record`, `vt_eval`.
- Measurement: `clock`, `session`, `stats`, `verify`, `monitor`, `report`,
  `compare`, `lane`.
- The measuring lanes: `soak`, `latency`, `throughput`, `replay`, `plan`,
  `recorded`, `replay_lane`.
- The command lines: `args`.

Properties that relate several functions are public proof functions whose names
begin with `law_`, beside the functions that they speak of.

`tests/` runs the library on concrete values. `app/` holds the programs:
`interactive-probe`, `interactive-standin`, `perf-probe` and `replay-child`,
chosen by the program's own name or by its first argument.

## Conventions

Times are nanoseconds on one monotonic clock. Paths and environment variables
are texts. Where a decision waits for the outside (a child, a stream, a file),
the library is handed what was observed and answers what to do next.

The live CLI is named by the caller. The programs take its name from the
environment variable `AGENT_BRIDGE_LIVE_CLI`; it is the binary that is looked up,
the name by which a record script selects the full launch rig, and part of the
flag that overrides the binary.

The generated stream of the measuring lanes comes from a fixture CLI,
`fake-cli`, that stands beside the programs.
