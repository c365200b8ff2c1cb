# boxlite_cli

The decision logic of a command line for sandboxed boxes, written in Verus: executable Rust whose
behaviour is stated in `requires` and `ensures` clauses and proved.

## Layout

- `src/` is the library. Every function in it is verified but for the three wrappers named under
  "What is trusted".
  - `bench/` runs benchmark scenarios, aggregates their samples into reports and compares reports.
    - `runner.rs` takes a run from phase to phase, `reaper.rs` finds what an interrupted run left
      behind, `stats.rs` aggregates, `report.rs` holds the report, `compare.rs` and `table.rs`
      compare two reports and show the result, `host_info.rs` describes the machine.
    - `scenarios/` holds one file for each group of scenarios. A scenario states the course of an
      iteration as a script (`script.rs`, one box) or a plan (`plan.rs`, several boxes, images or
      the runtime), judges the exit codes on the way, and turns what was observed into metrics.
      `dd.rs`, `fio.rs` and `iperf3.rs` read what those programs print.
  - `df.rs`, `reserve.rs` and `pull.rs` are the texts of three commands; `images.rs` holds the
    replies of the image endpoints.
  - `number/` is binary64 and binary32 arithmetic on bit patterns, proved to round correctly;
    `render.rs` writes numbers, `text.rs` splits and parses text, `names.rs` is a map in
    alphabetical order, `json.rs` holds a JSON document as a tree.
- `tests/` runs the library.
- `app/` is ordinary Rust around it: arguments, files, processes, sockets, and the interpreters of
  scripts and plans. The sandbox engine is reached through the traits in `app/backend.rs`.

## What is trusted

Three wrappers make calls whose contracts are believed without proof: `read_value` and `open_value`
in `json.rs` read JSON documents with `serde_json`, and `write_rfc3339` in `images.rs` writes
timestamps with `chrono`. `text.rs` declares what `String::push` does. Each says what is claimed of
the code that it stands for.
