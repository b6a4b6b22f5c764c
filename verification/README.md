# chronosys

A Linux system-metrics recorder. The library in `src/` carries machine-checked
contracts and proofs; `app/` is the program around it.

- `src/common.rs`, `src/event_kind.rs`: the records shared with the kernel-side
  eBPF probes (lifecycle events, per-process counters), and the decoding of a
  48-byte lifecycle record read from the ring buffer, every number in the
  machine's byte order. Event kinds are 1 = exec and 2 = exit.
- `src/probes.rs`: what the probes record on process exec and exit, and how a
  syscall's return value updates a process's counters.
- `src/pipeline.rs`: the coordinator's rules: how long to block on the ring
  buffer, when the metrics map is due for a poll, which snapshots go downstream,
  and, after each thing it observes, whether it goes on, starts over or stops.
- `src/text.rs`: line and Unicode-whitespace splitting, `u64` parsing, and the
  wrapping digit reader, each against a specification.
- `src/system_metrics/`: `/proc/meminfo` and `/proc/stat` parsers and the
  metric records.
- `app/`: opens the `/proc` files, loads the eBPF object and attaches its
  tracepoints (aya), polls the ring buffer (nix), and runs the async tasks
  (tokio).
- `tests/`: tests of the library.

Run the program as `chronosys [path-to-compiled-ebpf-object]`. The object must
write lifecycle records in the layout and with the event kinds above.
