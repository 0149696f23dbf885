# pprof (verified core)

A sampling CPU profiler. SIGPROF interrupts the process at a fixed frequency;
each interruption walks the stack of the interrupted thread and records it.

- `src/` is verified with Verus:
  - `profiler.rs`: the profiler's state (running or not, samples taken,
    collected stacks, blocked address ranges), the start/stop protocol, the
    recording of a sample, and the blocklist of shared libraries;
  - `collector.rs`: aggregation of samples, one entry per distinct stack;
  - `frames.rs`: backtraces (held in a `SmallVec`), the depth cap of a stack
    walk, and the identity of a stack;
  - `sample.rs`: samples, sample types and units, thread names;
  - `timer.rs`, `error.rs`: report timing and errors.
- `app/` holds what runs against the operating system: the process-wide
  profiler instance, installing and removing the signal handler, the interval
  timer, the signal handler itself and the stack walk.
