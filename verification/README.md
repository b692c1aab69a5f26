# netburn

Teams-focused network diagnostics for macOS: ping statistics, Teams signaling
and STUN reachability, bandwidth, bufferbloat under load, and network
impairment with dummynet.

- `src/` is the verified library (Verus): reading `ping` and `route` output,
  STUN request encoding and response decoding, the choice of signaling hosts
  and STUN probes, impairment plans, and the HTML report layout, each with its
  contract; the laws the library keeps are the `law_*` proof functions.
  Floating-point figures are carried as the decimal text they were read or
  written as.
- `app/` is the command-line program around it: process and socket I/O, HTTP,
  JSON, the progress display, and the floating-point arithmetic (throughput,
  latency grades and thresholds).
- `tests/` exercises the library on concrete inputs.
