# anecho

The verified core of the Anecho audio analyzer backend, written in Verus.

`src/` is the library: every function carries a contract that Verus proves.

- `wire` — the binary real-time frame (little-endian header, channel-major values) with its
  encoder and decoder, and the round-trip laws.
- `blocker` — regrouping of captured audio into fixed-size blocks sent on a bounded
  channel, with drop counting.
- `loopback` — the virtual loopback's delay line.
- `device`, `types`, `error` — device identifiers, configurations, the per-device stream
  state machine, sample-rate probing, channel selection and QA40x range choice.
- `routing` — channel selection and routing between streams and device buffers.
- `engine` — sessions and streams bookkeeping (a streaming session switches to a new
  stream on the running device loop), frame numbering, raw frames, measurement parameters,
  the capture schedule of a measurement and the release of its claim.
- `analyzers` — scope geometry and buffer, analysis frames, emission rate, spectrum
  averaging steps, the input auto-range policy.
- `rng` — the xoshiro256** generator behind the noise signals.
- `cli`, `syntax` — the command line's generator syntax (signal, level, sine alias).
- `requests` — how API requests become engine requests.
- `connection` — what one API connection owns: its streams and sessions, which frames and
  events reach it, which sessions close with it.
- `dsp` — the discrete choices of the signal processing (windows, averaging, weightings).

`app/` is ordinary Rust around the library: floating-point signal processing, the async
device and engine layers, the in-process virtual loopback device and displayable errors.

`tests/` exercises the library on concrete values.
