# beemon

A process monitor for Linux: BPF probes report what watched processes do,
and a daemon serves the process list, per-process metadata, network flows,
namespace details and live event streams over HTTP and WebSocket.

## Layout

- `src/` is the library, verified with Verus. It holds the decoding of the
  kernel's event records and their conversion into API events; the parsers
  of the `/proc` and cgroup files the daemon reads (`stat`, `status`,
  `cgroup`, `mountinfo`, `meminfo`, `cpu.max`, ...); the process, cgroup and
  namespace caches with their invalidation rules; I/O counter sums and
  growth; flow selection and formatting; subscriber bookkeeping; and the
  configuration read from the environment. Functions that read the system
  take the reading as a closure (`read`, `links`, `kind`, ...), so their
  contracts say exactly what they do with whatever the system answered.
- `tests/` exercises the library on concrete inputs.
- `app/` is the daemon around it: BPF loading and map access (aya), the
  tokio tasks (scanner, rates poller, ring-buffer drain), the axum server,
  the closures that read `/proc`, the socket tables and other namespaces,
  and the floating-point CPU and rate figures.
