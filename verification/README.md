# zenith

The sensor core of Zenith, a CPU temperature and system health monitor, as a
Verus-verified library, with the desktop shell and the sensor worker program
around it.

## Layout

- `src/` — the verified library.
  - `protocol.rs`: the line protocol between the sensor worker and the app,
    and its timestamps. Temperatures are held in thousandths of a degree
    Celsius.
  - `hardware_access.rs`: access errors, the MSR backend trait, and the
    recording adapter that makes a platform driver a backend.
  - `mock.rs`: the mock backend.
  - `intel.rs`: decoding of Intel thermal MSRs into sensors and derived values.
  - `topology.rs`: decoding of `cpuid` registers and of the processor records
    that `GetLogicalProcessorInformationEx` returns into a CPU topology.
  - `pawnio.rs`: the call buffers of the PawnIO driver and the order of an
    MSR read through it (pin the thread, then call the driver).
  - `supervisor.rs`: the circuit breaker that paces worker restarts.
  - `worker_supervisor.rs`: the decisions of the app's worker supervision
    loop, including which worker executable to start.
  - `worker.rs`: the decisions of the worker program (switches, messages).
  - `sensor.rs`: the temperature-source merge, the ACPI fallback and the
    polling bookkeeping of the app.
- `app/` — the programs: the worker's `main`, the Tauri shell (`host.rs`),
  `sysinfo` polling (`payload.rs`), process supervision threads
  (`supervision.rs`), the Windows system calls (`pawnio.rs`, `probe.rs`) and
  the JSON encoding of the protocol (`wire.rs`).
- `tests/` — tests of the library.
