use crate::hardware_access::{error_code_of, AccessError};
use crate::mock::{MockHardware, MockModel};
use crate::protocol::{
    CpuInfo, Derived, ErrorCode, ErrorDetail, ErrorEnvelope, PROTOCOL_VERSION, SampleEnvelope,
    SensorSample, Source, Status, WorkerMessage,
};
use crate::topology::Topology;
use vstd::prelude::*;

verus! {

/// Temperature target of the mock backend.
pub const MOCK_TJ_MAX: u8 = 100;

/// Package distance of the mock backend when it has no processor at all.
pub const MOCK_DEFAULT_DELTA: u8 = 30;

/// Command-line switches of the sensor worker.
#[derive(Debug, Clone, Copy, PartialEq, Eq, Structural)]
pub struct WorkerOptions {
    /// `--mock`: read from the mock backend instead of the hardware.
    pub use_mock: bool,
    /// `--unavailable`: the mock backend refuses to open.
    pub mock_unavailable: bool,
    /// `--debug`: diagnostics on standard error.
    pub debug: bool,
}

/// Some argument equals `flag`.
pub open spec fn has_arg(args: Seq<String>, flag: Seq<char>) -> bool {
    exists|i: int| 0 <= i < args.len() && #[trigger] args[i]@ == flag
}

fn arg_present(args: &Vec<String>, flag: &str) -> (found: bool)
    ensures
        found == has_arg(args@, flag@),
{
    let wanted = String::from_str(flag);
    let mut i: usize = 0;
    while i < args.len()
        invariant
            i <= args@.len(),
            wanted@ == flag@,
            forall|k: int| 0 <= k < i ==> #[trigger] args@[k]@ != flag@,
        decreases args@.len() - i,
    {
        if args[i] == wanted {
            return true;
        }
        i = i + 1;
    }
    false
}

impl WorkerOptions {
    /// Reads the switches from the arguments after the program name; each is
    /// on when some argument equals it.
    pub fn from_args(args: &Vec<String>) -> (o: Self)
        ensures
            o.use_mock == has_arg(args@, "--mock"@),
            o.mock_unavailable == has_arg(args@, "--unavailable"@),
            o.debug == has_arg(args@, "--debug"@),
    {
        WorkerOptions {
            use_mock: arg_present(args, "--mock"),
            mock_unavailable: arg_present(args, "--unavailable"),
            debug: arg_present(args, "--debug"),
        }
    }
}

/// Distance below the target that the mock reports for processor `i`.
pub open spec fn mock_delta(i: int) -> u8 {
    (30 + i % 5) as u8
}

/// Per-processor distances of the mock backend: 30, 31, 32, 33, 34, 30, ...
pub fn mock_deltas(thread_count: usize) -> (v: Vec<u8>)
    ensures
        v@.len() == thread_count,
        forall|i: int| 0 <= i < thread_count ==> #[trigger] v@[i] == mock_delta(i),
{
    let mut v: Vec<u8> = Vec::new();
    let mut i: usize = 0;
    while i < thread_count
        invariant
            i <= thread_count,
            v@.len() == i,
            forall|k: int| 0 <= k < i ==> #[trigger] v@[k] == mock_delta(k),
        decreases thread_count - i,
    {
        v.push((30 + i % 5) as u8);
        i = i + 1;
    }
    v
}

/// The mock backend the worker runs with `--mock`: target 100, the mock
/// distances per processor, and the first processor's distance (or 30) for
/// the package; refusing to open with `--unavailable`.
pub fn mock_backend(thread_count: usize, unavailable: bool) -> (m: MockHardware)
    ensures
        m@ == (MockModel {
            open_ok: !unavailable,
            tj_max: MOCK_TJ_MAX,
            per_logical_delta: Seq::new(thread_count as nat, |i: int| mock_delta(i)),
            package_delta: if thread_count > 0 {
                mock_delta(0)
            } else {
                MOCK_DEFAULT_DELTA
            },
        }),
{
    let deltas = mock_deltas(thread_count);
    let package_delta = if deltas.len() > 0 {
        deltas[0]
    } else {
        MOCK_DEFAULT_DELTA
    };
    assert(deltas@ =~= Seq::new(thread_count as nat, |i: int| mock_delta(i)));
    let mock = MockHardware::new(MOCK_TJ_MAX, deltas, package_delta);
    if unavailable {
        mock.unavailable()
    } else {
        mock
    }
}

/// The name of an access error as its `Debug` form writes it.
pub open spec fn error_name(e: AccessError) -> Seq<char> {
    match e {
        AccessError::DriverUnavailable => "DriverUnavailable"@,
        AccessError::ModuleMissing => "ModuleMissing"@,
        AccessError::MsrFailed => "MsrFailed"@,
        AccessError::TopologyFailed => "TopologyFailed"@,
        AccessError::Internal => "Internal"@,
    }
}

fn error_name_string(e: &AccessError) -> (s: String)
    ensures
        s@ == error_name(*e),
{
    match e {
        AccessError::DriverUnavailable => String::from_str("DriverUnavailable"),
        AccessError::ModuleMissing => String::from_str("ModuleMissing"),
        AccessError::MsrFailed => String::from_str("MsrFailed"),
        AccessError::TopologyFailed => String::from_str("TopologyFailed"),
        AccessError::Internal => String::from_str("Internal"),
    }
}

/// The protocol code and the message that report an access error.
pub fn access_error_parts(e: &AccessError) -> (r: (ErrorCode, String))
    ensures
        r.0 == error_code_of(*e),
        r.1@ == error_name(*e),
{
    (e.code(), error_name_string(e))
}

/// The error reported when the topology cannot be detected.
pub fn topology_failure(e: &AccessError) -> (d: ErrorDetail)
    ensures
        d.code == ErrorCode::TopologyFailed,
        d.message@ == "topology detection failed: "@ + error_name(*e),
{
    let message = String::from_str("topology detection failed: ").concat(
        error_name_string(e).as_str(),
    );
    ErrorDetail { code: ErrorCode::TopologyFailed, message }
}

/// The error reported when the backend named `backend_name` fails to open:
/// the error's code, and its name after the backend's.
pub fn backend_open_failure(backend_name: &str, e: &AccessError) -> (d: ErrorDetail)
    ensures
        d.code == error_code_of(*e),
        d.message@ == backend_name@ + ": "@ + error_name(*e),
{
    let message = String::from_str(backend_name).concat(": ").concat(
        error_name_string(e).as_str(),
    );
    ErrorDetail { code: e.code(), message }
}

/// The message that reports a fatal error before the worker exits: an
/// unavailable error envelope without a source.
pub fn unavailable_message(detail: ErrorDetail, timestamp_ms: u64) -> (m: WorkerMessage)
    ensures
        m == WorkerMessage::Error(
            ErrorEnvelope {
                protocol: PROTOCOL_VERSION,
                timestamp_ms,
                status: Status::Unavailable,
                source: Source::NoSource,
                error: detail,
            },
        ),
{
    WorkerMessage::Error(
        ErrorEnvelope {
            protocol: PROTOCOL_VERSION,
            timestamp_ms,
            status: Status::Unavailable,
            source: Source::NoSource,
            error: detail,
        },
    )
}

/// The message for one sampling round: a healthy sample from the mock or
/// the hardware with the CPU description of the topology, or a degraded
/// error envelope that names the access error.
pub fn sample_message(
    outcome: Result<(Vec<SensorSample>, Derived), AccessError>,
    use_mock: bool,
    topology: &Topology,
    timestamp_ms: u64,
) -> (m: WorkerMessage)
    ensures
        match outcome {
            Ok(out) => m matches WorkerMessage::Sample(env) && {
                &&& env.protocol == PROTOCOL_VERSION
                &&& env.timestamp_ms == timestamp_ms
                &&& env.status == Status::Healthy
                &&& env.source == (if use_mock {
                    Source::Mock
                } else {
                    Source::Hardware
                })
                &&& env.cpu.vendor@ == topology.vendor@
                &&& env.cpu.family == topology.family
                &&& env.cpu.model == topology.model
                &&& env.cpu.cores == topology.core_first_logical@.len()
                &&& env.cpu.threads == topology.threads@.len()
                &&& env.sensors == out.0
                &&& env.derived == out.1
            },
            Err(e) => m matches WorkerMessage::Error(env) && {
                &&& env.protocol == PROTOCOL_VERSION
                &&& env.timestamp_ms == timestamp_ms
                &&& env.status == Status::Degraded
                &&& env.source == Source::NoSource
                &&& env.error.code == error_code_of(e)
                &&& env.error.message@ == error_name(e)
            },
        },
{
    match outcome {
        Ok((sensors, derived)) => {
            let cpu = CpuInfo {
                vendor: topology.vendor.clone(),
                family: topology.family,
                model: topology.model,
                cores: topology.core_first_logical.len(),
                threads: topology.threads.len(),
            };
            WorkerMessage::Sample(
                SampleEnvelope {
                    protocol: PROTOCOL_VERSION,
                    timestamp_ms,
                    status: Status::Healthy,
                    source: if use_mock {
                        Source::Mock
                    } else {
                        Source::Hardware
                    },
                    cpu,
                    sensors,
                    derived,
                },
            )
        },
        Err(e) => {
            let (code, message) = access_error_parts(&e);
            WorkerMessage::Error(
                ErrorEnvelope {
                    protocol: PROTOCOL_VERSION,
                    timestamp_ms,
                    status: Status::Degraded,
                    source: Source::NoSource,
                    error: ErrorDetail { code, message },
                },
            )
        },
    }
}

} // verus!
