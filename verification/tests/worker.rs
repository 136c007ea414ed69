use zenith::hardware_access::{AccessError, HardwareAccess};
use zenith::intel::IntelDecoder;
use zenith::mock::MSR_THERM_STATUS;
use zenith::protocol::{ErrorCode, ErrorDetail, Source, Status, WorkerMessage, PROTOCOL_VERSION};
use zenith::topology::{parse_processor_info, CpuidRegisters, Topology};
use zenith::worker::{
    access_error_parts, backend_open_failure, mock_backend, mock_deltas, sample_message,
    topology_failure, unavailable_message, WorkerOptions,
};

fn args(list: &[&str]) -> Vec<String> {
    list.iter().map(|s| s.to_string()).collect()
}

fn small_topology() -> Topology {
    let mut buf = Vec::new();
    for (rel, mask) in [(0u32, 0b11u64), (0, 0b1100), (3, 0b1111)] {
        buf.extend_from_slice(&rel.to_le_bytes());
        buf.extend_from_slice(&48u32.to_le_bytes());
        buf.extend_from_slice(&[0u8; 22]);
        buf.extend_from_slice(&1u16.to_le_bytes());
        buf.extend_from_slice(&mask.to_le_bytes());
        buf.extend_from_slice(&[0u8; 8]);
    }
    let regs = CpuidRegisters {
        leaf0_ebx: 0x756E_6547,
        leaf0_edx: 0x4965_6E69,
        leaf0_ecx: 0x6C65_746E,
        leaf1_eax: 0x0009_06E9,
        leaf7_edx: 0,
    };
    Topology::detect(&regs, &parse_processor_info(&buf).unwrap()).unwrap()
}

#[test]
fn options_from_arguments() {
    let o = WorkerOptions::from_args(&args(&["--mock", "--debug"]));
    assert!(o.use_mock && o.debug && !o.mock_unavailable);
    let o = WorkerOptions::from_args(&args(&["--unavailable", "--mocked"]));
    assert!(!o.use_mock && o.mock_unavailable && !o.debug);
    let o = WorkerOptions::from_args(&Vec::new());
    assert!(!o.use_mock && !o.mock_unavailable && !o.debug);
}

#[test]
fn mock_deltas_cycle_from_thirty() {
    assert_eq!(mock_deltas(7), vec![30, 31, 32, 33, 34, 30, 31]);
    assert!(mock_deltas(0).is_empty());
}

#[test]
fn mock_backend_reads_deltas() {
    let mut m = mock_backend(3, false);
    assert!(m.open().is_ok());
    assert_eq!(m.read_msr(MSR_THERM_STATUS, 2).unwrap(), 0x8000_0000 | (32 << 16));
    let mut off = mock_backend(3, true);
    assert_eq!(off.open().unwrap_err(), AccessError::DriverUnavailable);
}

#[test]
fn error_parts_and_details() {
    let (code, msg) = access_error_parts(&AccessError::MsrFailed);
    assert_eq!(code, ErrorCode::MsrFailed);
    assert_eq!(msg, "MsrFailed");
    let d = topology_failure(&AccessError::TopologyFailed);
    assert_eq!(d.code, ErrorCode::TopologyFailed);
    assert_eq!(d.message, "topology detection failed: TopologyFailed");
    let d = backend_open_failure("mock", &AccessError::DriverUnavailable);
    assert_eq!(d.code, ErrorCode::DriverUnavailable);
    assert_eq!(d.message, "mock: DriverUnavailable");
}

#[test]
fn unavailable_message_envelope() {
    let detail = ErrorDetail { code: ErrorCode::ModuleMissing, message: "pawnio: ModuleMissing".into() };
    match unavailable_message(detail.clone(), 42) {
        WorkerMessage::Error(e) => {
            assert_eq!(e.protocol, PROTOCOL_VERSION);
            assert_eq!(e.timestamp_ms, 42);
            assert_eq!(e.status, Status::Unavailable);
            assert_eq!(e.source, Source::NoSource);
            assert_eq!(e.error, detail);
        }
        WorkerMessage::Sample(_) => panic!("expected error envelope"),
    }
}

#[test]
fn sample_message_from_mock_round() {
    let topo = small_topology();
    let mut m = mock_backend(topo.threads.len(), false);
    let mut dec = IntelDecoder::new(&mut m, &topo.core_first_logical).unwrap();
    let outcome = dec.sample(&mut m, &topo.core_first_logical);
    match sample_message(outcome, true, &topo, 7) {
        WorkerMessage::Sample(s) => {
            assert_eq!(s.protocol, 1);
            assert_eq!(s.status, Status::Healthy);
            assert_eq!(s.source, Source::Mock);
            assert_eq!(s.cpu.vendor, "GenuineIntel");
            assert_eq!(s.cpu.cores, 2);
            assert_eq!(s.cpu.threads, 4);
            assert!(s.cpu.threads >= s.cpu.cores);
            assert_eq!(s.sensors.len(), 3);
            assert!(s.derived.core_delta_mc >= 0);
        }
        WorkerMessage::Error(_) => panic!("expected sample"),
    }
    match sample_message(Err(AccessError::MsrFailed), false, &topo, 8) {
        WorkerMessage::Error(e) => {
            assert_eq!(e.status, Status::Degraded);
            assert_eq!(e.source, Source::NoSource);
            assert_eq!(e.error.code, ErrorCode::MsrFailed);
            assert_eq!(e.error.message, "MsrFailed");
        }
        WorkerMessage::Sample(_) => panic!("expected error"),
    }
}
