use zenith::hardware_access::{AccessError, HardwareAccess};
use zenith::mock::{MockHardware, MSR_PACKAGE_THERM_STATUS, MSR_TEMPERATURE_TARGET, MSR_THERM_STATUS};
use zenith::protocol::ErrorCode;

#[test]
fn mock_reads_expected_msrs() {
    let mut m = MockHardware::new(100, vec![20, 20, 22, 25, 20, 20, 22, 25], 26);
    m.open().unwrap();
    assert_eq!(m.read_msr(MSR_TEMPERATURE_TARGET, 0).unwrap(), 100 << 16);
    assert_eq!(m.read_msr(MSR_THERM_STATUS, 3).unwrap(), 0x8000_0000 | (25 << 16));
    assert_eq!(m.read_msr(MSR_PACKAGE_THERM_STATUS, 0).unwrap(), 0x8000_0000 | (26 << 16));
}

#[test]
fn mock_rejects_unknown_msr() {
    let mut m = MockHardware::new(100, vec![20], 26);
    m.open().unwrap();
    assert_eq!(m.read_msr(0xDEAD, 0).unwrap_err(), AccessError::MsrFailed);
}

#[test]
fn mock_unavailable() {
    let mut m = MockHardware::new(100, vec![20], 26).unavailable();
    assert_eq!(m.open().unwrap_err(), AccessError::DriverUnavailable);
    assert!(!m.is_available());
}

#[test]
fn mock_therm_out_of_range_processor_fails() {
    let mut m = MockHardware::new(100, vec![20, 21], 26);
    assert_eq!(m.read_msr(MSR_THERM_STATUS, 2).unwrap_err(), AccessError::MsrFailed);
    assert_eq!(m.read_msr(MSR_THERM_STATUS, 1).unwrap(), 0x8000_0000 | (21 << 16));
}

#[test]
fn unavailable_mock_refuses_every_read() {
    let mut m = MockHardware::new(100, vec![20], 26).unavailable();
    assert_eq!(m.read_msr(MSR_TEMPERATURE_TARGET, 0).unwrap_err(), AccessError::DriverUnavailable);
    assert_eq!(m.read_msr(MSR_THERM_STATUS, 0).unwrap_err(), AccessError::DriverUnavailable);
}

#[test]
fn mock_name_open_close() {
    let mut m = MockHardware::new(90, vec![], 10);
    assert_eq!(m.name(), "mock");
    assert!(m.is_available());
    assert_eq!(m.open(), Ok(()));
    m.close();
    assert!(m.is_available());
}

#[test]
fn access_error_codes() {
    assert_eq!(AccessError::DriverUnavailable.code(), ErrorCode::DriverUnavailable);
    assert_eq!(AccessError::ModuleMissing.code(), ErrorCode::ModuleMissing);
    assert_eq!(AccessError::MsrFailed.code(), ErrorCode::MsrFailed);
    assert_eq!(AccessError::TopologyFailed.code(), ErrorCode::TopologyFailed);
    assert_eq!(AccessError::Internal.code(), ErrorCode::Internal);
}
