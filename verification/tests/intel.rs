use zenith::hardware_access::{AccessError, HardwareAccess, MsrDevice, Recorded};
use zenith::intel::{quality_for, IntelDecoder, FALLBACK_TJMAX};
use zenith::mock::MockHardware;
use zenith::protocol::{Quality, SensorKind, SensorSample};

/// Temperature in degrees Celsius of a reading held in thousandths.
fn celsius(mc: i64) -> f64 {
    mc as f64 / 1000.0
}

/// A Celsius reading as the library holds it: thousandths, `None` when not finite.
fn millis(c: f64) -> Option<i64> {
    if c.is_finite() {
        Some((c * 1000.0).round() as i64)
    } else {
        None
    }
}

fn value_c(s: &SensorSample) -> f64 {
    s.value_mc.map(celsius).unwrap_or(f64::NAN)
}

fn mock_8_threads() -> MockHardware {
    // 4 physical cores -> 8 logicals; SMT pairs share core deltas.
    MockHardware::new(100, vec![20, 20, 22, 22, 25, 25, 30, 30], 26)
}

#[test]
fn tjmax_from_msr() {
    let mut m = mock_8_threads();
    m.open().unwrap();
    assert_eq!(IntelDecoder::detect_tjmax(&mut m, &[0, 2, 4, 6]).unwrap(), 100);
}

#[test]
fn tjmax_fallback_when_no_readable() {
    let mut m = MockHardware::new(0, vec![0], 0).unavailable();
    assert_eq!(IntelDecoder::detect_tjmax(&mut m, &[0]).unwrap(), FALLBACK_TJMAX);
}

#[test]
fn decode_core_value() {
    // valid bit set, deltaT = 0x25 = 37
    let v = 0x8000_0000 | (37u64 << 16);
    assert_eq!(IntelDecoder::decode_core_value(100, v).map(celsius), Some(63.0));
    // validity bit clear -> None
    assert_eq!(IntelDecoder::decode_core_value(100, 37u64 << 16).map(celsius), None);
    // deltaT larger than tjmax -> negative (suspicious at quality layer)
    assert_eq!(
        IntelDecoder::decode_core_value(90, 0x8000_0000 | (100u64 << 16)).map(celsius),
        Some(-10.0)
    );
}

#[test]
fn sample_smoke() {
    let mut m = mock_8_threads();
    m.open().unwrap();
    let mut dec = IntelDecoder::new(&mut m, &[0, 2, 4, 6]).unwrap();
    let (sensors, derived) = dec.sample(&mut m, &[0, 2, 4, 6]).unwrap();

    assert_eq!(sensors.len(), 5); // package + 4 cores
    assert_eq!(sensors[0].kind, SensorKind::Package);
    assert_eq!(value_c(&sensors[0]), 74.0); // 100 - 26
    assert_eq!(value_c(&sensors[1]), 80.0); // 100 - 20
    assert_eq!(value_c(&sensors[4]), 70.0); // 100 - 30

    // hottest 80 (core0), coolest 70 (core3), delta 10
    assert_eq!(celsius(derived.hottest_core_mc), 80.0);
    assert_eq!(celsius(derived.coolest_core_mc), 70.0);
    assert_eq!(celsius(derived.core_delta_mc), 10.0);
}

#[test]
fn invalid_therm_bit_produces_invalid_quality() {
    assert_eq!(quality_for(millis(f64::NAN)), Quality::Invalid);
    assert_eq!(quality_for(millis(130.0)), Quality::Suspicious);
    assert_eq!(quality_for(millis(-5.0)), Quality::Suspicious);
    assert_eq!(quality_for(millis(47.25)), Quality::Valid);
}

#[test]
fn quality_bounds_are_inclusive() {
    assert_eq!(quality_for(Some(0)), Quality::Valid);
    assert_eq!(quality_for(Some(120_000)), Quality::Valid);
    assert_eq!(quality_for(Some(120_001)), Quality::Suspicious);
    assert_eq!(quality_for(Some(-1)), Quality::Suspicious);
}

#[test]
fn sample_names_and_orders_sensors() {
    let mut m = mock_8_threads();
    let mut dec = IntelDecoder { tj_max: 100 };
    let (sensors, _) = dec.sample(&mut m, &[0, 2]).unwrap();
    assert_eq!(sensors.len(), 3);
    assert_eq!(sensors[0].name, "CPU Package");
    assert_eq!(sensors[0].index, 0);
    assert_eq!(sensors[1].name, "Core #1");
    assert_eq!(sensors[1].index, 0);
    assert_eq!(sensors[2].name, "Core #2");
    assert_eq!(sensors[2].index, 1);
    assert_eq!(sensors[2].kind, SensorKind::Core);
    assert_eq!(sensors[2].quality, Quality::Valid);
}

#[test]
fn sample_read_failure_is_returned() {
    let mut m = MockHardware::new(100, vec![20], 26);
    let mut dec = IntelDecoder { tj_max: 100 };
    // processor 5 has no mock reading
    assert!(dec.sample(&mut m, &[0, 5]).is_err());
    let mut off = MockHardware::new(100, vec![20], 26).unavailable();
    assert!(dec.sample(&mut off, &[0]).is_err());
}

#[test]
fn decode_readings_marks_invalid_cores() {
    let dec = IntelDecoder { tj_max: 100 };
    let valid = 0x8000_0000u64 | (40u64 << 16);
    let (sensors, derived) = dec.decode_readings(&[valid, 40u64 << 16], 0);
    // invalid package: no package sensor
    assert_eq!(sensors.len(), 2);
    assert_eq!(sensors[0].value_mc, Some(60_000));
    assert_eq!(sensors[1].value_mc, None);
    assert_eq!(sensors[1].quality, Quality::Invalid);
    assert_eq!(derived.hottest_core_mc, 60_000);
    assert_eq!(derived.coolest_core_mc, 60_000);
    assert_eq!(derived.core_delta_mc, 0);
}

#[test]
fn decode_readings_without_valid_cores_is_zero() {
    let dec = IntelDecoder { tj_max: 100 };
    let (sensors, derived) = dec.decode_readings(&[], 0x8000_0000);
    assert_eq!(sensors.len(), 1);
    assert_eq!(sensors[0].value_mc, Some(100_000));
    assert_eq!(derived.hottest_core_mc, 0);
    assert_eq!(derived.coolest_core_mc, 0);
    assert_eq!(derived.core_delta_mc, 0);
}

#[test]
fn target_skips_zero_and_reads_bits_16_to_24() {
    assert_eq!(IntelDecoder::target_from_msr(0x0064_0000), 100);
    assert_eq!(IntelDecoder::target_from_msr(0xFF55_0000), 0x55);
    let mut zero = MockHardware::new(0, vec![0], 0);
    assert_eq!(IntelDecoder::detect_tjmax(&mut zero, &[0, 1]).unwrap(), FALLBACK_TJMAX);
    let mut none = MockHardware::new(95, vec![0], 0);
    assert_eq!(IntelDecoder::detect_tjmax(&mut none, &[]).unwrap(), FALLBACK_TJMAX);
    assert_eq!(IntelDecoder::new(&mut none, &[3]).unwrap().tj_max, 95);
}

#[test]
fn mock_round_trip_through_decoder() {
    let mut m = MockHardware::new(105, vec![127, 0], 5);
    let mut dec = IntelDecoder::new(&mut m, &[0]).unwrap();
    assert_eq!(dec.tj_max, 105);
    let (sensors, derived) = dec.sample(&mut m, &[0, 1]).unwrap();
    assert_eq!(sensors[0].value_mc, Some(100_000));
    assert_eq!(sensors[1].value_mc, Some(-22_000));
    assert_eq!(sensors[2].value_mc, Some(105_000));
    assert!(derived.core_delta_mc >= 0);
    assert_eq!(derived.core_delta_mc, 127_000);
}

#[test]
fn hotter_package_is_not_a_core() {
    let mut m = MockHardware::new(100, vec![20, 0, 30], 5);
    m.open().unwrap();
    let mut dec = IntelDecoder { tj_max: 100 };
    let (sensors, derived) = dec.sample(&mut m, &[0, 2]).unwrap();
    assert_eq!(sensors.len(), 3);
    assert_eq!(sensors[0].kind, SensorKind::Package);
    assert_eq!(sensors[0].name, "CPU Package");
    assert_eq!(sensors[0].value_mc, Some(95_000));
    assert_eq!(sensors[1].kind, SensorKind::Core);
    assert_eq!(sensors[1].index, 0);
    assert_eq!(sensors[1].name, "Core #1");
    assert_eq!(sensors[1].value_mc, Some(80_000));
    assert_eq!(sensors[2].index, 1);
    assert_eq!(sensors[2].name, "Core #2");
    assert_eq!(sensors[2].value_mc, Some(70_000));
    assert_eq!(sensors[2].quality, Quality::Valid);
    assert_eq!(derived.hottest_core_mc, 80_000);
    assert_eq!(derived.coolest_core_mc, 70_000);
    assert_eq!(derived.core_delta_mc, 10_000);
}

#[test]
fn first_read_error_ends_the_sample() {
    let mut m = MockHardware::new(100, vec![20, 22], 26);
    m.open().unwrap();
    let mut dec = IntelDecoder { tj_max: 100 };
    assert_eq!(dec.sample(&mut m, &[0, 5]).unwrap_err(), AccessError::MsrFailed);
    assert_eq!(dec.tj_max, 100);
    let mut off = MockHardware::new(100, vec![20], 26).unavailable();
    assert_eq!(dec.sample(&mut off, &[0]).unwrap_err(), AccessError::DriverUnavailable);
    assert_eq!(IntelDecoder::detect_tjmax(&mut off, &[0]), Ok(FALLBACK_TJMAX));
}

#[test]
fn new_takes_detected_target() {
    let mut m = MockHardware::new(0, vec![20], 10);
    m.open().unwrap();
    assert_eq!(IntelDecoder::new(&mut m, &[0]).unwrap().tj_max, 100);
    let mut hot = MockHardware::new(90, vec![20, 20], 10);
    assert_eq!(IntelDecoder::new(&mut hot, &[1, 0]).unwrap().tj_max, 90);
}

#[test]
fn core_labels_count_from_one() {
    let mut m = MockHardware::new(100, vec![1; 12], 1);
    let mut dec = IntelDecoder { tj_max: 100 };
    let cpus: Vec<usize> = (0..12).collect();
    let (sensors, _) = dec.sample(&mut m, &cpus).unwrap();
    assert_eq!(sensors[1].name, "Core #1");
    assert_eq!(sensors[10].name, "Core #10");
    assert_eq!(sensors[12].name, "Core #12");
}

#[test]
fn new_agrees_with_detection() {
    for (tj, cpus) in [(0u8, vec![0usize]), (95, vec![1, 0]), (100, vec![]), (42, vec![7])] {
        let m = MockHardware::new(tj, vec![20, 20], 10);
        let mut a = m.clone();
        let mut b = m.clone();
        let detected = IntelDecoder::detect_tjmax(&mut a, &cpus).unwrap();
        assert_eq!(IntelDecoder::new(&mut b, &cpus).unwrap().tj_max, detected);
    }
}

/// A device that answers target reads from a list, one per call.
struct ScriptedDevice {
    answers: Vec<Result<u64, AccessError>>,
    next: usize,
}

impl MsrDevice for ScriptedDevice {
    fn name(&self) -> &'static str {
        "scripted"
    }
    fn open(&mut self) -> Result<(), AccessError> {
        Ok(())
    }
    fn is_available(&self) -> bool {
        true
    }
    fn read_msr(&mut self, _msr: u64, _logical_cpu: usize) -> Result<u64, AccessError> {
        let a = self.answers.get(self.next).copied().unwrap_or(Err(AccessError::MsrFailed));
        self.next += 1;
        a
    }
    fn close(&mut self) {}
}

fn scripted(answers: Vec<Result<u64, AccessError>>) -> Recorded<ScriptedDevice> {
    Recorded::new(ScriptedDevice { answers, next: 0 })
}

#[test]
fn recorded_device_target_is_first_settling_answer() {
    let answers = vec![Err(AccessError::MsrFailed), Ok(0), Ok(0x0055_0000), Ok(0x0064_0000)];
    let mut a = scripted(answers.clone());
    assert_eq!(IntelDecoder::detect_tjmax(&mut a, &[0, 1, 2, 3]), Ok(0x55));
    let mut b = scripted(answers);
    assert_eq!(IntelDecoder::new(&mut b, &[0, 1, 2, 3]).unwrap().tj_max, 0x55);
    let mut c = scripted(vec![Err(AccessError::DriverUnavailable), Ok(0)]);
    assert_eq!(IntelDecoder::new(&mut c, &[0, 1]).unwrap().tj_max, FALLBACK_TJMAX);
}

#[test]
fn recorded_device_sample_stops_at_first_error() {
    let mut d = scripted(vec![Ok(0x8014_0000), Err(AccessError::MsrFailed), Ok(0x8014_0000)]);
    let mut dec = IntelDecoder { tj_max: 100 };
    assert_eq!(dec.sample(&mut d, &[0, 1]).unwrap_err(), AccessError::MsrFailed);
    let mut ok = scripted(vec![Ok(0x8014_0000), Ok(0x801E_0000), Ok(0x8005_0000)]);
    let (sensors, derived) = dec.sample(&mut ok, &[0, 1]).unwrap();
    assert_eq!(sensors[0].value_mc, Some(95_000));
    assert_eq!(derived.hottest_core_mc, 80_000);
    assert_eq!(derived.coolest_core_mc, 70_000);
}
