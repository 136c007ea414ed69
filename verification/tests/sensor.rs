use zenith::protocol::{
    CpuInfo, Derived, ErrorCode, ErrorDetail, ErrorEnvelope, Quality, SampleEnvelope, SensorKind,
    SensorSample, Source, Status, WorkerMessage,
};
use zenith::sensor::{
    acpi_label_role, role_of_lowered_label, acpi_temps, core_delta_mc, disk_totals, merge_temps, process_display_name,
    process_refresh_due, top_by_key, worker_sample_is_healthy, ComponentReading, LabelRole,
    TOP_PROCESS_COUNT,
};

/// A Celsius reading as the library holds it: thousandths, `None` when not finite.
fn millis(c: f64) -> Option<i64> {
    if c.is_finite() {
        Some((c * 1000.0).round() as i64)
    } else {
        None
    }
}

fn mc(c: f64) -> i64 {
    millis(c).unwrap()
}

fn celsius(mc: i64) -> f64 {
    mc as f64 / 1000.0
}

fn all_celsius(v: &[i64]) -> Vec<f64> {
    v.iter().map(|t| celsius(*t)).collect()
}

fn healthy_sample() -> WorkerMessage {
    WorkerMessage::Sample(SampleEnvelope {
        protocol: 1,
        timestamp_ms: 1,
        status: Status::Healthy,
        source: Source::Hardware,
        cpu: CpuInfo {
            vendor: "GenuineIntel".into(),
            family: 6,
            model: 158,
            cores: 4,
            threads: 8,
        },
        sensors: vec![
            SensorSample {
                kind: SensorKind::Package,
                index: 0,
                name: "CPU Package".into(),
                value_mc: millis(70.0),
                quality: Quality::Valid,
            },
            SensorSample {
                kind: SensorKind::Core,
                index: 0,
                name: "Core #0".into(),
                value_mc: millis(70.0),
                quality: Quality::Valid,
            },
            SensorSample {
                kind: SensorKind::Core,
                index: 1,
                name: "Core #1".into(),
                value_mc: millis(66.0),
                quality: Quality::Valid,
            },
        ],
        derived: Derived {
            hottest_core_mc: mc(70.0),
            coolest_core_mc: mc(66.0),
            core_delta_mc: mc(4.0),
        },
    })
}

fn unavailable_error() -> WorkerMessage {
    WorkerMessage::Error(ErrorEnvelope {
        protocol: 1,
        timestamp_ms: 1,
        status: Status::Unavailable,
        source: Source::NoSource,
        error: ErrorDetail {
            code: ErrorCode::DriverUnavailable,
            message: "device not reachable".into(),
        },
    })
}

#[test]
fn hardware_sample_merges_sensors() {
    let (source, status, pkg, cores, err) =
        merge_temps(&Some(healthy_sample()), (0, Vec::new()), None);
    assert_eq!(source, "hardware");
    assert_eq!(status, "healthy");
    assert_eq!(celsius(pkg), 70.0);
    assert_eq!(all_celsius(&cores), vec![70.0, 66.0]);
    assert!(err.is_none());
}

#[test]
fn mock_sample_is_labeled_mock() {
    let mut msg = healthy_sample();
    if let WorkerMessage::Sample(s) = &mut msg {
        s.source = Source::Mock;
    }
    let (source, status, pkg, _, _) = merge_temps(&Some(msg), (0, Vec::new()), None);
    assert_eq!(source, "mock");
    assert_eq!(status, "healthy");
    assert_eq!(celsius(pkg), 70.0);
}

#[test]
fn worker_error_falls_back_to_acpi_labeled() {
    let (source, status, pkg, cores, err) = merge_temps(
        &Some(unavailable_error()),
        (mc(48.5), vec![mc(47.0), mc(46.0)]),
        None,
    );
    assert_eq!(source, "acpi");
    assert_eq!(status, "degraded");
    assert_eq!(celsius(pkg), 48.5);
    assert_eq!(all_celsius(&cores), vec![47.0, 46.0]);
    assert!(err.is_none());
}

#[test]
fn non_finite_core_values_are_filtered() {
    let mut msg = healthy_sample();
    if let WorkerMessage::Sample(s) = &mut msg {
        s.sensors.push(SensorSample {
            kind: SensorKind::Core,
            index: 2,
            name: "Core #2".into(),
            value_mc: millis(f64::NAN),
            quality: Quality::Invalid,
        });
        s.sensors.push(SensorSample {
            kind: SensorKind::Package,
            index: 0,
            name: "CPU Package".into(),
            value_mc: millis(f64::NAN),
            quality: Quality::Invalid,
        });
    }
    let (_, _, pkg, cores, _) = merge_temps(&Some(msg), (0, Vec::new()), None);
    assert_eq!(celsius(pkg), 70.0, "package stays from the valid sensor");
    assert_eq!(all_celsius(&cores), vec![70.0, 66.0], "NaN core filtered out");
}

#[test]
fn no_worker_no_acpi_is_unavailable_with_error() {
    let (source, status, pkg, cores, err) = merge_temps(
        &Some(unavailable_error()),
        (0, Vec::new()),
        Some("spawn failed: file not found"),
    );
    assert_eq!(source, "none");
    assert_eq!(status, "unavailable");
    assert_eq!(celsius(pkg), 0.0);
    assert!(cores.is_empty());
    assert_eq!(err.as_deref(), Some("spawn failed: file not found"));
}

#[test]
fn no_worker_no_acpi_no_error_is_unavailable() {
    let (source, status, _, _, err) = merge_temps(&None, (0, Vec::new()), None);
    assert_eq!(source, "none");
    assert_eq!(status, "unavailable");
    assert!(err.is_none());
}

#[test]
fn healthy_sample_ignores_acpi_and_error() {
    let (source, status, pkg, cores, err) = merge_temps(
        &Some(healthy_sample()),
        (mc(48.5), vec![mc(47.0)]),
        Some("stale error"),
    );
    assert_eq!(source, "hardware");
    assert_eq!(status, "healthy");
    assert_eq!(pkg, 70_000);
    assert_eq!(cores, vec![70_000, 66_000]);
    assert!(err.is_none());
}

#[test]
fn degraded_sample_is_not_healthy() {
    let mut msg = healthy_sample();
    if let WorkerMessage::Sample(s) = &mut msg {
        s.status = Status::Degraded;
        s.source = Source::NoSource;
    }
    assert!(!worker_sample_is_healthy(&Some(msg.clone())));
    assert!(worker_sample_is_healthy(&Some(healthy_sample())));
    assert!(!worker_sample_is_healthy(&None));
    let (source, status, pkg, _, _) = merge_temps(&Some(msg), (0, Vec::new()), None);
    assert_eq!(source, "none");
    assert_eq!(status, "unavailable");
    assert_eq!(pkg, 0);
}

#[test]
fn healthy_sample_with_no_source_is_labeled_none() {
    let mut msg = healthy_sample();
    if let WorkerMessage::Sample(s) = &mut msg {
        s.source = Source::NoSource;
    }
    let (source, status, _, _, _) = merge_temps(&Some(msg), (0, Vec::new()), None);
    assert_eq!(source, "none");
    assert_eq!(status, "healthy");
}

#[test]
fn acpi_labels_are_classified_ignoring_case() {
    assert_eq!(acpi_label_role("Computer"), LabelRole::Package);
    assert_eq!(acpi_label_role("CPU Package id 0"), LabelRole::Package);
    assert_eq!(acpi_label_role("k10temp Tctl"), LabelRole::Package);
    assert_eq!(acpi_label_role("Core 0"), LabelRole::Core);
    assert_eq!(acpi_label_role("coretemp Core 3"), LabelRole::Core);
    assert_eq!(acpi_label_role("GPU Core"), LabelRole::Other);
    assert_eq!(acpi_label_role("nvme Composite"), LabelRole::Other);
    assert_eq!(acpi_label_role("computer 2"), LabelRole::Other);
}

#[test]
fn acpi_temps_pick_package_and_cores() {
    let readings = vec![
        ComponentReading { label: "Core 0".into(), temperature_mc: Some(47_000) },
        ComponentReading { label: "GPU Core".into(), temperature_mc: Some(60_000) },
        ComponentReading { label: "Core 1".into(), temperature_mc: Some(0) },
        ComponentReading { label: "Core 2".into(), temperature_mc: None },
        ComponentReading { label: "Computer".into(), temperature_mc: Some(48_500) },
        ComponentReading { label: "Core 3".into(), temperature_mc: Some(46_000) },
    ];
    let (pkg, cores) = acpi_temps(&readings);
    assert_eq!(pkg, 48_500);
    assert_eq!(cores, vec![47_000, 46_000]);
}

#[test]
fn acpi_without_package_uses_hottest_core() {
    let readings = vec![
        ComponentReading { label: "Core 0".into(), temperature_mc: Some(47_000) },
        ComponentReading { label: "Core 1".into(), temperature_mc: Some(52_250) },
        ComponentReading { label: "Core 2".into(), temperature_mc: Some(-3_000) },
    ];
    let (pkg, cores) = acpi_temps(&readings);
    assert_eq!(pkg, 52_250);
    assert_eq!(cores, vec![47_000, 52_250]);
    let (pkg, cores) = acpi_temps(&Vec::new());
    assert_eq!(pkg, 0);
    assert!(cores.is_empty());
}

#[test]
fn core_delta_over_cores() {
    assert_eq!(core_delta_mc(&[70_000, 66_000, 72_500]), 6_500);
    assert_eq!(core_delta_mc(&[70_000]), 0);
    assert_eq!(core_delta_mc(&[]), 0);
    assert_eq!(core_delta_mc(&[i64::MIN, i64::MAX]), u64::MAX);
}

#[test]
fn disk_totals_sum_and_saturate() {
    assert_eq!(disk_totals(&[(100, 40), (50, 10)]), (150, 100));
    assert_eq!(disk_totals(&[(10, 20)]), (10, 0));
    assert_eq!(disk_totals(&[]), (0, 0));
}

#[test]
fn processes_refresh_on_second_poll_then_every_fifth() {
    let mut count = 0u32;
    let mut due = Vec::new();
    for _ in 0..12 {
        let (next, refresh) = process_refresh_due(count);
        count = next;
        due.push(refresh);
    }
    assert_eq!(count, 12);
    let polls: Vec<u32> = due.iter().enumerate().filter(|(_, d)| **d).map(|(i, _)| i as u32 + 1).collect();
    assert_eq!(polls, vec![2, 7, 12]);
}

#[test]
fn top_keys_are_picked_largest_first() {
    let keys = [5, 90, 12, 90, 0, 33, 7];
    let picked = top_by_key(&keys, TOP_PROCESS_COUNT);
    assert_eq!(picked.len(), 5);
    let ranked: Vec<u32> = picked.iter().map(|i| keys[*i]).collect();
    assert_eq!(ranked, vec![90, 90, 33, 12, 7]);
    let mut seen = picked.clone();
    seen.sort();
    seen.dedup();
    assert_eq!(seen.len(), 5);
    assert_eq!(top_by_key(&[3, 1], 5), vec![0, 1]);
    assert!(top_by_key(&[], 5).is_empty());
    assert!(top_by_key(&[4, 2], 0).is_empty());
}

#[test]
fn empty_process_names_show_unknown() {
    assert_eq!(process_display_name(String::new()), "Unknown");
    assert_eq!(process_display_name("explorer.exe".to_string()), "explorer.exe");
}

#[test]
fn lowered_labels_classify_as_written() {
    assert_eq!(role_of_lowered_label("computer"), LabelRole::Package);
    assert_eq!(role_of_lowered_label("Computer"), LabelRole::Other);
    assert_eq!(role_of_lowered_label("cpu package"), LabelRole::Package);
    assert_eq!(role_of_lowered_label("k10temp tctl"), LabelRole::Package);
    assert_eq!(role_of_lowered_label("core 2"), LabelRole::Core);
    assert_eq!(role_of_lowered_label("gpu core"), LabelRole::Other);
    assert_eq!(role_of_lowered_label(""), LabelRole::Other);
}

#[test]
fn computer_label_ignores_case() {
    assert_eq!(acpi_label_role("COMPUTER"), LabelRole::Package);
    assert_eq!(acpi_label_role("computer"), LabelRole::Package);
    assert_eq!(acpi_label_role("Computers"), LabelRole::Other);
}
