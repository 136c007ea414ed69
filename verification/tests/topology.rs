use zenith::hardware_access::AccessError;
use zenith::topology::{
    cpu_signature, enumerate_threads, parse_processor_info, CoreType, CpuThread, CpuidRegisters,
    Topology,
};

const RELATION_CORE: u32 = 0;
const RELATION_PACKAGE: u32 = 3;
const RELATION_CACHE: u32 = 2;

/// `cpuid` registers recorded on an Intel Core i7-7700K (family 6, model 158).
fn recorded_intel() -> CpuidRegisters {
    CpuidRegisters {
        leaf0_ebx: 0x756E_6547,
        leaf0_edx: 0x4965_6E69,
        leaf0_ecx: 0x6C65_746E,
        leaf1_eax: 0x0009_06E9,
        leaf7_edx: 0,
    }
}

/// One processor record of `GetLogicalProcessorInformationEx`, 48 bytes.
fn processor_record(relationship: u32, efficiency: u8, group_count: u16, mask: u64, group: u16) -> Vec<u8> {
    let mut r = Vec::new();
    r.extend_from_slice(&relationship.to_le_bytes());
    r.extend_from_slice(&48u32.to_le_bytes());
    r.push(0); // flags
    r.push(efficiency);
    r.extend_from_slice(&[0u8; 20]);
    r.extend_from_slice(&group_count.to_le_bytes());
    r.extend_from_slice(&mask.to_le_bytes());
    r.extend_from_slice(&group.to_le_bytes());
    r.extend_from_slice(&[0u8; 6]);
    assert_eq!(r.len(), 48);
    r
}

/// A record of another relationship (a cache), which is skipped.
fn other_record() -> Vec<u8> {
    let mut r = Vec::new();
    r.extend_from_slice(&RELATION_CACHE.to_le_bytes());
    r.extend_from_slice(&16u32.to_le_bytes());
    r.extend_from_slice(&[0xAAu8; 8]);
    r
}

/// Four physical cores with two threads each, in one package.
fn four_cores_smt() -> Vec<u8> {
    let mut buf = Vec::new();
    for core in 0..4u64 {
        buf.extend(processor_record(RELATION_CORE, 0, 1, 0b11 << (2 * core), 0));
        buf.extend(other_record());
    }
    buf.extend(processor_record(RELATION_PACKAGE, 0, 1, 0xFF, 0));
    buf
}

#[test]
fn signature_is_wellformed() {
    let (vendor, family, model, _hybrid) = cpu_signature(&recorded_intel());
    assert!(!vendor.is_empty());
    assert!(family > 0);
    assert!(model > 0);
}

#[test]
fn signature_decodes_vendor_family_model() {
    let (vendor, family, model, hybrid) = cpu_signature(&recorded_intel());
    assert_eq!(vendor, "GenuineIntel");
    assert_eq!(family, 6);
    assert_eq!(model, 158);
    assert!(!hybrid);
    // AMD family 0x17 (base 0xF + extended 8), model 0x71: extended model applies
    // only to families 6 and 0xF, so family 0x17 keeps the base model.
    let amd = CpuidRegisters {
        leaf0_ebx: 0x6874_7541,
        leaf0_edx: 0x6974_6E65,
        leaf0_ecx: 0x444D_4163,
        leaf1_eax: 0x0087_0F10,
        leaf7_edx: 1 << 15,
    };
    let (vendor, family, model, hybrid) = cpu_signature(&amd);
    assert_eq!(vendor, "AuthenticAMD");
    assert_eq!(family, 0x17);
    assert_eq!(model, 0x1);
    assert!(hybrid);
}

#[test]
fn detect_returns_threads() {
    let info = parse_processor_info(&four_cores_smt()).unwrap();
    let topo = Topology::detect(&recorded_intel(), &info).unwrap();
    assert!(!topo.threads.is_empty());
    assert_eq!(topo.core_first_logical.len(), topo.threads.iter().map(|t| t.physical_core_id).max().unwrap() + 1);
    assert_eq!(topo.threads.len(), topo.threads.iter().map(|t| t.logical_id).max().unwrap() + 1);
    // SMT: two threads share a core
    let c0: Vec<&CpuThread> = topo.threads.iter().filter(|t| t.physical_core_id == 0).collect();
    assert!(!c0.is_empty());
}

#[test]
fn detect_assigns_cores_packages_and_firsts() {
    let info = parse_processor_info(&four_cores_smt()).unwrap();
    let topo = Topology::detect(&recorded_intel(), &info).unwrap();
    assert_eq!(topo.vendor, "GenuineIntel");
    assert_eq!(topo.family, 6);
    assert_eq!(topo.model, 158);
    assert_eq!(topo.package_count, 1);
    assert_eq!(topo.threads.len(), 8);
    assert_eq!(topo.core_first_logical, vec![0, 2, 4, 6]);
    for (i, t) in topo.threads.iter().enumerate() {
        assert_eq!(t.logical_id, i);
        assert_eq!(t.physical_core_id, i / 2);
        assert_eq!(t.package_id, 0);
        assert_eq!(t.core_type, CoreType::Unknown);
    }
}

#[test]
fn hybrid_part_types_cores_by_efficiency_class() {
    let mut buf = Vec::new();
    buf.extend(processor_record(RELATION_CORE, 1, 1, 0b11, 0));
    buf.extend(processor_record(RELATION_CORE, 0, 1, 0b100, 0));
    buf.extend(processor_record(RELATION_PACKAGE, 0, 1, 0b111, 0));
    let info = parse_processor_info(&buf).unwrap();
    let threads = enumerate_threads(&info, true);
    assert_eq!(threads.len(), 3);
    assert_eq!(threads[0].core_type, CoreType::Efficiency);
    assert_eq!(threads[1].core_type, CoreType::Efficiency);
    assert_eq!(threads[2].core_type, CoreType::Performance);
    let plain = enumerate_threads(&info, false);
    assert_eq!(plain[0].core_type, CoreType::Unknown);
}

#[test]
fn second_group_and_second_package_ids() {
    let mut buf = Vec::new();
    buf.extend(processor_record(RELATION_CORE, 0, 1, 0b1, 1));
    buf.extend(processor_record(RELATION_CORE, 0, 1, 0b1, 0));
    buf.extend(processor_record(RELATION_PACKAGE, 0, 1, 0b1, 0));
    buf.extend(processor_record(RELATION_PACKAGE, 0, 1, 0b1, 1));
    let info = parse_processor_info(&buf).unwrap();
    let topo = Topology::detect(&recorded_intel(), &info).unwrap();
    // ids run up to 64 (group 1, bit 0); unlisted ids fall back to core 0 / package 0
    assert_eq!(topo.threads.len(), 65);
    assert_eq!(topo.threads[64].physical_core_id, 0);
    assert_eq!(topo.threads[64].package_id, 1);
    assert_eq!(topo.threads[0].physical_core_id, 1);
    assert_eq!(topo.threads[0].package_id, 0);
    assert_eq!(topo.threads[5].physical_core_id, 0);
    assert_eq!(topo.package_count, 2);
    assert_eq!(topo.core_first_logical, vec![1, 0]);
}

#[test]
fn no_core_records_is_topology_failure() {
    let buf = processor_record(RELATION_PACKAGE, 0, 1, 0xF, 0);
    let info = parse_processor_info(&buf).unwrap();
    assert_eq!(Topology::detect(&recorded_intel(), &info).unwrap_err(), AccessError::TopologyFailed);
    let empty = parse_processor_info(&[]).unwrap();
    assert!(Topology::detect(&recorded_intel(), &empty).is_err());
}

#[test]
fn malformed_buffers_are_refused() {
    let mut cut = four_cores_smt();
    cut.truncate(40);
    assert!(parse_processor_info(&cut).is_none());
    let two_groups = processor_record(RELATION_CORE, 0, 2, 0b1, 0);
    assert!(parse_processor_info(&two_groups).is_none());
    assert!(parse_processor_info(&[0u8; 5]).is_none());
}

#[test]
fn zero_size_record_ends_the_walk() {
    let mut buf = processor_record(RELATION_CORE, 0, 1, 0b1, 0);
    buf[4] = 0; // size 0
    buf.extend(processor_record(RELATION_CORE, 0, 1, 0b10, 0));
    let info = parse_processor_info(&buf).unwrap();
    let threads = enumerate_threads(&info, false);
    assert_eq!(threads.len(), 1);
}
