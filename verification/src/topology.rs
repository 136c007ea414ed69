use crate::hardware_access::AccessError;
use vstd::prelude::*;

verus! {

/// `LOGICAL_PROCESSOR_RELATIONSHIP` value of a processor-core record.
pub const RELATION_PROCESSOR_CORE: u32 = 0;

/// `LOGICAL_PROCESSOR_RELATIONSHIP` value of a processor-package record.
pub const RELATION_PROCESSOR_PACKAGE: u32 = 3;

/// Byte offset of `EfficiencyClass` inside a processor record.
pub const EFFICIENCY_CLASS_OFFSET: usize = 9;

/// Byte offset of `GroupCount` inside a processor record.
pub const GROUP_COUNT_OFFSET: usize = 30;

/// Byte offset of the first `GROUP_AFFINITY` inside a processor record.
pub const GROUP_MASK_OFFSET: usize = 32;

/// Bytes of a processor record that must be present to read its first group
/// mask: the 8-byte `Mask` and the 2-byte `Group` that follows it.
pub const FIRST_GROUP_END: usize = 42;

#[derive(Debug, Clone, Copy, PartialEq, Eq, Structural)]
pub enum CoreType {
    Performance,
    Efficiency,
    Unknown,
}

#[derive(Debug, Clone, PartialEq, Eq, Structural)]
pub struct CpuThread {
    pub logical_id: usize,
    pub physical_core_id: usize,
    pub package_id: usize,
    pub core_type: CoreType,
}

/// The raw `cpuid` registers that the CPU signature is decoded from.
#[derive(Debug, Clone, Copy, PartialEq, Eq, Structural)]
pub struct CpuidRegisters {
    /// `ebx` of leaf 0 (first four vendor bytes).
    pub leaf0_ebx: u32,
    /// `edx` of leaf 0 (middle four vendor bytes).
    pub leaf0_edx: u32,
    /// `ecx` of leaf 0 (last four vendor bytes).
    pub leaf0_ecx: u32,
    /// `eax` of leaf 1 (family, model, stepping).
    pub leaf1_eax: u32,
    /// `edx` of leaf 7 (bit 15: hybrid part).
    pub leaf7_edx: u32,
}

// ───────────────────────── CPU signature ─────────────────────────

/// Byte `k` (0 = least significant) of a register.
pub open spec fn reg_byte(reg: u32, k: u32) -> u8 {
    ((reg >> (8 * k)) & 0xFFu32) as u8
}

/// The four bytes of a register in little-endian order, as characters.
pub open spec fn reg_chars(reg: u32) -> Seq<char> {
    seq![
        reg_byte(reg, 0) as char,
        reg_byte(reg, 1) as char,
        reg_byte(reg, 2) as char,
        reg_byte(reg, 3) as char,
    ]
}

/// The 12-character vendor string: `ebx`, `edx`, `ecx` of leaf 0.
pub open spec fn vendor_chars(regs: CpuidRegisters) -> Seq<char> {
    reg_chars(regs.leaf0_ebx) + reg_chars(regs.leaf0_edx) + reg_chars(regs.leaf0_ecx)
}

pub open spec fn base_family(eax: u32) -> u32 {
    (eax >> 8u32) & 0xFu32
}

pub open spec fn base_model(eax: u32) -> u32 {
    (eax >> 4u32) & 0xFu32
}

/// The family number: the base family, plus the extended family when the
/// base family is 0xF.
pub open spec fn cpu_family(eax: u32) -> u32 {
    if base_family(eax) == 0xF {
        (0xF + ((eax >> 20u32) & 0xFFu32)) as u32
    } else {
        base_family(eax)
    }
}

/// The model number: the base model, plus the extended model shifted left
/// by four when the family is 0x6 or 0xF.
pub open spec fn cpu_model(eax: u32) -> u32 {
    if cpu_family(eax) == 0x6 || cpu_family(eax) == 0xF {
        (base_model(eax) + (((eax >> 16u32) & 0xFu32) << 4u32)) as u32
    } else {
        base_model(eax)
    }
}

/// Bit 15 of `edx` of leaf 7 marks a hybrid (performance + efficiency) part.
pub open spec fn is_hybrid(edx: u32) -> bool {
    edx & (1u32 << 15u32) != 0
}

/// Law: the family and model in plain arithmetic on leaf-1 `eax`: the base
/// family is digit 2 and the base model digit 1 in base 16; a base family of
/// 15 adds the extended family (bits 20..28), and a family of 6 or 15 puts
/// the extended model (bits 16..20) in front of the base model.
pub proof fn lemma_family_model_arithmetic(eax: u32)
    ensures
        cpu_family(eax) == (if (eax / 0x100) % 0x10 == 0xF {
            0xF + (eax / 0x10_0000) % 0x100
        } else {
            ((eax / 0x100) % 0x10) as int
        }),
        cpu_model(eax) == (if cpu_family(eax) == 6 || cpu_family(eax) == 0xF {
            (eax / 0x10) % 0x10 + 0x10 * ((eax / 0x1_0000) % 0x10)
        } else {
            ((eax / 0x10) % 0x10) as int
        }),
{
    assert((eax >> 8u32) & 0xFu32 == (eax / 0x100u32) % 0x10u32) by (bit_vector);
    assert((eax >> 4u32) & 0xFu32 == (eax / 0x10u32) % 0x10u32) by (bit_vector);
    assert((eax >> 20u32) & 0xFFu32 == (eax / 0x10_0000u32) % 0x100u32) by (bit_vector);
    assert(((eax >> 16u32) & 0xFu32) << 4u32 == 0x10u32 * ((eax / 0x1_0000u32) % 0x10u32))
        by (bit_vector);
}

/// Law: the vendor string is the twelve bytes of leaf-0 `ebx`, `edx`, `ecx`,
/// each register least significant byte first.
pub proof fn lemma_vendor_bytes(regs: CpuidRegisters, k: int)
    requires
        0 <= k < 4,
    ensures
        vendor_chars(regs).len() == 12,
        vendor_chars(regs)[k] == (((regs.leaf0_ebx as int) / pow256(k)) % 256) as u8 as char,
        vendor_chars(regs)[4 + k] == (((regs.leaf0_edx as int) / pow256(k)) % 256) as u8 as char,
        vendor_chars(regs)[8 + k] == (((regs.leaf0_ecx as int) / pow256(k)) % 256) as u8 as char,
{
    lemma_reg_byte_arithmetic(regs.leaf0_ebx, k);
    lemma_reg_byte_arithmetic(regs.leaf0_edx, k);
    lemma_reg_byte_arithmetic(regs.leaf0_ecx, k);
}

/// 256 to the power `k`, for `k` below 4.
pub open spec fn pow256(k: int) -> int {
    if k == 0 {
        1
    } else if k == 1 {
        0x100
    } else if k == 2 {
        0x1_0000
    } else {
        0x100_0000
    }
}

proof fn lemma_reg_byte_arithmetic(reg: u32, k: int)
    requires
        0 <= k < 4,
    ensures
        reg_chars(reg)[k] == (((reg as int) / pow256(k)) % 256) as u8 as char,
{
    assert((reg >> 0u32) & 0xFFu32 == reg % 0x100u32) by (bit_vector);
    assert((reg >> 8u32) & 0xFFu32 == (reg / 0x100u32) % 0x100u32) by (bit_vector);
    assert((reg >> 16u32) & 0xFFu32 == (reg / 0x1_0000u32) % 0x100u32) by (bit_vector);
    assert((reg >> 24u32) & 0xFFu32 == (reg / 0x100_0000u32) % 0x100u32) by (bit_vector);
}

/// Law: the hybrid flag is bit 15 of leaf-7 `edx` and nothing else: it is
/// set exactly when `edx` divided by 2^15 is odd, and setting or clearing
/// any other bits leaves it as it was.
pub proof fn lemma_hybrid_is_bit_15(edx: u32, other: u32)
    requires
        other & 0x8000u32 == 0,
    ensures
        is_hybrid(edx) == ((edx / 0x8000u32) % 2 == 1),
        is_hybrid(edx | other) == is_hybrid(edx),
        is_hybrid(edx & !other) == is_hybrid(edx),
        is_hybrid(edx ^ other) == is_hybrid(edx),
{
    assert((edx & (1u32 << 15u32) != 0) == ((edx / 0x8000u32) % 2 == 1)) by (bit_vector);
    assert(other & 0x8000u32 == 0 ==> ((edx | other) & (1u32 << 15u32) != 0) == (edx & (1u32
        << 15u32) != 0)) by (bit_vector);
    assert(other & 0x8000u32 == 0 ==> ((edx & !other) & (1u32 << 15u32) != 0) == (edx & (1u32
        << 15u32) != 0)) by (bit_vector);
    assert(other & 0x8000u32 == 0 ==> ((edx ^ other) & (1u32 << 15u32) != 0) == (edx & (1u32
        << 15u32) != 0)) by (bit_vector);
}

/// Wraps `String::push`: appends one character.
#[verifier::external_body]
pub(crate) fn push_char(s: &mut String, c: char)
    ensures
        final(s)@ == old(s)@.push(c),
{
    s.push(c)
}

fn push_register_chars(s: &mut String, reg: u32)
    ensures
        final(s)@ == old(s)@ + reg_chars(reg),
{
    let ghost start = s@;
    let mut k: u32 = 0;
    while k < 4
        invariant
            k <= 4,
            s@ == start + reg_chars(reg).take(k as int),
        decreases 4 - k,
    {
        let byte: u8 = ((reg >> (8 * k)) & 0xFF) as u8;
        push_char(s, byte as char);
        assert(reg_chars(reg).take(k + 1) =~= reg_chars(reg).take(k as int).push(byte as char));
        k = k + 1;
    }
    assert(reg_chars(reg).take(4) =~= reg_chars(reg));
}

/// Decodes the vendor string, family, model and hybrid flag from the raw
/// `cpuid` registers.
pub fn cpu_signature(regs: &CpuidRegisters) -> (sig: (String, u32, u32, bool))
    ensures
        sig.0@ == vendor_chars(*regs),
        sig.1 == cpu_family(regs.leaf1_eax),
        sig.2 == cpu_model(regs.leaf1_eax),
        sig.3 == is_hybrid(regs.leaf7_edx),
{
    let mut vendor = String::new();
    push_register_chars(&mut vendor, regs.leaf0_ebx);
    push_register_chars(&mut vendor, regs.leaf0_edx);
    push_register_chars(&mut vendor, regs.leaf0_ecx);

    let eax = regs.leaf1_eax;
    let mut family: u32 = (eax >> 8) & 0xF;
    let mut model: u32 = (eax >> 4) & 0xF;
    if family == 0xF {
        assert((eax >> 20u32) & 0xFFu32 <= 0xFF) by (bit_vector);
        family = family + ((eax >> 20) & 0xFF);
    }
    if family == 0x6 || family == 0xF {
        assert((eax >> 4u32) & 0xFu32 <= 0xF) by (bit_vector);
        assert(((eax >> 16u32) & 0xFu32) << 4u32 <= 0xF0) by (bit_vector);
        model = model + (((eax >> 16) & 0xF) << 4);
    }
    let hybrid = regs.leaf7_edx & (1u32 << 15) != 0;
    (vendor, family, model, hybrid)
}

// ─────────────────── processor information records ───────────────────

/// Exclusive bound of every logical processor id a group mask can name:
/// 65536 groups of 64 processors.
pub const LOGICAL_ID_LIMIT: usize = 4_194_304;

/// Little-endian `u16` at byte `i`.
pub open spec fn le_u16(b: Seq<u8>, i: int) -> u16 {
    (b[i] as u16) | ((b[i + 1] as u16) << 8u16)
}

/// Little-endian `u32` at byte `i`.
pub open spec fn le_u32(b: Seq<u8>, i: int) -> u32 {
    (b[i] as u32) | ((b[i + 1] as u32) << 8u32) | ((b[i + 2] as u32) << 16u32) | ((b[i + 3] as u32)
        << 24u32)
}

/// Little-endian `u64` at byte `i`.
pub open spec fn le_u64(b: Seq<u8>, i: int) -> u64 {
    (b[i] as u64) | ((b[i + 1] as u64) << 8u64) | ((b[i + 2] as u64) << 16u64) | ((b[i + 3] as u64)
        << 24u64) | ((b[i + 4] as u64) << 32u64) | ((b[i + 5] as u64) << 40u64) | ((b[i + 6] as u64)
        << 48u64) | ((b[i + 7] as u64) << 56u64)
}

fn read_u16(buf: &[u8], i: usize) -> (v: u16)
    requires
        i + 2 <= buf@.len(),
    ensures
        v == le_u16(buf@, i as int),
{
    (buf[i] as u16) | ((buf[i + 1] as u16) << 8)
}

fn read_u32(buf: &[u8], i: usize) -> (v: u32)
    requires
        i + 4 <= buf@.len(),
    ensures
        v == le_u32(buf@, i as int),
{
    (buf[i] as u32) | ((buf[i + 1] as u32) << 8) | ((buf[i + 2] as u32) << 16) | ((buf[i + 3] as u32)
        << 24)
}

pub(crate) fn read_u64(buf: &[u8], i: usize) -> (v: u64)
    requires
        i + 8 <= buf@.len(),
    ensures
        v == le_u64(buf@, i as int),
{
    (buf[i] as u64) | ((buf[i + 1] as u64) << 8) | ((buf[i + 2] as u64) << 16) | ((buf[i + 3] as u64)
        << 24) | ((buf[i + 4] as u64) << 32) | ((buf[i + 5] as u64) << 40) | ((buf[i + 6] as u64)
        << 48) | ((buf[i + 7] as u64) << 56)
}

/// Ids of the processors that a group affinity mask selects, from bit `bit`
/// upwards, in increasing order: processor `group * 64 + k` for each set bit `k`.
pub open spec fn mask_ids_from(mask: u64, group: u16, bit: nat) -> Seq<usize>
    decreases 64 - bit,
{
    if bit >= 64 {
        Seq::empty()
    } else {
        let rest = mask_ids_from(mask, group, bit + 1);
        if mask & (1u64 << (bit as u64)) != 0 {
            seq![(group as nat * 64 + bit) as usize] + rest
        } else {
            rest
        }
    }
}

proof fn lemma_mask_ids_bounded(mask: u64, group: u16, bit: nat)
    ensures
        forall|k: int|
            0 <= k < mask_ids_from(mask, group, bit).len() ==> #[trigger] mask_ids_from(
                mask,
                group,
                bit,
            )[k] < LOGICAL_ID_LIMIT,
    decreases 64 - bit,
{
    if bit < 64 {
        lemma_mask_ids_bounded(mask, group, bit + 1);
        let rest = mask_ids_from(mask, group, bit + 1);
        let id = group as nat * 64 + bit;
        assert(id < LOGICAL_ID_LIMIT);
        if mask & (1u64 << (bit as u64)) != 0 {
            let all = seq![id as usize] + rest;
            assert forall|k: int| 0 <= k < all.len() implies #[trigger] all[k] < LOGICAL_ID_LIMIT by {
                if k > 0 {
                    assert(all[k] == rest[k - 1]);
                }
            }
        }
    }
}

fn mask_logical_ids(mask: u64, group: u16) -> (ids: Vec<usize>)
    ensures
        ids@ == mask_ids_from(mask, group, 0),
{
    let mut ids: Vec<usize> = Vec::new();
    let mut bit: u64 = 0;
    while bit < 64
        invariant
            bit <= 64,
            ids@ + mask_ids_from(mask, group, bit as nat) == mask_ids_from(mask, group, 0),
        decreases 64 - bit,
    {
        let ghost before = ids@;
        if mask & (1u64 << bit) != 0 {
            ids.push(group as usize * 64 + bit as usize);
            assert(before + mask_ids_from(mask, group, bit as nat) =~= ids@ + mask_ids_from(
                mask,
                group,
                (bit + 1) as nat,
            ));
        }
        bit = bit + 1;
    }
    ids
}

/// A processor group as a processor record lists it: its efficiency class
/// and the ids of its logical processors.
pub struct GroupModel {
    pub efficiency_class: u8,
    pub logical_ids: Seq<usize>,
}

/// The core and package groups of a processor information buffer, in the
/// order of their records.
pub struct ProcessorInfoModel {
    pub packages: Seq<GroupModel>,
    pub cores: Seq<GroupModel>,
}

pub enum RecordModel {
    Package(GroupModel),
    Core(GroupModel),
    Other,
}

pub open spec fn empty_info() -> ProcessorInfoModel {
    ProcessorInfoModel { packages: Seq::empty(), cores: Seq::empty() }
}

/// The group of the processor record at `off`; `None` when the record is cut
/// short or names more than the one group mask its layout holds.
pub open spec fn group_at(b: Seq<u8>, off: int) -> Option<GroupModel> {
    if off + GROUP_MASK_OFFSET > b.len() {
        None
    } else {
        let count = le_u16(b, off + GROUP_COUNT_OFFSET);
        let class = b[off + EFFICIENCY_CLASS_OFFSET];
        if count == 0 {
            Some(GroupModel { efficiency_class: class, logical_ids: Seq::empty() })
        } else if count > 1 || off + FIRST_GROUP_END > b.len() {
            None
        } else {
            Some(
                GroupModel {
                    efficiency_class: class,
                    logical_ids: mask_ids_from(
                        le_u64(b, off + GROUP_MASK_OFFSET),
                        le_u16(b, off + GROUP_MASK_OFFSET + 8),
                        0,
                    ),
                },
            )
        }
    }
}

/// The record whose header starts at `off`.
pub open spec fn record_at(b: Seq<u8>, off: int) -> Option<RecordModel> {
    let rel = le_u32(b, off);
    if rel == RELATION_PROCESSOR_CORE {
        match group_at(b, off) {
            Some(g) => Some(RecordModel::Core(g)),
            None => None,
        }
    } else if rel == RELATION_PROCESSOR_PACKAGE {
        match group_at(b, off) {
            Some(g) => Some(RecordModel::Package(g)),
            None => None,
        }
    } else {
        Some(RecordModel::Other)
    }
}

pub open spec fn prepend_record(r: RecordModel, info: ProcessorInfoModel) -> ProcessorInfoModel {
    match r {
        RecordModel::Package(g) => ProcessorInfoModel { packages: seq![g] + info.packages, ..info },
        RecordModel::Core(g) => ProcessorInfoModel { cores: seq![g] + info.cores, ..info },
        RecordModel::Other => info,
    }
}

pub open spec fn concat_info(a: ProcessorInfoModel, b: ProcessorInfoModel) -> ProcessorInfoModel {
    ProcessorInfoModel { packages: a.packages + b.packages, cores: a.cores + b.cores }
}

/// Records from byte `off` on. Each record starts with its relationship and
/// its size; a size of zero, or one that reaches the end of the buffer, ends
/// the walk. `None` when a record is cut short or unsupported.
pub open spec fn parse_from(b: Seq<u8>, off: nat) -> Option<ProcessorInfoModel>
    decreases b.len() - off,
{
    if off >= b.len() {
        Some(empty_info())
    } else if off + 8 > b.len() {
        None
    } else {
        let size = le_u32(b, off + 4int);
        let rest = if size == 0 || off + size >= b.len() {
            Some(empty_info())
        } else {
            parse_from(b, (off + size) as nat)
        };
        match (record_at(b, off as int), rest) {
            (Some(r), Some(i)) => Some(prepend_record(r, i)),
            _ => None,
        }
    }
}

/// The processor information of a whole buffer.
pub open spec fn parse_info(b: Seq<u8>) -> Option<ProcessorInfoModel> {
    parse_from(b, 0)
}

pub open spec fn ids_bounded(gs: Seq<GroupModel>) -> bool {
    forall|i: int, k: int|
        0 <= i < gs.len() && 0 <= k < gs[i].logical_ids.len() ==> #[trigger] gs[i].logical_ids[k]
            < LOGICAL_ID_LIMIT
}

/// One processor group: its efficiency class and its logical processors.
#[derive(Debug, Clone)]
pub struct ProcessorGroup {
    efficiency_class: u8,
    logical_ids: Vec<usize>,
}

impl View for ProcessorGroup {
    type V = GroupModel;

    closed spec fn view(&self) -> GroupModel {
        GroupModel { efficiency_class: self.efficiency_class, logical_ids: self.logical_ids@ }
    }
}

/// The processor-core and processor-package groups that the system reports,
/// as read from a `SYSTEM_LOGICAL_PROCESSOR_INFORMATION_EX` buffer.
#[derive(Debug)]
pub struct ProcessorInfo {
    packages: Vec<ProcessorGroup>,
    cores: Vec<ProcessorGroup>,
}

pub open spec fn groups_view(v: Seq<ProcessorGroup>) -> Seq<GroupModel> {
    v.map_values(|g: ProcessorGroup| g@)
}

impl View for ProcessorInfo {
    type V = ProcessorInfoModel;

    closed spec fn view(&self) -> ProcessorInfoModel {
        ProcessorInfoModel { packages: groups_view(self.packages@), cores: groups_view(self.cores@) }
    }
}

impl ProcessorInfo {
    /// Every processor id stays below `LOGICAL_ID_LIMIT`.
    #[verifier::type_invariant]
    spec fn ids_fit(self) -> bool {
        &&& ids_bounded(groups_view(self.packages@))
        &&& ids_bounded(groups_view(self.cores@))
    }
}

pub open spec fn join_info(acc: ProcessorInfoModel, rest: Option<ProcessorInfoModel>) -> Option<
    ProcessorInfoModel,
> {
    match rest {
        Some(r) => Some(concat_info(acc, r)),
        None => None,
    }
}

pub open spec fn append_record(acc: ProcessorInfoModel, r: RecordModel) -> ProcessorInfoModel {
    match r {
        RecordModel::Package(g) => ProcessorInfoModel { packages: acc.packages.push(g), ..acc },
        RecordModel::Core(g) => ProcessorInfoModel { cores: acc.cores.push(g), ..acc },
        RecordModel::Other => acc,
    }
}

proof fn lemma_join_step(acc: ProcessorInfoModel, r: RecordModel, rest: Option<ProcessorInfoModel>)
    ensures
        join_info(
            acc,
            match rest {
                Some(i) => Some(prepend_record(r, i)),
                None => None,
            },
        ) == join_info(append_record(acc, r), rest),
{
    match rest {
        Some(i) => {
            match r {
                RecordModel::Package(g) => {
                    assert(acc.packages + (seq![g] + i.packages) =~= acc.packages.push(g)
                        + i.packages);
                },
                RecordModel::Core(g) => {
                    assert(acc.cores + (seq![g] + i.cores) =~= acc.cores.push(g) + i.cores);
                },
                RecordModel::Other => {},
            }
        },
        None => {},
    }
}

proof fn lemma_bounded_push(gs: Seq<GroupModel>, g: GroupModel)
    requires
        ids_bounded(gs),
        forall|k: int| 0 <= k < g.logical_ids.len() ==> #[trigger] g.logical_ids[k] < LOGICAL_ID_LIMIT,
    ensures
        ids_bounded(gs.push(g)),
{
    let all = gs.push(g);
    assert forall|i: int, k: int|
        0 <= i < all.len() && 0 <= k < all[i].logical_ids.len() implies #[trigger] all[i].logical_ids[k]
        < LOGICAL_ID_LIMIT by {
        if i < gs.len() {
            assert(all[i] == gs[i]);
        }
    }
}

proof fn lemma_groups_view_push(v: Seq<ProcessorGroup>, g: ProcessorGroup)
    ensures
        groups_view(v.push(g)) == groups_view(v).push(g@),
{
    assert(groups_view(v.push(g)) =~= groups_view(v).push(g@));
}

fn read_group(buf: &[u8], off: usize) -> (g: Option<ProcessorGroup>)
    requires
        off < buf@.len(),
    ensures
        match g {
            Some(x) => group_at(buf@, off as int) == Some(x@),
            None => group_at(buf@, off as int) is None,
        },
        g matches Some(x) ==> forall|k: int|
            0 <= k < x@.logical_ids.len() ==> #[trigger] x@.logical_ids[k] < LOGICAL_ID_LIMIT,
{
    if buf.len() - off < GROUP_MASK_OFFSET {
        return None;
    }
    let count = read_u16(buf, off + GROUP_COUNT_OFFSET);
    let class = buf[off + EFFICIENCY_CLASS_OFFSET];
    if count == 0 {
        return Some(ProcessorGroup { efficiency_class: class, logical_ids: Vec::new() });
    }
    if count > 1 || buf.len() - off < FIRST_GROUP_END {
        return None;
    }
    let mask = read_u64(buf, off + GROUP_MASK_OFFSET);
    let group = read_u16(buf, off + GROUP_MASK_OFFSET + 8);
    let ids = mask_logical_ids(mask, group);
    proof {
        lemma_mask_ids_bounded(mask, group, 0);
    }
    Some(ProcessorGroup { efficiency_class: class, logical_ids: ids })
}

/// Reads the processor-core and processor-package records of a buffer that
/// `GetLogicalProcessorInformationEx` filled. `None` when a record is cut
/// short or names more than one group mask.
pub fn parse_processor_info(buf: &[u8]) -> (r: Option<ProcessorInfo>)
    ensures
        match r {
            Some(info) => parse_info(buf@) == Some(info@),
            None => parse_info(buf@) is None,
        },
        r matches Some(info) ==> info_valid(info@),
{
    let mut packages: Vec<ProcessorGroup> = Vec::new();
    let mut cores: Vec<ProcessorGroup> = Vec::new();
    proof {
        assert(groups_view(packages@) =~= Seq::<GroupModel>::empty());
        assert(groups_view(cores@) =~= Seq::<GroupModel>::empty());
    }
    if buf.len() == 0 {
        return Some(ProcessorInfo { packages, cores });
    }
    let mut off: usize = 0;
    proof {
        if let Some(i) = parse_info(buf@) {
            assert(Seq::<GroupModel>::empty() + i.packages =~= i.packages);
            assert(Seq::<GroupModel>::empty() + i.cores =~= i.cores);
        }
    }
    loop
        invariant
            off < buf@.len(),
            parse_info(buf@) == join_info(
                ProcessorInfoModel {
                    packages: groups_view(packages@),
                    cores: groups_view(cores@),
                },
                parse_from(buf@, off as nat),
            ),
            ids_bounded(groups_view(packages@)),
            ids_bounded(groups_view(cores@)),
        decreases buf@.len() - off,
    {
        if buf.len() - off < 8 {
            return None;
        }
        let ghost acc = ProcessorInfoModel {
            packages: groups_view(packages@),
            cores: groups_view(cores@),
        };
        let rel = read_u32(buf, off);
        let size = read_u32(buf, off + 4);
        let ghost rest = if size == 0 || off + size >= buf@.len() {
            Some(empty_info())
        } else {
            parse_from(buf@, (off + size) as nat)
        };
        let ghost rec = record_at(buf@, off as int);
        if rel == RELATION_PROCESSOR_CORE {
            match read_group(buf, off) {
                None => {
                    return None;
                },
                Some(g) => {
                    proof {
                        lemma_groups_view_push(cores@, g);
                        lemma_bounded_push(groups_view(cores@), g@);
                    }
                    cores.push(g);
                },
            }
        } else if rel == RELATION_PROCESSOR_PACKAGE {
            match read_group(buf, off) {
                None => {
                    return None;
                },
                Some(g) => {
                    proof {
                        lemma_groups_view_push(packages@, g);
                        lemma_bounded_push(groups_view(packages@), g@);
                    }
                    packages.push(g);
                },
            }
        }
        proof {
            lemma_join_step(acc, rec.unwrap(), rest);
        }
        if size == 0 || size as usize >= buf.len() - off {
            proof {
                let fin = ProcessorInfoModel {
                    packages: groups_view(packages@),
                    cores: groups_view(cores@),
                };
                assert(fin.packages + Seq::<GroupModel>::empty() =~= fin.packages);
                assert(fin.cores + Seq::<GroupModel>::empty() =~= fin.cores);
            }
            let package_groups = packages.len();
            let core_groups = cores.len();
            assert(groups_view(packages@).len() == package_groups);
            assert(groups_view(cores@).len() == core_groups);
            return Some(ProcessorInfo { packages, cores });
        }
        off = off + size as usize;
    }
}

// ─────────────────────────── threads ───────────────────────────

/// Index of the first group, from `i` on, that lists processor `l`.
pub open spec fn first_group_from(gs: Seq<GroupModel>, l: usize, i: nat) -> Option<nat>
    decreases gs.len() - i,
{
    if i >= gs.len() {
        None
    } else if gs[i as int].logical_ids.contains(l) {
        Some(i)
    } else {
        first_group_from(gs, l, i + 1)
    }
}

/// Index of the first group that lists processor `l`, or 0 when none does.
pub open spec fn group_index_of(gs: Seq<GroupModel>, l: usize) -> usize {
    match first_group_from(gs, l, 0) {
        Some(i) => i as usize,
        None => 0,
    }
}

/// Efficiency class of the last group that lists processor `l`, or 0 when
/// none does (a later record overrides an earlier one).
pub open spec fn last_class_of(gs: Seq<GroupModel>, l: usize) -> u8
    decreases gs.len(),
{
    if gs.len() == 0 {
        0
    } else if gs.last().logical_ids.contains(l) {
        gs.last().efficiency_class
    } else {
        last_class_of(gs.drop_last(), l)
    }
}

/// One more than the largest id in `s`, or 0 when `s` is empty.
pub open spec fn ids_end(s: Seq<usize>) -> nat
    decreases s.len(),
{
    if s.len() == 0 {
        0
    } else {
        let e = ids_end(s.drop_last());
        let x = s.last() + 1;
        if x > e {
            x as nat
        } else {
            e
        }
    }
}

/// One more than the largest processor id any group lists, or 0.
pub open spec fn groups_end(gs: Seq<GroupModel>) -> nat
    decreases gs.len(),
{
    if gs.len() == 0 {
        0
    } else {
        let e = groups_end(gs.drop_last());
        let x = ids_end(gs.last().logical_ids);
        if x > e {
            x
        } else {
            e
        }
    }
}

/// Number of logical processors: one more than the largest id a core lists.
pub open spec fn logical_count(info: ProcessorInfoModel) -> nat {
    groups_end(info.cores)
}

/// The thread record of logical processor `l`: its core and package are the
/// first groups that list it, and on a hybrid part its core type follows the
/// efficiency class (0 is a performance core).
pub open spec fn thread_model(info: ProcessorInfoModel, hybrid: bool, l: usize) -> CpuThread {
    CpuThread {
        logical_id: l,
        physical_core_id: group_index_of(info.cores, l),
        package_id: group_index_of(info.packages, l),
        core_type: if hybrid {
            if last_class_of(info.cores, l) == 0 {
                CoreType::Performance
            } else {
                CoreType::Efficiency
            }
        } else {
            CoreType::Unknown
        },
    }
}

/// The threads of all logical processors `0 .. logical_count`, in id order.
pub open spec fn threads_model(info: ProcessorInfoModel, hybrid: bool) -> Seq<CpuThread> {
    Seq::new(logical_count(info), |l: int| thread_model(info, hybrid, l as usize))
}

proof fn lemma_first_group_in_range(gs: Seq<GroupModel>, l: usize, i: nat)
    ensures
        first_group_from(gs, l, i) matches Some(k) ==> i <= k < gs.len() && gs[k as int].logical_ids.contains(l),
    decreases gs.len() - i,
{
    if i < gs.len() {
        lemma_first_group_in_range(gs, l, i + 1);
    }
}

fn ids_contain(ids: &Vec<usize>, l: usize) -> (found: bool)
    ensures
        found == ids@.contains(l),
{
    let mut j: usize = 0;
    while j < ids.len()
        invariant
            j <= ids@.len(),
            forall|k: int| 0 <= k < j ==> ids@[k] != l,
        decreases ids@.len() - j,
    {
        if ids[j] == l {
            return true;
        }
        j = j + 1;
    }
    false
}

proof fn lemma_groups_view_index(v: Seq<ProcessorGroup>, i: int)
    requires
        0 <= i < v.len(),
    ensures
        groups_view(v)[i] == v[i]@,
        groups_view(v)[i].logical_ids == v[i].logical_ids@,
        groups_view(v)[i].efficiency_class == v[i].efficiency_class,
        groups_view(v).len() == v.len(),
{
}

fn first_group_index(gs: &Vec<ProcessorGroup>, l: usize) -> (r: Option<usize>)
    ensures
        match r {
            Some(i) => first_group_from(groups_view(gs@), l, 0) == Some(i as nat),
            None => first_group_from(groups_view(gs@), l, 0) is None,
        },
        r matches Some(i) ==> i < usize::MAX,
{
    let ghost view = groups_view(gs@);
    let mut i: usize = 0;
    while i < gs.len()
        invariant
            i <= gs@.len(),
            view == groups_view(gs@),
            first_group_from(view, l, 0) == first_group_from(view, l, i as nat),
        decreases gs@.len() - i,
    {
        proof {
            lemma_groups_view_index(gs@, i as int);
        }
        if ids_contain(&gs[i].logical_ids, l) {
            return Some(i);
        }
        i = i + 1;
    }
    None
}

fn last_efficiency_class(gs: &Vec<ProcessorGroup>, l: usize) -> (class: u8)
    ensures
        class == last_class_of(groups_view(gs@), l),
{
    let ghost view = groups_view(gs@);
    let mut class: u8 = 0;
    let mut i: usize = 0;
    while i < gs.len()
        invariant
            i <= gs@.len(),
            view == groups_view(gs@),
            class == last_class_of(view.take(i as int), l),
        decreases gs@.len() - i,
    {
        proof {
            lemma_groups_view_index(gs@, i as int);
            assert(view.take(i + 1).drop_last() =~= view.take(i as int));
            assert(view.take(i + 1).last() == view[i as int]);
        }
        if ids_contain(&gs[i].logical_ids, l) {
            class = gs[i].efficiency_class;
        }
        i = i + 1;
    }
    assert(view.take(gs@.len() as int) =~= view);
    class
}

fn ids_bound(ids: &Vec<usize>) -> (end: usize)
    requires
        forall|k: int| 0 <= k < ids@.len() ==> #[trigger] ids@[k] < LOGICAL_ID_LIMIT,
    ensures
        end == ids_end(ids@),
        end <= LOGICAL_ID_LIMIT,
{
    let mut end: usize = 0;
    let mut j: usize = 0;
    while j < ids.len()
        invariant
            j <= ids@.len(),
            forall|k: int| 0 <= k < ids@.len() ==> #[trigger] ids@[k] < LOGICAL_ID_LIMIT,
            end == ids_end(ids@.take(j as int)),
            end <= LOGICAL_ID_LIMIT,
        decreases ids@.len() - j,
    {
        proof {
            assert(ids@.take(j + 1).drop_last() =~= ids@.take(j as int));
            assert(ids@.take(j + 1).last() == ids@[j as int]);
        }
        let x = ids[j] + 1;
        if x > end {
            end = x;
        }
        j = j + 1;
    }
    assert(ids@.take(ids@.len() as int) =~= ids@);
    end
}

fn logical_processor_count(gs: &Vec<ProcessorGroup>) -> (n: usize)
    requires
        ids_bounded(groups_view(gs@)),
    ensures
        n == groups_end(groups_view(gs@)),
        n <= LOGICAL_ID_LIMIT,
{
    let ghost view = groups_view(gs@);
    let mut end: usize = 0;
    let mut i: usize = 0;
    while i < gs.len()
        invariant
            i <= gs@.len(),
            view == groups_view(gs@),
            ids_bounded(view),
            end == groups_end(view.take(i as int)),
            end <= LOGICAL_ID_LIMIT,
        decreases gs@.len() - i,
    {
        proof {
            lemma_groups_view_index(gs@, i as int);
            assert(view.take(i + 1).drop_last() =~= view.take(i as int));
            assert(view.take(i + 1).last() == view[i as int]);
            assert forall|k: int| 0 <= k < gs@[i as int].logical_ids@.len() implies #[trigger] gs@[i as int].logical_ids@[k]
                < LOGICAL_ID_LIMIT by {
                assert(view[i as int].logical_ids[k] < LOGICAL_ID_LIMIT);
            }
        }
        let x = ids_bound(&gs[i].logical_ids);
        if x > end {
            end = x;
        }
        i = i + 1;
    }
    assert(view.take(gs@.len() as int) =~= view);
    end
}

/// Builds one thread record per logical processor, in id order.
pub fn enumerate_threads(info: &ProcessorInfo, hybrid: bool) -> (threads: Vec<CpuThread>)
    ensures
        threads@ == threads_model(info@, hybrid),
        forall|j: int|
            0 <= j < threads@.len() ==> #[trigger] threads@[j].package_id < usize::MAX
                && threads@[j].physical_core_id < usize::MAX,
{
    proof {
        use_type_invariant(info);
    }
    let total = logical_processor_count(&info.cores);
    let mut threads: Vec<CpuThread> = Vec::new();
    let mut l: usize = 0;
    while l < total
        invariant
            l <= total,
            total == logical_count(info@),
            threads@.len() == l,
            forall|j: int|
                0 <= j < l ==> #[trigger] threads@[j] == thread_model(info@, hybrid, j as usize),
            forall|j: int|
                0 <= j < l ==> #[trigger] threads@[j].package_id < usize::MAX
                    && threads@[j].physical_core_id < usize::MAX,
        decreases total - l,
    {
        let physical_core_id = match first_group_index(&info.cores, l) {
            Some(i) => i,
            None => 0,
        };
        let package_id = match first_group_index(&info.packages, l) {
            Some(i) => i,
            None => 0,
        };
        let core_type = if hybrid {
            if last_efficiency_class(&info.cores, l) == 0 {
                CoreType::Performance
            } else {
                CoreType::Efficiency
            }
        } else {
            CoreType::Unknown
        };
        proof {
            lemma_first_group_in_range(groups_view(info.cores@), l, 0);
            lemma_first_group_in_range(groups_view(info.packages@), l, 0);
        }
        threads.push(CpuThread { logical_id: l, physical_core_id, package_id, core_type });
        l = l + 1;
    }
    assert(threads@ =~= threads_model(info@, hybrid));
    threads
}

// ─────────────────────────── topology ───────────────────────────

#[derive(Debug, Clone)]
pub struct Topology {
    pub vendor: String,
    pub family: u32,
    pub model: u32,
    pub package_count: usize,
    pub threads: Vec<CpuThread>,
    /// One logical processor per physical core, used as the affinity target for
    /// per-core MSR reads.
    pub core_first_logical: Vec<usize>,
}

/// One more than the largest package id of the threads, or 0.
pub open spec fn package_end(ts: Seq<CpuThread>) -> nat
    decreases ts.len(),
{
    if ts.len() == 0 {
        0
    } else {
        let e = package_end(ts.drop_last());
        let x = ts.last().package_id + 1;
        if x > e {
            x as nat
        } else {
            e
        }
    }
}

/// One more than the largest physical core id of the threads, or 0.
pub open spec fn core_end(ts: Seq<CpuThread>) -> nat
    decreases ts.len(),
{
    if ts.len() == 0 {
        0
    } else {
        let e = core_end(ts.drop_last());
        let x = ts.last().physical_core_id + 1;
        if x > e {
            x as nat
        } else {
            e
        }
    }
}

/// Index of the first thread, from `i` on, that runs on physical core `c`.
pub open spec fn first_thread_on_core(ts: Seq<CpuThread>, c: usize, i: nat) -> Option<nat>
    decreases ts.len() - i,
{
    if i >= ts.len() {
        None
    } else if ts[i as int].physical_core_id == c {
        Some(i)
    } else {
        first_thread_on_core(ts, c, i + 1)
    }
}

/// For each core id below `n` that some thread runs on, the logical id of
/// the first such thread, in core id order.
pub open spec fn core_firsts(ts: Seq<CpuThread>, n: nat) -> Seq<usize>
    decreases n,
{
    if n == 0 {
        Seq::empty()
    } else {
        let prev = core_firsts(ts, (n - 1) as nat);
        match first_thread_on_core(ts, (n - 1) as usize, 0) {
            Some(j) => prev.push(ts[j as int].logical_id),
            None => prev,
        }
    }
}

proof fn lemma_first_thread_in_range(ts: Seq<CpuThread>, c: usize, i: nat)
    ensures
        first_thread_on_core(ts, c, i) matches Some(k) ==> i <= k < ts.len()
            && ts[k as int].physical_core_id == c,
        first_thread_on_core(ts, c, i) is None ==> forall|k: int|
            i <= k < ts.len() ==> #[trigger] ts[k].physical_core_id != c,
    decreases ts.len() - i,
{
    if i < ts.len() {
        lemma_first_thread_in_range(ts, c, i + 1);
    }
}

fn first_thread_index(ts: &Vec<CpuThread>, c: usize) -> (r: Option<usize>)
    ensures
        match r {
            Some(j) => first_thread_on_core(ts@, c, 0) == Some(j as nat),
            None => first_thread_on_core(ts@, c, 0) is None,
        },
{
    let mut j: usize = 0;
    while j < ts.len()
        invariant
            j <= ts@.len(),
            first_thread_on_core(ts@, c, 0) == first_thread_on_core(ts@, c, j as nat),
        decreases ts@.len() - j,
    {
        if ts[j].physical_core_id == c {
            return Some(j);
        }
        j = j + 1;
    }
    None
}

impl Topology {
    /// Builds the topology from the raw `cpuid` registers and the processor
    /// information the system reported. Fails with `TopologyFailed` when no
    /// logical processor is listed.
    pub fn detect(regs: &CpuidRegisters, info: &ProcessorInfo) -> (r: Result<Topology, AccessError>)
        ensures
            r is Err <==> logical_count(info@) == 0,
            r matches Err(e) ==> e == AccessError::TopologyFailed,
            r matches Ok(t) ==> {
                &&& t.vendor@ == vendor_chars(*regs)
                &&& t.family == cpu_family(regs.leaf1_eax)
                &&& t.model == cpu_model(regs.leaf1_eax)
                &&& t.threads@ == threads_model(info@, is_hybrid(regs.leaf7_edx))
                &&& t.package_count == package_end(t.threads@)
                &&& t.core_first_logical@ == core_firsts(t.threads@, core_end(t.threads@))
            },
    {
        let (vendor, family, model, hybrid) = cpu_signature(regs);
        let threads = enumerate_threads(info, hybrid);
        if threads.len() == 0 {
            return Err(AccessError::TopologyFailed);
        }
        let mut package_count: usize = 0;
        let mut core_count: usize = 0;
        let mut j: usize = 0;
        while j < threads.len()
            invariant
                j <= threads@.len(),
                forall|k: int|
                    0 <= k < threads@.len() ==> #[trigger] threads@[k].package_id < usize::MAX
                        && threads@[k].physical_core_id < usize::MAX,
                package_count == package_end(threads@.take(j as int)),
                core_count == core_end(threads@.take(j as int)),
            decreases threads@.len() - j,
        {
            proof {
                assert(threads@.take(j + 1).drop_last() =~= threads@.take(j as int));
                assert(threads@.take(j + 1).last() == threads@[j as int]);
            }
            let p = threads[j].package_id + 1;
            if p > package_count {
                package_count = p;
            }
            let c = threads[j].physical_core_id + 1;
            if c > core_count {
                core_count = c;
            }
            j = j + 1;
        }
        assert(threads@.take(threads@.len() as int) =~= threads@);

        let mut core_first_logical: Vec<usize> = Vec::new();
        let mut core_id: usize = 0;
        while core_id < core_count
            invariant
                core_id <= core_count,
                core_first_logical@ == core_firsts(threads@, core_id as nat),
            decreases core_count - core_id,
        {
            proof {
                lemma_first_thread_in_range(threads@, core_id, 0);
            }
            match first_thread_index(&threads, core_id) {
                Some(t) => core_first_logical.push(threads[t].logical_id),
                None => {},
            }
            core_id = core_id + 1;
        }
        Ok(Topology { vendor, family, model, package_count, threads, core_first_logical })
    }
}

// ─────────────────────────── laws ───────────────────────────

/// What every `ProcessorInfo` satisfies: ids below `LOGICAL_ID_LIMIT`, and
/// group lists no longer than a `Vec` can be.
pub open spec fn info_valid(info: ProcessorInfoModel) -> bool {
    &&& ids_bounded(info.packages)
    &&& ids_bounded(info.cores)
    &&& info.packages.len() <= usize::MAX
    &&& info.cores.len() <= usize::MAX
}


proof fn lemma_ids_end_bounded(s: Seq<usize>)
    requires
        forall|k: int| 0 <= k < s.len() ==> #[trigger] s[k] < LOGICAL_ID_LIMIT,
    ensures
        ids_end(s) <= LOGICAL_ID_LIMIT,
    decreases s.len(),
{
    if s.len() > 0 {
        lemma_ids_end_bounded(s.drop_last());
    }
}

proof fn lemma_groups_end_bounded(gs: Seq<GroupModel>)
    requires
        ids_bounded(gs),
    ensures
        groups_end(gs) <= LOGICAL_ID_LIMIT,
    decreases gs.len(),
{
    if gs.len() > 0 {
        let rest = gs.drop_last();
        assert forall|i: int, k: int|
            0 <= i < rest.len() && 0 <= k < rest[i].logical_ids.len() implies #[trigger] rest[i].logical_ids[k]
            < LOGICAL_ID_LIMIT by {
            assert(rest[i] == gs[i]);
        }
        lemma_groups_end_bounded(rest);
        let last = gs.last().logical_ids;
        assert forall|k: int| 0 <= k < last.len() implies #[trigger] last[k] < LOGICAL_ID_LIMIT by {
            assert(gs[gs.len() - 1].logical_ids[k] < LOGICAL_ID_LIMIT);
        }
        lemma_ids_end_bounded(last);
    }
}

/// Law: the threads are numbered by their position: thread `i` is logical
/// processor `i`, for every `i` below the thread count.
pub proof fn lemma_threads_numbered(info: ProcessorInfoModel, hybrid: bool, i: int)
    requires
        info_valid(info),
        0 <= i < threads_model(info, hybrid).len(),
    ensures
        threads_model(info, hybrid)[i].logical_id == i,
{
    lemma_groups_end_bounded(info.cores);
}

proof fn lemma_ids_end_above(s: Seq<usize>, k: int)
    requires
        0 <= k < s.len(),
    ensures
        s[k] < ids_end(s),
    decreases s.len(),
{
    if k < s.len() - 1 {
        lemma_ids_end_above(s.drop_last(), k);
    }
}

proof fn lemma_groups_end_above(gs: Seq<GroupModel>, i: int, k: int)
    requires
        0 <= i < gs.len(),
        0 <= k < gs[i].logical_ids.len(),
    ensures
        gs[i].logical_ids[k] < groups_end(gs),
    decreases gs.len(),
{
    if i < gs.len() - 1 {
        lemma_groups_end_above(gs.drop_last(), i, k);
    } else {
        lemma_ids_end_above(gs[i].logical_ids, k);
    }
}

/// Law: every logical processor that a core record lists gets a thread, and
/// that thread runs on the first core that lists it.
pub proof fn lemma_listed_processor_has_thread(
    info: ProcessorInfoModel,
    hybrid: bool,
    i: int,
    k: int,
)
    requires
        info_valid(info),
        0 <= i < info.cores.len(),
        0 <= k < info.cores[i].logical_ids.len(),
    ensures
        info.cores[i].logical_ids[k] < threads_model(info, hybrid).len(),
        ({
            let l = info.cores[i].logical_ids[k];
            let c = threads_model(info, hybrid)[l as int].physical_core_id;
            &&& c <= i
            &&& info.cores[c as int].logical_ids.contains(l)
        }),
{
    let l = info.cores[i].logical_ids[k];
    lemma_groups_end_above(info.cores, i, k);
    lemma_first_group_in_range(info.cores, l, 0);
    lemma_first_group_not_before(info.cores, l, 0, i);
}

proof fn lemma_first_group_not_before(gs: Seq<GroupModel>, l: usize, from: nat, i: int)
    requires
        from <= i < gs.len(),
        gs[i].logical_ids.contains(l),
    ensures
        (first_group_from(gs, l, from) matches Some(c) && c <= i),
    decreases i - from,
{
    if from < i && !gs[from as int].logical_ids.contains(l) {
        lemma_first_group_not_before(gs, l, from + 1, i);
    }
}

proof fn lemma_first_thread_found(ts: Seq<CpuThread>, c: usize, i: nat, j: int)
    requires
        i <= j < ts.len(),
        ts[j].physical_core_id == c,
    ensures
        first_thread_on_core(ts, c, i) is Some,
    decreases j - i,
{
    if i < j && ts[i as int].physical_core_id != c {
        lemma_first_thread_found(ts, c, i + 1, j);
    }
}

/// Some thread runs on physical core `c`.
pub open spec fn core_used(ts: Seq<CpuThread>, c: int) -> bool {
    exists|j: int| 0 <= j < ts.len() && #[trigger] ts[j].physical_core_id == c as usize
}

/// Law: there is at most one first thread per core id, and when every core id
/// below `n` has a thread, there is exactly one per core: entry `c` is the
/// logical id of the first thread on core `c`.
pub proof fn lemma_core_firsts_cover(ts: Seq<CpuThread>, n: nat)
    ensures
        core_firsts(ts, n).len() <= n,
        (forall|c: int| 0 <= c < n ==> #[trigger] core_used(ts, c)) ==> {
            &&& core_firsts(ts, n).len() == n
            &&& forall|c: int|
                0 <= c < n ==> (#[trigger] first_thread_on_core(ts, c as usize, 0) matches Some(j)
                    && core_firsts(ts, n)[c] == ts[j as int].logical_id
                    && ts[j as int].physical_core_id == c as usize)
        },
    decreases n,
{
    if n > 0 {
        lemma_core_firsts_cover(ts, (n - 1) as nat);
        let m = (n - 1) as nat;
        lemma_first_thread_in_range(ts, m as usize, 0);
        if forall|c: int| 0 <= c < n ==> #[trigger] core_used(ts, c) {
            assert(core_used(ts, m as int));
            let j = choose|j: int| 0 <= j < ts.len() && #[trigger] ts[j].physical_core_id == m as usize;
            lemma_first_thread_found(ts, m as usize, 0, j);
            assert forall|c: int| 0 <= c < n implies (#[trigger] first_thread_on_core(ts, c as usize, 0) matches Some(j)
                && core_firsts(ts, n)[c] == ts[j as int].logical_id
                && ts[j as int].physical_core_id == c as usize) by {
                lemma_first_thread_in_range(ts, c as usize, 0);
            }
        }
    }
}

/// Number of threads that run on physical core `c`.
pub open spec fn count_on_core(ts: Seq<CpuThread>, c: nat) -> nat
    decreases ts.len(),
{
    if ts.len() == 0 {
        0
    } else {
        count_on_core(ts.drop_last(), c) + (if ts.last().physical_core_id == c {
            1nat
        } else {
            0nat
        })
    }
}

/// Number of threads whose physical core id is below `n`.
pub open spec fn count_below(ts: Seq<CpuThread>, n: nat) -> nat
    decreases ts.len(),
{
    if ts.len() == 0 {
        0
    } else {
        count_below(ts.drop_last(), n) + (if ts.last().physical_core_id < n {
            1nat
        } else {
            0nat
        })
    }
}

proof fn lemma_count_below_step(ts: Seq<CpuThread>, n: nat)
    ensures
        count_below(ts, n + 1) == count_below(ts, n) + count_on_core(ts, n),
        count_below(ts, n) <= ts.len(),
    decreases ts.len(),
{
    if ts.len() > 0 {
        lemma_count_below_step(ts.drop_last(), n);
    }
}

proof fn lemma_count_on_core_found(ts: Seq<CpuThread>, c: nat, j: int)
    requires
        0 <= j < ts.len(),
        ts[j].physical_core_id == c,
    ensures
        count_on_core(ts, c) >= 1,
    decreases ts.len(),
{
    if j < ts.len() - 1 {
        lemma_count_on_core_found(ts.drop_last(), c, j);
    }
}

proof fn lemma_core_firsts_counted(ts: Seq<CpuThread>, n: nat)
    requires
        n <= usize::MAX + 1,
    ensures
        core_firsts(ts, n).len() <= count_below(ts, n),
    decreases n,
{
    if n > 0 {
        let m = (n - 1) as nat;
        lemma_core_firsts_counted(ts, m);
        lemma_count_below_step(ts, m);
        lemma_first_thread_in_range(ts, m as usize, 0);
        if let Some(j) = first_thread_on_core(ts, m as usize, 0) {
            lemma_count_on_core_found(ts, m, j as int);
        }
    }
}

proof fn lemma_core_end_bounded(ts: Seq<CpuThread>)
    ensures
        core_end(ts) <= usize::MAX + 1,
    decreases ts.len(),
{
    if ts.len() > 0 {
        lemma_core_end_bounded(ts.drop_last());
    }
}

/// Law: there are never more per-core affinity targets than threads: the
/// cores listed in `core_first_logical` are at most as many as the threads.
pub proof fn lemma_cores_at_most_threads(ts: Seq<CpuThread>)
    ensures
        core_firsts(ts, core_end(ts)).len() <= ts.len(),
{
    lemma_core_end_bounded(ts);
    lemma_core_firsts_counted(ts, core_end(ts));
    lemma_count_below_step(ts, core_end(ts));
}

} // verus!
