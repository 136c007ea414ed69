use crate::hardware_access::{AccessError, HardwareAccess, MsrRead};
use crate::mock::{
    mock_reading, valid_therm, MockModel, MSR_PACKAGE_THERM_STATUS, MSR_TEMPERATURE_TARGET,
    MSR_THERM_STATUS,
};
use crate::topology::push_char;
use crate::protocol::{sensors_view, Derived, Quality, SensorKind, SensorModel, SensorSample};
use vstd::prelude::*;

verus! {

pub const THERM_VALID_BIT: u64 = 0x8000_0000;

pub const THERM_DELTA_MASK: u64 = 0x007F_0000;

pub const THERM_DELTA_SHIFT: u64 = 16;

pub const FALLBACK_TJMAX: u8 = 100;

/// Readings above 120 °C (in thousandths of a degree) are suspicious.
pub const SUSPICIOUS_HIGH_MC: i64 = 120_000;

/// Readings below 0 °C (in thousandths of a degree) are suspicious.
pub const SUSPICIOUS_LOW_MC: i64 = 0;

/// Distance below the temperature target that a thermal status value holds.
pub open spec fn therm_delta(therm: u64) -> u64 {
    (therm & THERM_DELTA_MASK) >> THERM_DELTA_SHIFT
}

/// Temperature of a thermal status value in thousandths of a degree Celsius:
/// the target minus the distance, or `None` when the valid bit is clear.
pub open spec fn decoded_temp(tj_max: u8, therm: u64) -> Option<i64> {
    if therm & THERM_VALID_BIT == 0 {
        None
    } else {
        Some((1000 * (tj_max - therm_delta(therm))) as i64)
    }
}

/// Temperature target held in bits 16..24 of the target MSR.
pub open spec fn target_of(value: u64) -> u8 {
    ((value >> 16u64) & 0xFFu64) as u8
}

/// Quality of a reading: invalid when it is not a number, suspicious outside
/// 0 ..= 120 °C, valid otherwise.
pub open spec fn quality_of(temp_mc: Option<i64>) -> Quality {
    match temp_mc {
        None => Quality::Invalid,
        Some(t) => if t < SUSPICIOUS_LOW_MC || t > SUSPICIOUS_HIGH_MC {
            Quality::Suspicious
        } else {
            Quality::Valid
        },
    }
}

pub fn quality_for(temp_mc: Option<i64>) -> (q: Quality)
    ensures
        q == quality_of(temp_mc),
{
    match temp_mc {
        None => Quality::Invalid,
        Some(t) => if t < SUSPICIOUS_LOW_MC || t > SUSPICIOUS_HIGH_MC {
            Quality::Suspicious
        } else {
            Quality::Valid
        },
    }
}

/// Decimal digits of `n`, most significant first.
pub open spec fn decimal(n: nat) -> Seq<char>
    decreases n,
{
    if n < 10 {
        seq![(n + 48) as char]
    } else {
        decimal(n / 10).push(((n % 10) + 48) as char)
    }
}

/// Appends the decimal digits of `n` to `s`, most significant first.
fn push_decimal(s: &mut String, n: usize)
    ensures
        final(s)@ == old(s)@ + decimal(n as nat),
    decreases n,
{
    let ghost start = s@;
    if n >= 10 {
        push_decimal(s, n / 10);
    }
    let digit: u8 = (n % 10) as u8;
    let c = (48u8 + digit) as char;
    push_char(s, c);
    proof {
        if n >= 10 {
            assert(s@ =~= start + decimal((n / 10) as nat).push(c));
        } else {
            assert(s@ =~= start + seq![c]);
        }
    }
}

/// The display name of core `number`: `Core #` and its decimal digits.
fn core_label(number: usize) -> (s: String)
    ensures
        s@ == "Core #"@ + decimal(number as nat),
{
    let mut s = String::from_str("Core #");
    push_decimal(&mut s, number);
    s
}

/// The sensor of core `i` (named from 1), decoded from its thermal status.
pub open spec fn core_sensor(tj_max: u8, i: int, therm: u64) -> SensorModel {
    SensorModel {
        kind: SensorKind::Core,
        index: i as usize,
        name: "Core #"@ + decimal((i + 1) as nat),
        value_mc: decoded_temp(tj_max, therm),
        quality: quality_of(decoded_temp(tj_max, therm)),
    }
}

/// The package sensor for a decoded package temperature.
pub open spec fn package_sensor(temp_mc: i64) -> SensorModel {
    SensorModel {
        kind: SensorKind::Package,
        index: 0,
        name: "CPU Package"@,
        value_mc: Some(temp_mc),
        quality: quality_of(Some(temp_mc)),
    }
}

/// All sensors of one sample: the package first when its reading is valid,
/// then one sensor per core, valid or not.
pub open spec fn sample_sensors(tj_max: u8, core_therms: Seq<u64>, package_therm: u64) -> Seq<
    SensorModel,
> {
    let cores = Seq::new(core_therms.len(), |i: int| core_sensor(tj_max, i, core_therms[i]));
    match decoded_temp(tj_max, package_therm) {
        Some(p) => seq![package_sensor(p)] + cores,
        None => cores,
    }
}

/// Largest valid core temperature of the readings, if any is valid.
pub open spec fn hottest(tj_max: u8, therms: Seq<u64>) -> Option<i64>
    decreases therms.len(),
{
    if therms.len() == 0 {
        None
    } else {
        let rest = hottest(tj_max, therms.drop_last());
        match (decoded_temp(tj_max, therms.last()), rest) {
            (Some(t), Some(h)) => Some(if t > h { t } else { h }),
            (Some(t), None) => Some(t),
            (None, r) => r,
        }
    }
}

/// Smallest valid core temperature of the readings, if any is valid.
pub open spec fn coolest(tj_max: u8, therms: Seq<u64>) -> Option<i64>
    decreases therms.len(),
{
    if therms.len() == 0 {
        None
    } else {
        let rest = coolest(tj_max, therms.drop_last());
        match (decoded_temp(tj_max, therms.last()), rest) {
            (Some(t), Some(c)) => Some(if t < c { t } else { c }),
            (Some(t), None) => Some(t),
            (None, r) => r,
        }
    }
}

/// Hottest and coolest valid core and their difference; all zero when no
/// core reading is valid.
pub open spec fn derived_of(tj_max: u8, core_therms: Seq<u64>) -> Derived {
    match (hottest(tj_max, core_therms), coolest(tj_max, core_therms)) {
        (Some(h), Some(c)) => Derived {
            hottest_core_mc: h,
            coolest_core_mc: c,
            core_delta_mc: (h - c) as i64,
        },
        _ => Derived { hottest_core_mc: 0, coolest_core_mc: 0, core_delta_mc: 0 },
    }
}

/// A target read that settles the temperature target: it succeeded and its
/// target is not zero.
pub open spec fn target_hit(r: MsrRead) -> bool {
    r.result matches Ok(v) && target_of(v) > 0
}

/// The value a read answered, or 0 for a failed read.
pub open spec fn read_value(r: MsrRead) -> u64 {
    match r.result {
        Ok(v) => v,
        Err(_) => 0,
    }
}

/// The values a sequence of reads answered.
pub open spec fn read_values(reads: Seq<MsrRead>) -> Seq<u64> {
    reads.map_values(|r: MsrRead| read_value(r))
}

/// The answers a sequence of reads got.
pub open spec fn read_results(reads: Seq<MsrRead>) -> Seq<Result<u64, AccessError>> {
    reads.map_values(|r: MsrRead| r.result)
}

/// The reads a backend recorded after the first `before.len()` ones, when
/// `after` extends `before`.
pub open spec fn reads_after(before: Seq<MsrRead>, after: Seq<MsrRead>) -> Seq<MsrRead> {
    after.skip(before.len() as int)
}

pub open spec fn extends(before: Seq<MsrRead>, after: Seq<MsrRead>) -> bool {
    before.len() <= after.len() && after.take(before.len() as int) == before
}

proof fn lemma_reads_after_push(before: Seq<MsrRead>, log: Seq<MsrRead>, r: MsrRead)
    requires
        extends(before, log),
    ensures
        extends(before, log.push(r)),
        reads_after(before, log.push(r)) == reads_after(before, log).push(r),
{
    assert(log.push(r).take(before.len() as int) =~= log.take(before.len() as int));
    assert(reads_after(before, log.push(r)) =~= reads_after(before, log).push(r));
}

/// The temperature target search: the target MSR is read on the listed
/// processors in order and the search stops at the first read that answers
/// a non-zero target, which is the result; when none does, every processor
/// was tried and the result is the fallback.
pub open spec fn tjmax_search(cpus: Seq<usize>, reads: Seq<MsrRead>, tj: u8) -> bool {
    &&& reads.len() <= cpus.len()
    &&& forall|i: int|
        0 <= i < reads.len() ==> (#[trigger] reads[i]).msr == MSR_TEMPERATURE_TARGET && reads[i].cpu
            == cpus[i]
    &&& forall|i: int| 0 <= i < reads.len() - 1 ==> !target_hit(#[trigger] reads[i])
    &&& if reads.len() > 0 && target_hit(reads.last()) {
        tj == target_of(read_value(reads.last()))
    } else {
        reads.len() == cpus.len() && tj == FALLBACK_TJMAX
    }
}

/// The processor the package MSR is read on: the first listed, or 0.
pub open spec fn package_cpu(cpus: Seq<usize>) -> usize {
    if cpus.len() > 0 {
        cpus[0]
    } else {
        0
    }
}

/// The `i`-th read of a sample: the thermal status of each listed processor
/// in order, then the package thermal status.
pub open spec fn sample_read_planned(cpus: Seq<usize>, i: int, r: MsrRead) -> bool {
    if i < cpus.len() {
        r.msr == MSR_THERM_STATUS && r.cpu == cpus[i]
    } else {
        r.msr == MSR_PACKAGE_THERM_STATUS && r.cpu == package_cpu(cpus)
    }
}

/// The reads of a sample follow the plan and stop at the first failure.
pub open spec fn sample_reads(cpus: Seq<usize>, reads: Seq<MsrRead>) -> bool {
    &&& reads.len() <= cpus.len() + 1
    &&& forall|i: int| 0 <= i < reads.len() ==> sample_read_planned(cpus, i, #[trigger] reads[i])
    &&& forall|i: int| 0 <= i < reads.len() - 1 ==> (#[trigger] reads[i]).result is Ok
}

/// The reads of a temperature target search: the target MSR on each listed
/// processor, in order.
pub open spec fn target_plan(cpus: Seq<usize>) -> Seq<(u64, usize)> {
    Seq::new(cpus.len(), |i: int| (MSR_TEMPERATURE_TARGET, cpus[i]))
}

/// The reads of a sample: the thermal status of each listed processor in
/// order, then the package thermal status on `package_cpu`.
pub open spec fn sample_plan(cpus: Seq<usize>) -> Seq<(u64, usize)> {
    Seq::new(
        cpus.len() + 1,
        |i: int|
            if i < cpus.len() {
                (MSR_THERM_STATUS, cpus[i])
            } else {
                (MSR_PACKAGE_THERM_STATUS, package_cpu(cpus))
            },
    )
}

/// Whether the backend fixes in advance the answer of every read of `plan`.
pub open spec fn answers_fixed<A: HardwareAccess + ?Sized>(
    access: &A,
    plan: Seq<(u64, usize)>,
) -> bool {
    forall|i: int|
        0 <= i < plan.len() ==> (#[trigger] access.fixed_reading(plan[i].0, plan[i].1)) is Some
}

/// The answers the backend fixes for the reads of `plan`, in order.
pub open spec fn fixed_answers<A: HardwareAccess + ?Sized>(
    access: &A,
    plan: Seq<(u64, usize)>,
) -> Seq<Result<u64, AccessError>> {
    Seq::new(plan.len(), |i: int| access.fixed_reading(plan[i].0, plan[i].1).unwrap())
}

/// Whether an answer of the target MSR settles the temperature target.
pub open spec fn answer_hit(a: Result<u64, AccessError>) -> bool {
    a matches Ok(v) && target_of(v) > 0
}

/// The temperature target a search settles on when its reads answer
/// `answers` in order: the target of the first answer that settles it, or the
/// fallback when none does.
pub open spec fn tjmax_from_answers(answers: Seq<Result<u64, AccessError>>) -> u8
    decreases answers.len(),
{
    if answers.len() == 0 {
        FALLBACK_TJMAX
    } else if answer_hit(answers[0]) {
        target_of(answers[0]->Ok_0)
    } else {
        tjmax_from_answers(answers.drop_first())
    }
}

/// The error of the first failed answer, if any failed.
pub open spec fn first_error(answers: Seq<Result<u64, AccessError>>) -> Option<AccessError>
    decreases answers.len(),
{
    if answers.len() == 0 {
        None
    } else {
        match answers[0] {
            Err(e) => Some(e),
            Ok(_) => first_error(answers.drop_first()),
        }
    }
}

/// The value of an answer, or 0 for a failed one.
pub open spec fn answer_value(a: Result<u64, AccessError>) -> u64 {
    match a {
        Ok(v) => v,
        Err(_) => 0,
    }
}

/// The values of a sequence of answers.
pub open spec fn answer_values(answers: Seq<Result<u64, AccessError>>) -> Seq<u64> {
    answers.map_values(|a: Result<u64, AccessError>| answer_value(a))
}

/// What a sample gives when its reads (one per core, then the package)
/// answer `answers`: the error of the first failed read, or the sensors and
/// derived values decoded from the answered values.
pub open spec fn sample_outcome(tj_max: u8, answers: Seq<Result<u64, AccessError>>) -> Result<
    (Seq<SensorModel>, Derived),
    AccessError,
> {
    match first_error(answers) {
        Some(e) => Err(e),
        None => Ok(
            (
                sample_sensors(
                    tj_max,
                    answer_values(answers.drop_last()),
                    answer_value(answers.last()),
                ),
                derived_of(tj_max, answer_values(answers.drop_last())),
            ),
        ),
    }
}

proof fn lemma_tjmax_skip(answers: Seq<Result<u64, AccessError>>, i: int)
    requires
        0 <= i <= answers.len(),
        forall|k: int| 0 <= k < i ==> !answer_hit(#[trigger] answers[k]),
    ensures
        tjmax_from_answers(answers) == tjmax_from_answers(answers.skip(i)),
    decreases i,
{
    if i == 0 {
        assert(answers.skip(0) =~= answers);
    } else {
        lemma_tjmax_skip(answers, i - 1);
        let rest = answers.skip(i - 1);
        assert(rest[0] == answers[i - 1]);
        assert(rest.drop_first() =~= answers.skip(i));
    }
}

proof fn lemma_first_error_skip(answers: Seq<Result<u64, AccessError>>, i: int)
    requires
        0 <= i <= answers.len(),
        forall|k: int| 0 <= k < i ==> (#[trigger] answers[k]) is Ok,
    ensures
        first_error(answers) == first_error(answers.skip(i)),
    decreases i,
{
    if i == 0 {
        assert(answers.skip(0) =~= answers);
    } else {
        lemma_first_error_skip(answers, i - 1);
        let rest = answers.skip(i - 1);
        assert(rest[0] == answers[i - 1]);
        assert(rest.drop_first() =~= answers.skip(i));
    }
}

/// Law: the reads of a temperature target search settle its result: it is
/// the target that `tjmax_from_answers` finds in the answers they got, so a
/// search, and every decoder built from one, depends on nothing but those
/// answers.
pub proof fn lemma_search_target(cpus: Seq<usize>, reads: Seq<MsrRead>, tj: u8)
    requires
        tjmax_search(cpus, reads, tj),
    ensures
        tj == tjmax_from_answers(read_results(reads)),
{
    let a = read_results(reads);
    let n = reads.len() as int;
    if n > 0 && target_hit(reads.last()) {
        assert forall|k: int| 0 <= k < n - 1 implies !answer_hit(#[trigger] a[k]) by {
            assert(!target_hit(reads[k]));
        }
        lemma_tjmax_skip(a, n - 1);
        assert(a.skip(n - 1)[0] == a[n - 1]);
    } else {
        assert forall|k: int| 0 <= k < n implies !answer_hit(#[trigger] a[k]) by {
            if k < n - 1 {
                assert(!target_hit(reads[k]));
            }
        }
        lemma_tjmax_skip(a, n);
        assert(a.skip(n) =~= Seq::<Result<u64, AccessError>>::empty());
    }
}

/// Law: the reads of a sample settle its outcome: when they all answered,
/// it is what `sample_outcome` makes of their answers, and when one failed,
/// it is that read's error, the first and last failure among them.
pub proof fn lemma_sample_outcome_of_reads(tj_max: u8, cpus: Seq<usize>, reads: Seq<MsrRead>)
    requires
        sample_reads(cpus, reads),
        reads.len() >= 1,
    ensures
        reads.len() == cpus.len() + 1 && reads.last().result is Ok ==> sample_outcome(
            tj_max,
            read_results(reads),
        ) == Ok::<(Seq<SensorModel>, Derived), AccessError>(
            (
                sample_sensors(
                    tj_max,
                    read_values(reads.take(cpus.len() as int)),
                    read_value(reads.last()),
                ),
                derived_of(tj_max, read_values(reads.take(cpus.len() as int))),
            ),
        ),
        reads.last().result matches Err(e) ==> sample_outcome(tj_max, read_results(reads)) == Err::<
            (Seq<SensorModel>, Derived),
            AccessError,
        >(e),
{
    let a = read_results(reads);
    let n = reads.len() as int;
    assert forall|k: int| 0 <= k < n - 1 implies (#[trigger] a[k]) is Ok by {
        assert(reads[k].result is Ok);
    }
    lemma_first_error_skip(a, n - 1);
    assert(a.skip(n - 1)[0] == a[n - 1]);
    if reads.last().result is Ok {
        assert(a.skip(n - 1).drop_first() =~= Seq::<Result<u64, AccessError>>::empty());
        assert(first_error(a.skip(n - 1).drop_first()) is None);
        assert(first_error(a) is None);
        assert(a.last() == reads.last().result);
        if n == cpus.len() + 1 {
            assert(answer_values(a.drop_last()) =~= read_values(reads.take(cpus.len() as int)));
        }
    }
}

/// Decodes thermal MSRs of an Intel CPU against its temperature target.
#[derive(Debug, Clone)]
pub struct IntelDecoder {
    pub tj_max: u8,
}

proof fn lemma_decoded_range(tj_max: u8, therm: u64)
    ensures
        therm_delta(therm) <= 127,
        decoded_temp(tj_max, therm) matches Some(t) ==> -127_000 <= t <= 255_000,
{
    assert((therm & 0x007F_0000u64) >> 16u64 <= 127) by (bit_vector);
}

proof fn lemma_hottest_coolest(tj_max: u8, therms: Seq<u64>)
    ensures
        hottest(tj_max, therms) is Some <==> coolest(tj_max, therms) is Some,
        hottest(tj_max, therms) matches Some(h) ==> -127_000 <= h <= 255_000,
        coolest(tj_max, therms) matches Some(c) ==> -127_000 <= c <= 255_000,
        hottest(tj_max, therms) matches Some(h) ==> (coolest(tj_max, therms) matches Some(c) && c <= h),
    decreases therms.len(),
{
    if therms.len() > 0 {
        lemma_hottest_coolest(tj_max, therms.drop_last());
        lemma_decoded_range(tj_max, therms.last());
    }
}

impl IntelDecoder {
    /// Temperature target from a value of the target MSR (bits 16..24).
    pub fn target_from_msr(value: u64) -> (tj: u8)
        ensures
            tj == target_of(value),
    {
        ((value >> 16) & 0xFF) as u8
    }

    /// Reads the temperature target (MSR 0x1A2) per core; first valid value wins.
    /// Follows LHM: tjMax = (value >> 16) & 0xFF, fallback 100. A failed read
    /// or a zero target moves on to the next core; the result is always `Ok`,
    /// and it is what `tjmax_from_answers` finds in the answers the reads got.
    pub fn detect_tjmax<A: HardwareAccess + ?Sized>(
        access: &mut A,
        core_first_logical: &[usize],
    ) -> (r: Result<u8, AccessError>)
        ensures
            r matches Ok(tj) && (tj == FALLBACK_TJMAX || tj > 0),
            extends(
                old(access).msr_reads(),
                final(access).msr_reads(),
            ),
            (r matches Ok(tj) && tjmax_search(
                core_first_logical@,
                reads_after(old(access).msr_reads(), final(access).msr_reads()),
                tj,
            )),
            forall|m: u64, c: usize| #[trigger]
                final(access).fixed_reading(m, c) == old(access).fixed_reading(m, c),
            r == Ok::<u8, AccessError>(
                tjmax_from_answers(
                    read_results(reads_after(old(access).msr_reads(), final(access).msr_reads())),
                ),
            ),
            answers_fixed(&*old(access), target_plan(core_first_logical@)) ==> r == Ok::<
                u8,
                AccessError,
            >(tjmax_from_answers(fixed_answers(&*old(access), target_plan(core_first_logical@)))),
    {
        let ghost before = access.msr_reads();
        let ghost plan = target_plan(core_first_logical@);
        let ghost fixed = answers_fixed(&*access, plan);
        let ghost ans = fixed_answers(&*access, plan);
        proof {
            assert(before.take(before.len() as int) =~= before);
            assert(reads_after(before, before) =~= Seq::<MsrRead>::empty());
        }
        let mut i: usize = 0;
        while i < core_first_logical.len()
            invariant
                i <= core_first_logical@.len(),
                plan == target_plan(core_first_logical@),
                fixed == answers_fixed(&*old(access), plan),
                ans == fixed_answers(&*old(access), plan),
                forall|m: u64, c: usize| #[trigger]
                    access.fixed_reading(m, c) == old(access).fixed_reading(m, c),
                fixed ==> forall|k: int| 0 <= k < i ==> !answer_hit(#[trigger] ans[k]),
                before == old(access).msr_reads(),
                extends(before, access.msr_reads()),
                reads_after(before, access.msr_reads()).len() == i,
                forall|k: int|
                    0 <= k < i ==> (#[trigger] reads_after(before, access.msr_reads())[k]).msr
                        == MSR_TEMPERATURE_TARGET && reads_after(before, access.msr_reads())[k].cpu
                        == core_first_logical@[k] && !target_hit(
                        reads_after(before, access.msr_reads())[k],
                    ),
            decreases core_first_logical@.len() - i,
        {
            let cpu = core_first_logical[i];
            let ghost log = access.msr_reads();
            proof {
                assert(plan[i as int] == (MSR_TEMPERATURE_TARGET, cpu));
                if fixed {
                    assert(access.fixed_reading(plan[i as int].0, plan[i as int].1) is Some);
                }
            }
            let read = access.read_msr(MSR_TEMPERATURE_TARGET, cpu);
            proof {
                if fixed {
                    assert(read == ans[i as int]);
                }
                lemma_reads_after_push(
                    before,
                    log,
                    MsrRead { msr: MSR_TEMPERATURE_TARGET, cpu, result: read },
                );
            }
            match read {
                Ok(v) => {
                    let tj = Self::target_from_msr(v);
                    if tj > 0 {
                        proof {
                            let new = reads_after(before, access.msr_reads());
                            assert(new.last() == MsrRead {
                                msr: MSR_TEMPERATURE_TARGET,
                                cpu,
                                result: read,
                            });
                            assert(target_hit(new.last()));
                            assert forall|k: int| 0 <= k < new.len() - 1 implies !target_hit(
                                #[trigger] new[k],
                            ) by {
                                assert(new[k] == reads_after(before, log)[k]);
                            }
                            if fixed {
                                lemma_tjmax_skip(ans, i as int);
                                assert(ans.skip(i as int)[0] == ans[i as int]);
                            }
                            lemma_search_target(core_first_logical@, new, tj);
                        }
                        return Ok(tj);
                    }
                },
                Err(_) => {},
            }
            i = i + 1;
        }
        proof {
            if fixed {
                lemma_tjmax_skip(ans, ans.len() as int);
                assert(ans.skip(ans.len() as int) =~= Seq::<Result<u64, AccessError>>::empty());
            }
            lemma_search_target(
                core_first_logical@,
                reads_after(before, access.msr_reads()),
                FALLBACK_TJMAX,
            );
        }
        Ok(FALLBACK_TJMAX)
    }

    /// A decoder with the temperature target that `detect_tjmax` finds on the
    /// listed processors: the same search, so the same target for the same
    /// answers. The result is always `Ok`.
    pub fn new<A: HardwareAccess + ?Sized>(access: &mut A, core_first_logical: &[usize]) -> (r:
        Result<Self, AccessError>)
        ensures
            r matches Ok(d) && (d.tj_max == FALLBACK_TJMAX || d.tj_max > 0),
            extends(
                old(access).msr_reads(),
                final(access).msr_reads(),
            ),
            (r matches Ok(d) && tjmax_search(
                core_first_logical@,
                reads_after(old(access).msr_reads(), final(access).msr_reads()),
                d.tj_max,
            )),
            forall|m: u64, c: usize| #[trigger]
                final(access).fixed_reading(m, c) == old(access).fixed_reading(m, c),
            r matches Ok(d) && d.tj_max == tjmax_from_answers(
                read_results(reads_after(old(access).msr_reads(), final(access).msr_reads())),
            ),
            answers_fixed(&*old(access), target_plan(core_first_logical@)) ==> (r matches Ok(d)
                && d.tj_max == tjmax_from_answers(
                fixed_answers(&*old(access), target_plan(core_first_logical@)),
            )),
    {
        let tj_max = Self::detect_tjmax(access, core_first_logical)?;
        Ok(Self { tj_max })
    }

    /// Decodes the per-core MSR 0x19C value into a temperature in thousandths
    /// of a degree Celsius (or `None` when invalid).
    pub fn decode_core_value(tj_max: u8, therm: u64) -> (t: Option<i64>)
        ensures
            t == decoded_temp(tj_max, therm),
    {
        proof {
            lemma_decoded_range(tj_max, therm);
        }
        if therm & THERM_VALID_BIT == 0 {
            return None;
        }
        let delta = (therm & THERM_DELTA_MASK) >> THERM_DELTA_SHIFT;
        Some(1000 * (tj_max as i64 - delta as i64))
    }

    /// Builds the sensors (package first, then cores) and the derived
    /// hottest/coolest/delta over valid core readings from raw thermal status
    /// values: one per core, and the package's.
    pub fn decode_readings(&self, core_therms: &[u64], package_therm: u64) -> (r: (
        Vec<SensorSample>,
        Derived,
    ))
        ensures
            sensors_view(r.0@) == sample_sensors(self.tj_max, core_therms@, package_therm),
            r.1 == derived_of(self.tj_max, core_therms@),
    {
        let tj_max = self.tj_max;
        let ghost therms = core_therms@;
        let ghost cores = Seq::new(therms.len(), |i: int| core_sensor(tj_max, i, therms[i]));
        let mut sensors: Vec<SensorSample> = Vec::new();
        let mut hot: Option<i64> = None;
        let mut cool: Option<i64> = None;
        let mut i: usize = 0;
        while i < core_therms.len()
            invariant
                i <= therms.len(),
                therms == core_therms@,
                cores == Seq::new(therms.len(), |i: int| core_sensor(tj_max, i, therms[i])),
                sensors_view(sensors@) == cores.take(i as int),
                hot == hottest(tj_max, therms.take(i as int)),
                cool == coolest(tj_max, therms.take(i as int)),
            decreases therms.len() - i,
        {
            proof {
                assert(therms.take(i + 1).drop_last() =~= therms.take(i as int));
                assert(therms.take(i + 1).last() == therms[i as int]);
                lemma_hottest_coolest(tj_max, therms.take(i as int));
            }
            let t = Self::decode_core_value(tj_max, core_therms[i]);
            if let Some(v) = t {
                hot = match hot {
                    Some(h) => Some(if v > h { v } else { h }),
                    None => Some(v),
                };
                cool = match cool {
                    Some(c) => Some(if v < c { v } else { c }),
                    None => Some(v),
                };
            }
            let sensor = SensorSample {
                kind: SensorKind::Core,
                index: i,
                name: core_label(i + 1),
                value_mc: t,
                quality: quality_for(t),
            };
            proof {
                assert(sensor@ == cores[i as int]);
                assert(sensors_view(sensors@.push(sensor)) =~= sensors_view(sensors@).push(sensor@));
                assert(cores.take(i + 1) =~= cores.take(i as int).push(cores[i as int]));
            }
            sensors.push(sensor);
            i = i + 1;
        }
        proof {
            assert(therms.take(therms.len() as int) =~= therms);
            assert(cores.take(therms.len() as int) =~= cores);
            lemma_hottest_coolest(tj_max, therms);
        }
        match Self::decode_core_value(tj_max, package_therm) {
            Some(p) => {
                let package = SensorSample {
                    kind: SensorKind::Package,
                    index: 0,
                    name: String::from_str("CPU Package"),
                    value_mc: Some(p),
                    quality: quality_for(Some(p)),
                };
                proof {
                    assert(sensors_view(sensors@.insert(0, package)) =~= seq![package@]
                        + sensors_view(sensors@));
                }
                sensors.insert(0, package);
            },
            None => {},
        }
        let derived = match (hot, cool) {
            (Some(h), Some(c)) => Derived {
                hottest_core_mc: h,
                coolest_core_mc: c,
                core_delta_mc: h - c,
            },
            _ => Derived { hottest_core_mc: 0, coolest_core_mc: 0, core_delta_mc: 0 },
        };
        (sensors, derived)
    }

    /// Reads all cores + package once. Returns sensors (package first, then cores)
    /// and the derived hottest/coolest/delta over core samples. The thermal
    /// status of each listed processor is read in order, then the package's on
    /// the first listed processor (or 0); the first failed read ends the sample
    /// with its error. On success the result is what `decode_readings` builds
    /// from the values read; either way it is `sample_outcome` of the answers.
    pub fn sample<A: HardwareAccess + ?Sized>(
        &mut self,
        access: &mut A,
        core_first_logical: &[usize],
    ) -> (r: Result<(Vec<SensorSample>, Derived), AccessError>)
        ensures
            final(self).tj_max == old(self).tj_max,
            r matches Ok(out) ==> exists|therms: Seq<u64>, package_therm: u64|
                therms.len() == core_first_logical@.len() && #[trigger] sample_sensors(
                    old(self).tj_max,
                    therms,
                    package_therm,
                ) == sensors_view(out.0@) && out.1 == derived_of(old(self).tj_max, therms),
            extends(
                old(access).msr_reads(),
                final(access).msr_reads(),
            ),
            sample_reads(
                core_first_logical@,
                reads_after(old(access).msr_reads(), final(access).msr_reads()),
            ),
            ({
                let reads = reads_after(old(access).msr_reads(), final(access).msr_reads());
                let n = core_first_logical@.len();
                match r {
                    Ok(out) => {
                        &&& reads.len() == n + 1
                        &&& reads.last().result is Ok
                        &&& sensors_view(out.0@) == sample_sensors(
                            old(self).tj_max,
                            read_values(reads.take(n as int)),
                            read_value(reads.last()),
                        )
                        &&& out.1 == derived_of(old(self).tj_max, read_values(reads.take(n as int)))
                    },
                    Err(e) => reads.len() >= 1 && reads.last().result == Err::<u64, AccessError>(e),
                }
            }),
            forall|m: u64, c: usize| #[trigger]
                final(access).fixed_reading(m, c) == old(access).fixed_reading(m, c),
            ({
                let outcome = sample_outcome(
                    old(self).tj_max,
                    read_results(reads_after(old(access).msr_reads(), final(access).msr_reads())),
                );
                match r {
                    Ok(out) => outcome == Ok::<(Seq<SensorModel>, Derived), AccessError>(
                        (sensors_view(out.0@), out.1),
                    ),
                    Err(e) => outcome == Err::<(Seq<SensorModel>, Derived), AccessError>(e),
                }
            }),
            answers_fixed(&*old(access), sample_plan(core_first_logical@)) ==> ({
                let outcome = sample_outcome(
                    old(self).tj_max,
                    fixed_answers(&*old(access), sample_plan(core_first_logical@)),
                );
                match r {
                    Ok(out) => outcome == Ok::<(Seq<SensorModel>, Derived), AccessError>(
                        (sensors_view(out.0@), out.1),
                    ),
                    Err(e) => outcome == Err::<(Seq<SensorModel>, Derived), AccessError>(e),
                }
            }),
    {
        let ghost before = access.msr_reads();
        let ghost plan = sample_plan(core_first_logical@);
        let ghost fixed = answers_fixed(&*access, plan);
        let ghost ans = fixed_answers(&*access, plan);
        proof {
            assert(before.take(before.len() as int) =~= before);
            assert(reads_after(before, before) =~= Seq::<MsrRead>::empty());
            assert(ans.take(0) =~= Seq::<Result<u64, AccessError>>::empty());
        }
        let mut therms: Vec<u64> = Vec::new();
        let mut i: usize = 0;
        while i < core_first_logical.len()
            invariant
                i <= core_first_logical@.len(),
                plan == sample_plan(core_first_logical@),
                fixed == answers_fixed(&*old(access), plan),
                ans == fixed_answers(&*old(access), plan),
                forall|m: u64, c: usize| #[trigger]
                    access.fixed_reading(m, c) == old(access).fixed_reading(m, c),
                fixed ==> forall|k: int| 0 <= k < i ==> (#[trigger] ans[k]) is Ok,
                fixed ==> therms@ == answer_values(ans.take(i as int)),
                before == old(access).msr_reads(),
                therms@.len() == i,
                extends(before, access.msr_reads()),
                reads_after(before, access.msr_reads()).len() == i,
                sample_reads(core_first_logical@, reads_after(before, access.msr_reads())),
                forall|k: int|
                    0 <= k < i ==> (#[trigger] reads_after(before, access.msr_reads())[k]).result is Ok,
                therms@ == read_values(reads_after(before, access.msr_reads())),
            decreases core_first_logical@.len() - i,
        {
            let cpu = core_first_logical[i];
            let ghost log = access.msr_reads();
            proof {
                assert(plan[i as int] == (MSR_THERM_STATUS, cpu));
                if fixed {
                    assert(access.fixed_reading(plan[i as int].0, plan[i as int].1) is Some);
                }
            }
            let read = access.read_msr(MSR_THERM_STATUS, cpu);
            proof {
                if fixed {
                    assert(read == ans[i as int]);
                }
                lemma_reads_after_push(
                    before,
                    log,
                    MsrRead { msr: MSR_THERM_STATUS, cpu, result: read },
                );
                let old_new = reads_after(before, log);
                let new = reads_after(before, access.msr_reads());
                assert forall|k: int| 0 <= k < new.len() implies sample_read_planned(
                    core_first_logical@,
                    k,
                    #[trigger] new[k],
                ) by {
                    if k < old_new.len() {
                        assert(new[k] == old_new[k]);
                    }
                }
                assert forall|k: int| 0 <= k < new.len() - 1 implies (#[trigger] new[k]).result is Ok by {
                    assert(new[k] == old_new[k]);
                }
            }
            match read {
                Ok(v) => {
                    therms.push(v);
                    proof {
                        let new = reads_after(before, access.msr_reads());
                        assert(therms@ =~= read_values(new));
                        if fixed {
                            assert(therms@ =~= answer_values(ans.take(i + 1)));
                        }
                    }
                },
                Err(e) => {
                    proof {
                        if fixed {
                            lemma_first_error_skip(ans, i as int);
                            assert(ans.skip(i as int)[0] == ans[i as int]);
                        }
                        lemma_sample_outcome_of_reads(
                            self.tj_max,
                            core_first_logical@,
                            reads_after(before, access.msr_reads()),
                        );
                    }
                    return Err(e);
                },
            }
            i = i + 1;
        }
        let first_cpu = if core_first_logical.len() > 0 {
            core_first_logical[0]
        } else {
            0
        };
        let ghost log = access.msr_reads();
        let ghost n = core_first_logical@.len() as int;
        proof {
            assert(plan[n] == (MSR_PACKAGE_THERM_STATUS, first_cpu));
            if fixed {
                assert(access.fixed_reading(plan[n].0, plan[n].1) is Some);
            }
        }
        let read = access.read_msr(MSR_PACKAGE_THERM_STATUS, first_cpu);
        proof {
            if fixed {
                assert(read == ans[n]);
            }
            let rec_read = MsrRead { msr: MSR_PACKAGE_THERM_STATUS, cpu: first_cpu, result: read };
            lemma_reads_after_push(before, log, rec_read);
            let old_new = reads_after(before, log);
            let new = reads_after(before, access.msr_reads());
            assert(new =~= old_new.push(rec_read));
            assert forall|k: int| 0 <= k < new.len() implies sample_read_planned(
                core_first_logical@,
                k,
                #[trigger] new[k],
            ) by {
                if k < old_new.len() {
                    assert(new[k] == old_new[k]);
                }
            }
            assert forall|k: int| 0 <= k < new.len() - 1 implies (#[trigger] new[k]).result is Ok by {
                assert(new[k] == old_new[k]);
            }
            assert(new.take(core_first_logical@.len() as int) =~= old_new);
            assert(new.last() == rec_read);
        }
        let package_therm = match read {
            Ok(v) => v,
            Err(e) => {
                proof {
                    if fixed {
                        lemma_first_error_skip(ans, n);
                        assert(ans.skip(n)[0] == ans[n]);
                    }
                    lemma_sample_outcome_of_reads(
                        self.tj_max,
                        core_first_logical@,
                        reads_after(before, access.msr_reads()),
                    );
                }
                return Err(e);
            },
        };
        let out = self.decode_readings(therms.as_slice(), package_therm);
        assert(sample_sensors(self.tj_max, therms@, package_therm) == sensors_view(out.0@));
        proof {
            if fixed {
                lemma_first_error_skip(ans, n + 1);
                assert(ans.skip(n + 1) =~= Seq::<Result<u64, AccessError>>::empty());
                assert(ans.drop_last() =~= ans.take(n));
            }
            lemma_sample_outcome_of_reads(
                self.tj_max,
                core_first_logical@,
                reads_after(before, access.msr_reads()),
            );
        }
        Ok(out)
    }
}

/// Law: the derived values of a sample are ordered: the hottest core is at
/// least as hot as the coolest, and the core delta is their difference, never
/// negative.
pub proof fn lemma_derived_ordered(tj_max: u8, core_therms: Seq<u64>)
    ensures
        derived_of(tj_max, core_therms).hottest_core_mc >= derived_of(
            tj_max,
            core_therms,
        ).coolest_core_mc,
        derived_of(tj_max, core_therms).core_delta_mc == derived_of(tj_max, core_therms).hottest_core_mc
            - derived_of(tj_max, core_therms).coolest_core_mc,
        derived_of(tj_max, core_therms).core_delta_mc >= 0,
{
    lemma_hottest_coolest(tj_max, core_therms);
}

/// Law: a valid thermal status value decodes to the target minus the distance
/// it carries, for every distance the 7-bit field can hold.
pub proof fn lemma_valid_therm_decodes(tj_max: u8, delta: u8)
    requires
        delta < 128,
    ensures
        decoded_temp(tj_max, valid_therm(delta)) == Some((1000 * (tj_max - delta)) as i64),
{
    assert((0x8000_0000u64 | ((delta as u64) << 16u64)) & 0x8000_0000u64 != 0) by (bit_vector);
    assert(delta < 128 ==> ((0x8000_0000u64 | ((delta as u64) << 16u64)) & 0x007F_0000u64) >> 16u64
        == delta as u64) by (bit_vector);
}

/// Law: what the mock backend answers is what the decoder reads back: its
/// temperature target is the configured one, and each core and the package
/// decode to the target minus their configured distance (distances below 128,
/// the width of the field).
pub proof fn lemma_mock_round_trip(m: MockModel, cpu: usize)
    requires
        m.open_ok,
    ensures
        mock_reading(m, MSR_TEMPERATURE_TARGET, 0) matches Ok(v) && target_of(v) == m.tj_max,
        m.package_delta < 128 ==> (mock_reading(m, MSR_PACKAGE_THERM_STATUS, cpu) matches Ok(v)
            && decoded_temp(m.tj_max, v) == Some((1000 * (m.tj_max - m.package_delta)) as i64)),
        cpu < m.per_logical_delta.len() && m.per_logical_delta[cpu as int] < 128 ==> (mock_reading(
            m,
            MSR_THERM_STATUS,
            cpu,
        ) matches Ok(v) && decoded_temp(m.tj_max, v) == Some(
            (1000 * (m.tj_max - m.per_logical_delta[cpu as int])) as i64,
        )),
{
    let tj = m.tj_max;
    assert((((tj as u64) << 16u64) >> 16u64) & 0xFFu64 == tj as u64) by (bit_vector);
    if m.package_delta < 128 {
        lemma_valid_therm_decodes(tj, m.package_delta);
    }
    if cpu < m.per_logical_delta.len() && m.per_logical_delta[cpu as int] < 128 {
        lemma_valid_therm_decodes(tj, m.per_logical_delta[cpu as int]);
    }
}

} // verus!
