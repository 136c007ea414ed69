use crate::protocol::{sensors_view, SensorKind, SensorModel, Source, Status, WorkerMessage};
use vstd::prelude::*;

verus! {

/// Processes are refreshed only every this many polls.
pub const PROCESS_REFRESH_INTERVAL: u32 = 5;

// ─────────────────────────── text helpers ───────────────────────────

/// What `str::to_lowercase` returns for a string.
pub uninterp spec fn lowercase(s: Seq<char>) -> Seq<char>;

/// `p` occurs in `s` at some position.
pub open spec fn has_substring(s: Seq<char>, p: Seq<char>) -> bool {
    exists|i: int| 0 <= i && i + p.len() <= s.len() && #[trigger] s.subrange(i, i + p.len()) == p
}

/// `s` begins with `p`.
pub open spec fn has_prefix(s: Seq<char>, p: Seq<char>) -> bool {
    p.len() <= s.len() && s.subrange(0, p.len() as int) == p
}

/// ASCII lower-casing of one character; other characters stay as they are.
pub open spec fn ascii_lower(c: char) -> char {
    if 'A' <= c && c <= 'Z' {
        ((c as u32) + 32) as char
    } else {
        c
    }
}

/// Every character of `s` is ASCII.
pub open spec fn all_ascii(s: Seq<char>) -> bool {
    forall|i: int| 0 <= i < s.len() ==> (#[trigger] s[i] as u32) < 128
}

/// `s` with each ASCII capital letter lower-cased.
pub open spec fn ascii_lowered(s: Seq<char>) -> Seq<char> {
    s.map_values(|c: char| ascii_lower(c))
}

/// Wraps `str::to_lowercase`; its result is named by `lowercase`. For ASCII
/// input the documentation fixes it: `A`..=`Z` become `a`..=`z` and every
/// other character stays as it is.
#[verifier::external_body]
fn to_lowercase(s: &str) -> (r: String)
    ensures
        r@ == lowercase(s@),
        all_ascii(s@) ==> r@ == ascii_lowered(s@),
{
    s.to_lowercase()
}

/// Wraps `str::contains` with a string pattern: whether `p` occurs in `s`.
#[verifier::external_body]
fn str_contains(s: &str, p: &str) -> (r: bool)
    ensures
        r == has_substring(s@, p@),
{
    s.contains(p)
}

/// Wraps `str::starts_with` with a string pattern: whether `s` begins with `p`.
#[verifier::external_body]
fn str_starts_with(s: &str, p: &str) -> (r: bool)
    ensures
        r == has_prefix(s@, p@),
{
    s.starts_with(p)
}

// ─────────────────────────── ACPI fallback ───────────────────────────

#[derive(Debug, Clone, Copy, PartialEq, Eq, Structural)]
pub enum LabelRole {
    /// The component reports the whole CPU package.
    Package,
    /// The component reports one CPU core.
    Core,
    /// Anything else (GPU, disks, ...).
    Other,
}

/// Role of a component by its lower-cased label: "computer", or a label with
/// "package" or "tctl", is the package; a label with "core" and without
/// "gpu" is a core.
pub open spec fn role_of_lowered(l: Seq<char>) -> LabelRole {
    if l == "computer"@ || has_substring(l, "package"@) || has_substring(l, "tctl"@) {
        LabelRole::Package
    } else if !has_substring(l, "gpu"@) && (has_substring(l, "core"@) || has_prefix(
        l,
        "core "@,
    )) {
        LabelRole::Core
    } else {
        LabelRole::Other
    }
}

/// Law: a lower-cased label that is `computer`, or that holds `package` or
/// `tctl` anywhere, is the package, whatever else it holds (a `core` or a
/// `gpu` included).
pub proof fn lemma_package_words_win(a: Seq<char>, b: Seq<char>)
    ensures
        role_of_lowered("computer"@) == LabelRole::Package,
        role_of_lowered(a + "package"@ + b) == LabelRole::Package,
        role_of_lowered(a + "tctl"@ + b) == LabelRole::Package,
{
    let p = a + "package"@ + b;
    assert(p.subrange(a.len() as int, (a.len() + "package"@.len()) as int) =~= "package"@);
    let t = a + "tctl"@ + b;
    assert(t.subrange(a.len() as int, (a.len() + "tctl"@.len()) as int) =~= "tctl"@);
}

/// Law: a lower-cased label that holds `core` is a core, unless it also
/// holds `gpu` or a package word, or is `computer`.
pub proof fn lemma_core_word_makes_core(a: Seq<char>, b: Seq<char>)
    ensures
        ({
            let l = a + "core"@ + b;
            !has_substring(l, "gpu"@) && !has_substring(l, "package"@) && !has_substring(
                l,
                "tctl"@,
            ) && l != "computer"@ ==> role_of_lowered(l) == LabelRole::Core
        }),
{
    let l = a + "core"@ + b;
    assert(l.subrange(a.len() as int, (a.len() + "core"@.len()) as int) =~= "core"@);
}

/// Law: a lower-cased label that holds `gpu` and no package word, and is
/// not `computer`, is never a core, even when it holds `core`.
pub proof fn lemma_gpu_is_other(a: Seq<char>, b: Seq<char>)
    ensures
        ({
            let l = a + "gpu"@ + b;
            !has_substring(l, "package"@) && !has_substring(l, "tctl"@) && l != "computer"@
                ==> role_of_lowered(l) == LabelRole::Other
        }),
{
    let l = a + "gpu"@ + b;
    assert(l.subrange(a.len() as int, (a.len() + "gpu"@.len()) as int) =~= "gpu"@);
}

/// Role of a component by its label, ignoring case: an ASCII label is
/// lower-cased letter by letter, any other through `str::to_lowercase`.
pub open spec fn label_role(label: Seq<char>) -> LabelRole {
    if all_ascii(label) {
        role_of_lowered(ascii_lowered(label))
    } else {
        role_of_lowered(lowercase(label))
    }
}

/// Classifies an already lower-cased component label.
pub fn role_of_lowered_label(l: &str) -> (role: LabelRole)
    ensures
        role == role_of_lowered(l@),
{
    let owned = String::from_str(l);
    let computer = String::from_str("computer");
    if owned == computer || str_contains(l, "package") || str_contains(l, "tctl") {
        LabelRole::Package
    } else if !str_contains(l, "gpu") && (str_contains(l, "core") || str_starts_with(l, "core ")) {
        LabelRole::Core
    } else {
        LabelRole::Other
    }
}

/// Classifies a temperature component by its label, ignoring case.
pub fn acpi_label_role(label: &str) -> (role: LabelRole)
    ensures
        role == label_role(label@),
{
    let lower = to_lowercase(label);
    role_of_lowered_label(lower.as_str())
}

/// Law: the component that Windows labels `Computer` (the ACPI thermal
/// zone) is taken for the CPU package.
pub proof fn lemma_computer_is_package()
    ensures
        label_role("Computer"@) == LabelRole::Package,
{
    reveal_strlit("Computer");
    reveal_strlit("computer");
    assert(all_ascii("Computer"@));
    assert(ascii_lowered("Computer"@) =~= "computer"@);
}

/// Law: a `Computer` component with a positive reading sets the package
/// temperature of the ACPI scan, whatever came before it.
pub proof fn lemma_computer_reading_sets_package(rs: Seq<(Seq<char>, Option<i64>)>, t: i64)
    requires
        t > 0,
    ensures
        acpi_scan(rs.push(("Computer"@, Some(t)))).0 == t,
        acpi_scan(rs.push(("Computer"@, Some(t)))).1 == acpi_scan(rs).1,
{
    lemma_computer_is_package();
    assert(rs.push(("Computer"@, Some(t))).drop_last() =~= rs);
}

/// A temperature component as the system lists it: its label and its
/// reading in thousandths of a degree Celsius, if it has one.
#[derive(Debug, Clone, PartialEq)]
pub struct ComponentReading {
    pub label: String,
    pub temperature_mc: Option<i64>,
}

pub open spec fn readings_view(v: Seq<ComponentReading>) -> Seq<(Seq<char>, Option<i64>)> {
    v.map_values(|r: ComponentReading| (r.label@, r.temperature_mc))
}

/// Package temperature and core temperatures gathered from the components in
/// order: readings at or below zero are skipped, a later package reading
/// replaces an earlier one, core readings are kept in order.
pub open spec fn acpi_scan(rs: Seq<(Seq<char>, Option<i64>)>) -> (i64, Seq<i64>)
    decreases rs.len(),
{
    if rs.len() == 0 {
        (0, Seq::empty())
    } else {
        let (p, cs) = acpi_scan(rs.drop_last());
        let (label, t) = rs.last();
        match t {
            Some(v) => if v <= 0 {
                (p, cs)
            } else {
                match label_role(label) {
                    LabelRole::Package => (v, cs),
                    LabelRole::Core => (p, cs.push(v)),
                    LabelRole::Other => (p, cs),
                }
            },
            None => (p, cs),
        }
    }
}

/// Law: a positive reading of a package component sets the package
/// temperature and is never counted as a core; a positive reading of a core
/// component is added to the cores and leaves the package as it was; other
/// components and readings at or below zero change nothing.
pub proof fn lemma_scan_step_by_role(rs: Seq<(Seq<char>, Option<i64>)>, label: Seq<char>, t: i64)
    ensures
        ({
            let before = acpi_scan(rs);
            let after = acpi_scan(rs.push((label, Some(t))));
            &&& t > 0 && label_role(label) == LabelRole::Package ==> after == (t, before.1)
            &&& t > 0 && label_role(label) == LabelRole::Core ==> after == (before.0, before.1.push(t))
            &&& (t <= 0 || label_role(label) == LabelRole::Other) ==> after == before
            &&& acpi_scan(rs.push((label, None))) == before
        }),
{
    assert(rs.push((label, Some(t))).drop_last() =~= rs);
    assert(rs.push((label, None::<i64>)).drop_last() =~= rs);
}

/// Largest value of a non-empty sequence.
pub open spec fn max_of(s: Seq<i64>) -> i64
    decreases s.len(),
{
    if s.len() <= 1 {
        s[0]
    } else {
        let m = max_of(s.drop_last());
        if s.last() > m {
            s.last()
        } else {
            m
        }
    }
}

/// The ACPI fallback: without a package reading, the hottest core stands in
/// for the package.
pub open spec fn acpi_result(rs: Seq<(Seq<char>, Option<i64>)>) -> (i64, Seq<i64>) {
    let (p, cs) = acpi_scan(rs);
    if p == 0 && cs.len() > 0 {
        (max_of(cs), cs)
    } else {
        (p, cs)
    }
}

proof fn lemma_scan_positive(rs: Seq<(Seq<char>, Option<i64>)>)
    ensures
        acpi_scan(rs).0 >= 0,
        forall|k: int| 0 <= k < acpi_scan(rs).1.len() ==> #[trigger] acpi_scan(rs).1[k] > 0,
    decreases rs.len(),
{
    if rs.len() > 0 {
        lemma_scan_positive(rs.drop_last());
    }
}

proof fn lemma_max_of_member(s: Seq<i64>)
    requires
        s.len() > 0,
    ensures
        exists|k: int| 0 <= k < s.len() && s[k] == max_of(s),
        forall|k: int| 0 <= k < s.len() ==> #[trigger] s[k] <= max_of(s),
    decreases s.len(),
{
    if s.len() > 1 {
        lemma_max_of_member(s.drop_last());
        let m = max_of(s.drop_last());
        let w = choose|k: int| 0 <= k < s.drop_last().len() && s.drop_last()[k] == m;
        assert(s[w] == m);
        if s.last() > m {
            assert(s[s.len() - 1] == max_of(s));
        } else {
            assert(s[w] == max_of(s));
        }
        assert forall|k: int| 0 <= k < s.len() implies #[trigger] s[k] <= max_of(s) by {
            if k < s.len() - 1 {
                assert(s[k] == s.drop_last()[k]);
            }
        }
    } else {
        assert(s[0] == max_of(s));
    }
}

/// Reads the package and core temperatures from labeled components.
pub fn acpi_temps(readings: &Vec<ComponentReading>) -> (r: (i64, Vec<i64>))
    ensures
        (r.0, r.1@) == acpi_result(readings_view(readings@)),
{
    let ghost rs = readings_view(readings@);
    let mut pkg: i64 = 0;
    let mut cores: Vec<i64> = Vec::new();
    let mut i: usize = 0;
    while i < readings.len()
        invariant
            i <= readings@.len(),
            rs == readings_view(readings@),
            (pkg, cores@) == acpi_scan(rs.take(i as int)),
        decreases readings@.len() - i,
    {
        proof {
            assert(rs.take(i + 1).drop_last() =~= rs.take(i as int));
            assert(rs.take(i + 1).last() == rs[i as int]);
        }
        let reading = &readings[i];
        match reading.temperature_mc {
            Some(t) => {
                if t > 0 {
                    match acpi_label_role(reading.label.as_str()) {
                        LabelRole::Package => {
                            pkg = t;
                        },
                        LabelRole::Core => {
                            cores.push(t);
                        },
                        LabelRole::Other => {},
                    }
                }
            },
            None => {},
        }
        i = i + 1;
    }
    proof {
        assert(rs.take(readings@.len() as int) =~= rs);
    }
    if pkg == 0 && cores.len() > 0 {
        let mut hottest = cores[0];
        let mut j: usize = 1;
        while j < cores.len()
            invariant
                1 <= j <= cores@.len(),
                hottest == max_of(cores@.take(j as int)),
            decreases cores@.len() - j,
        {
            proof {
                assert(cores@.take(j + 1).drop_last() =~= cores@.take(j as int));
                assert(cores@.take(j + 1).last() == cores@[j as int]);
            }
            if cores[j] > hottest {
                hottest = cores[j];
            }
            j = j + 1;
        }
        proof {
            assert(cores@.take(cores@.len() as int) =~= cores@);
        }
        pkg = hottest;
    }
    (pkg, cores)
}

// ─────────────────────────── source merge ───────────────────────────

/// The label of a worker temperature source.
pub open spec fn source_label(s: Source) -> Seq<char> {
    match s {
        Source::Hardware => "hardware"@,
        Source::Mock => "mock"@,
        Source::NoSource => "none"@,
    }
}

/// The latest worker message is a healthy sample.
pub open spec fn is_healthy_sample(latest: Option<WorkerMessage>) -> bool {
    latest matches Some(WorkerMessage::Sample(s)) && s.status == Status::Healthy
}

/// Package temperature of a sample: the last package sensor with a finite
/// value, or 0.
pub open spec fn package_pick(ss: Seq<SensorModel>) -> i64
    decreases ss.len(),
{
    if ss.len() == 0 {
        0
    } else if ss.last().kind == SensorKind::Package && ss.last().value_mc is Some {
        ss.last().value_mc.unwrap()
    } else {
        package_pick(ss.drop_last())
    }
}

/// A sensor that reports a finite package temperature.
pub open spec fn finite_package(m: SensorModel) -> bool {
    m.kind == SensorKind::Package && m.value_mc is Some
}

/// Law: the package temperature of a sample is the value of its last
/// package sensor with a finite reading, or 0 when it has none; core sensors
/// never supply it.
pub proof fn lemma_package_pick_is_last_package(ss: Seq<SensorModel>)
    ensures
        (forall|k: int| 0 <= k < ss.len() ==> !finite_package(#[trigger] ss[k])) ==> package_pick(ss)
            == 0,
        (exists|k: int| 0 <= k < ss.len() && finite_package(#[trigger] ss[k])) ==> exists|k: int|
            0 <= k < ss.len() && finite_package(#[trigger] ss[k]) && ss[k].value_mc == Some(
                package_pick(ss),
            ) && forall|l: int| k < l < ss.len() ==> !finite_package(#[trigger] ss[l]),
    decreases ss.len(),
{
    if ss.len() > 0 {
        let rest = ss.drop_last();
        lemma_package_pick_is_last_package(rest);
        assert forall|k: int| 0 <= k < rest.len() implies #[trigger] rest[k] == ss[k] by {}
        if finite_package(ss.last()) {
            let k = ss.len() - 1;
            assert(finite_package(ss[k]) && ss[k].value_mc == Some(package_pick(ss)));
        } else if exists|k: int| 0 <= k < ss.len() && finite_package(#[trigger] ss[k]) {
            let w = choose|k: int| 0 <= k < ss.len() && finite_package(#[trigger] ss[k]);
            assert(w < rest.len());
            assert(finite_package(rest[w]));
            let k = choose|k: int|
                0 <= k < rest.len() && finite_package(#[trigger] rest[k]) && rest[k].value_mc
                    == Some(package_pick(rest)) && forall|l: int|
                    k < l < rest.len() ==> !finite_package(#[trigger] rest[l]);
            assert(finite_package(ss[k]) && ss[k].value_mc == Some(package_pick(ss)));
            assert forall|l: int| k < l < ss.len() implies !finite_package(#[trigger] ss[l]) by {
                if l < rest.len() {
                    assert(!finite_package(rest[l]));
                }
            }
        } else {
            assert forall|k: int| 0 <= k < rest.len() implies !finite_package(#[trigger] rest[k]) by {
                assert(!finite_package(ss[k]));
            }
        }
    }
}

/// Law: the package temperature merged from a healthy sample is the value of
/// the sample's last package sensor with a finite reading, or 0 when it has
/// none; it never comes from a core sensor.
pub proof fn lemma_healthy_package_from_package_sensor(
    latest: Option<WorkerMessage>,
    acpi_pkg: i64,
    acpi_cores: Seq<i64>,
    worker_error: Option<Seq<char>>,
)
    requires
        is_healthy_sample(latest),
    ensures
        ({
            let ss = sensors_view(latest->Some_0->Sample_0.sensors@);
            let pkg = merge_model(latest, acpi_pkg, acpi_cores, worker_error).pkg_mc;
            &&& (forall|k: int| 0 <= k < ss.len() ==> !finite_package(#[trigger] ss[k])) ==> pkg
                == 0
            &&& (exists|k: int| 0 <= k < ss.len() && finite_package(#[trigger] ss[k])) ==> exists|
                k: int,
            |
                0 <= k < ss.len() && finite_package(#[trigger] ss[k]) && ss[k].value_mc == Some(pkg)
                    && forall|l: int| k < l < ss.len() ==> !finite_package(#[trigger] ss[l])
        }),
{
    lemma_package_pick_is_last_package(sensors_view(latest->Some_0->Sample_0.sensors@));
}

/// Core temperatures of a sample: the finite values of its core sensors, in
/// order.
pub open spec fn core_values(ss: Seq<SensorModel>) -> Seq<i64>
    decreases ss.len(),
{
    if ss.len() == 0 {
        Seq::empty()
    } else if ss.last().kind == SensorKind::Core && ss.last().value_mc is Some {
        core_values(ss.drop_last()).push(ss.last().value_mc.unwrap())
    } else {
        core_values(ss.drop_last())
    }
}

/// A sensor that reports a finite core temperature.
pub open spec fn finite_core(m: SensorModel) -> bool {
    m.kind == SensorKind::Core && m.value_mc is Some
}

/// Law: the core temperatures of a sample are the values of its core sensors
/// with a finite reading, in sample order, and nothing else: package sensors
/// and unreadable cores contribute nothing.
pub proof fn lemma_core_values_are_finite_cores(ss: Seq<SensorModel>)
    ensures
        core_values(ss) == ss.filter(|m: SensorModel| finite_core(m)).map_values(
            |m: SensorModel| m.value_mc.unwrap(),
        ),
    decreases ss.len(),
{
    reveal(Seq::filter);
    if ss.len() > 0 {
        lemma_core_values_are_finite_cores(ss.drop_last());
        let f = ss.drop_last().filter(|m: SensorModel| finite_core(m));
        if finite_core(ss.last()) {
            assert(f.push(ss.last()).map_values(|m: SensorModel| m.value_mc.unwrap()) =~= f.map_values(
                |m: SensorModel| m.value_mc.unwrap(),
            ).push(ss.last().value_mc.unwrap()));
        }
    } else {
        assert(ss.filter(|m: SensorModel| finite_core(m)).map_values(
            |m: SensorModel| m.value_mc.unwrap(),
        ) =~= Seq::<i64>::empty());
    }
}

/// The merged temperature source as plain values: source label, status
/// label, package temperature, core temperatures, and the worker error shown.
pub struct TempsModel {
    pub source: Seq<char>,
    pub status: Seq<char>,
    pub pkg_mc: i64,
    pub cores_mc: Seq<i64>,
    pub worker_error: Option<Seq<char>>,
}

/// A healthy worker sample wins; otherwise a positive ACPI package reading
/// is used, labeled degraded; otherwise nothing is available and the worker
/// error, if any, is passed on.
pub open spec fn merge_model(
    latest: Option<WorkerMessage>,
    acpi_pkg: i64,
    acpi_cores: Seq<i64>,
    worker_error: Option<Seq<char>>,
) -> TempsModel {
    match latest {
        Some(WorkerMessage::Sample(s)) if s.status == Status::Healthy => TempsModel {
            source: source_label(s.source),
            status: "healthy"@,
            pkg_mc: package_pick(sensors_view(s.sensors@)),
            cores_mc: core_values(sensors_view(s.sensors@)),
            worker_error: None,
        },
        _ => if acpi_pkg > 0 {
            TempsModel {
                source: "acpi"@,
                status: "degraded"@,
                pkg_mc: acpi_pkg,
                cores_mc: acpi_cores,
                worker_error: None,
            }
        } else {
            TempsModel {
                source: "none"@,
                status: "unavailable"@,
                pkg_mc: 0,
                cores_mc: Seq::empty(),
                worker_error: worker_error,
            }
        },
    }
}

pub open spec fn temps_view(r: (String, String, i64, Vec<i64>, Option<String>)) -> TempsModel {
    TempsModel {
        source: r.0@,
        status: r.1@,
        pkg_mc: r.2,
        cores_mc: r.3@,
        worker_error: match r.4 {
            Some(e) => Some(e@),
            None => None,
        },
    }
}

pub open spec fn opt_str_view(s: Option<&str>) -> Option<Seq<char>> {
    match s {
        Some(e) => Some(e@),
        None => None,
    }
}

/// Whether the latest worker message is a healthy sample, so that the ACPI
/// fallback need not be read.
pub fn worker_sample_is_healthy(latest: &Option<WorkerMessage>) -> (b: bool)
    ensures
        b == is_healthy_sample(*latest),
{
    match latest {
        Some(WorkerMessage::Sample(s)) => s.status == Status::Healthy,
        _ => false,
    }
}

/// Pure temperature-source merge. `acpi` is `(pkg_temp, core_temps)` from the
/// labeled ACPI fallback, if any. Returns `(source, status, pkg_temp,
/// core_temps, worker_error)`, temperatures in thousandths of a degree.
pub fn merge_temps(
    worker_latest: &Option<WorkerMessage>,
    acpi: (i64, Vec<i64>),
    worker_error: Option<&str>,
) -> (r: (String, String, i64, Vec<i64>, Option<String>))
    ensures
        temps_view(r) == merge_model(*worker_latest, acpi.0, acpi.1@, opt_str_view(worker_error)),
{
    if let Some(WorkerMessage::Sample(sample)) = worker_latest {
        if sample.status == Status::Healthy {
            let source = match sample.source {
                Source::Hardware => String::from_str("hardware"),
                Source::Mock => String::from_str("mock"),
                Source::NoSource => String::from_str("none"),
            };
            let ghost ss = sensors_view(sample.sensors@);
            let mut pkg_temp: i64 = 0;
            let mut core_temps: Vec<i64> = Vec::new();
            let mut i: usize = 0;
            while i < sample.sensors.len()
                invariant
                    i <= sample.sensors@.len(),
                    ss == sensors_view(sample.sensors@),
                    pkg_temp == package_pick(ss.take(i as int)),
                    core_temps@ == core_values(ss.take(i as int)),
                decreases sample.sensors@.len() - i,
            {
                proof {
                    assert(ss.take(i + 1).drop_last() =~= ss.take(i as int));
                    assert(ss.take(i + 1).last() == sample.sensors@[i as int]@);
                }
                let sensor = &sample.sensors[i];
                if sensor.kind == SensorKind::Package {
                    if let Some(value) = sensor.value_mc {
                        pkg_temp = value;
                    }
                } else if sensor.kind == SensorKind::Core {
                    if let Some(value) = sensor.value_mc {
                        core_temps.push(value);
                    }
                }
                i = i + 1;
            }
            proof {
                assert(ss.take(ss.len() as int) =~= ss);
            }
            return (source, String::from_str("healthy"), pkg_temp, core_temps, None);
        }
    }
    let (acpi_pkg, acpi_cores) = acpi;
    if acpi_pkg > 0 {
        return (
            String::from_str("acpi"),
            String::from_str("degraded"),
            acpi_pkg,
            acpi_cores,
            None,
        );
    }
    let shown_error = match worker_error {
        Some(e) => Some(String::from_str(e)),
        None => None,
    };
    (String::from_str("none"), String::from_str("unavailable"), 0, Vec::new(), shown_error)
}

/// Law: with a healthy worker sample the ACPI readings and the worker error
/// play no part in the result, so the ACPI fallback need not be read at all.
pub proof fn lemma_healthy_ignores_fallback(
    latest: Option<WorkerMessage>,
    pkg_a: i64,
    cores_a: Seq<i64>,
    error_a: Option<Seq<char>>,
    pkg_b: i64,
    cores_b: Seq<i64>,
    error_b: Option<Seq<char>>,
)
    requires
        is_healthy_sample(latest),
    ensures
        merge_model(latest, pkg_a, cores_a, error_a) == merge_model(latest, pkg_b, cores_b, error_b),
        merge_model(latest, pkg_a, cores_a, error_a).status == "healthy"@,
        merge_model(latest, pkg_a, cores_a, error_a).worker_error is None,
{
}

/// Law: without a healthy worker sample, a positive ACPI package reading is
/// shown as it is, with the ACPI core readings, labeled `acpi` and
/// `degraded`; otherwise nothing is shown but the worker error.
pub proof fn lemma_fallback_order(
    latest: Option<WorkerMessage>,
    acpi_pkg: i64,
    acpi_cores: Seq<i64>,
    worker_error: Option<Seq<char>>,
)
    requires
        !is_healthy_sample(latest),
    ensures
        acpi_pkg > 0 ==> merge_model(latest, acpi_pkg, acpi_cores, worker_error) == (TempsModel {
            source: "acpi"@,
            status: "degraded"@,
            pkg_mc: acpi_pkg,
            cores_mc: acpi_cores,
            worker_error: None,
        }),
        acpi_pkg <= 0 ==> merge_model(latest, acpi_pkg, acpi_cores, worker_error) == (TempsModel {
            source: "none"@,
            status: "unavailable"@,
            pkg_mc: 0,
            cores_mc: Seq::empty(),
            worker_error: worker_error,
        }),
{
}

/// Law: a worker error is only ever shown when no temperature source is
/// available at all, and then the temperatures are zero and empty.
pub proof fn lemma_error_only_when_unavailable(
    latest: Option<WorkerMessage>,
    acpi_pkg: i64,
    acpi_cores: Seq<i64>,
    worker_error: Option<Seq<char>>,
)
    ensures
        merge_model(latest, acpi_pkg, acpi_cores, worker_error).worker_error is Some ==> {
            &&& merge_model(latest, acpi_pkg, acpi_cores, worker_error).status == "unavailable"@
            &&& merge_model(latest, acpi_pkg, acpi_cores, worker_error).source == "none"@
            &&& merge_model(latest, acpi_pkg, acpi_cores, worker_error).pkg_mc == 0
            &&& merge_model(latest, acpi_pkg, acpi_cores, worker_error).cores_mc.len() == 0
        },
        !is_healthy_sample(latest) && acpi_pkg <= 0 ==> merge_model(
            latest,
            acpi_pkg,
            acpi_cores,
            worker_error,
        ).worker_error == worker_error,
{
}

/// Law: without a healthy sample the ACPI fallback is used exactly when its
/// package reading is positive, labeled "acpi" and "degraded".
pub proof fn lemma_degraded_means_acpi(
    latest: Option<WorkerMessage>,
    acpi_pkg: i64,
    acpi_cores: Seq<i64>,
    worker_error: Option<Seq<char>>,
)
    requires
        !is_healthy_sample(latest),
    ensures
        (merge_model(latest, acpi_pkg, acpi_cores, worker_error).status == "degraded"@) == (acpi_pkg
            > 0),
        acpi_pkg > 0 ==> merge_model(latest, acpi_pkg, acpi_cores, worker_error).source == "acpi"@
            && merge_model(latest, acpi_pkg, acpi_cores, worker_error).pkg_mc == acpi_pkg
            && merge_model(latest, acpi_pkg, acpi_cores, worker_error).cores_mc == acpi_cores,
{
    reveal_strlit("degraded");
    reveal_strlit("unavailable");
    assert("unavailable"@.len() != "degraded"@.len());
}

/// Law: the ACPI fallback reports no negative temperature, only positive
/// core readings, and whenever it found a core reading its package reading
/// is positive and at least as hot as every core when no package sensor was
/// found.
pub proof fn lemma_acpi_fallback_positive(rs: Seq<(Seq<char>, Option<i64>)>)
    ensures
        acpi_result(rs).0 >= 0,
        forall|k: int| 0 <= k < acpi_result(rs).1.len() ==> #[trigger] acpi_result(rs).1[k] > 0,
        acpi_result(rs).1.len() > 0 ==> acpi_result(rs).0 > 0,
        acpi_scan(rs).0 == 0 ==> forall|k: int|
            0 <= k < acpi_result(rs).1.len() ==> #[trigger] acpi_result(rs).1[k] <= acpi_result(rs).0,
{
    lemma_scan_positive(rs);
    let cs = acpi_scan(rs).1;
    if cs.len() > 0 {
        lemma_max_of_member(cs);
        assert(cs[0] > 0);
    }
}

// ─────────────────────────── poll bookkeeping ───────────────────────────

/// Counts one poll and says whether processes are refreshed on it: on every
/// poll whose new count leaves remainder 2 when divided by
/// `PROCESS_REFRESH_INTERVAL`, so the first refresh lands on the second poll.
pub fn process_refresh_due(poll_count: u32) -> (r: (u32, bool))
    requires
        poll_count < u32::MAX,
    ensures
        r.0 == poll_count + 1,
        r.1 == ((poll_count + 1) % (PROCESS_REFRESH_INTERVAL as int) == 2),
{
    let count = poll_count + 1;
    (count, count % PROCESS_REFRESH_INTERVAL == 2)
}

/// Spread between the hottest and the coolest core, in thousandths of a
/// degree; 0 with fewer than two cores.
pub open spec fn core_spread(temps: Seq<i64>) -> int {
    if temps.len() > 1 {
        max_of(temps) - min_of(temps)
    } else {
        0
    }
}

/// Smallest value of a non-empty sequence.
pub open spec fn min_of(s: Seq<i64>) -> i64
    decreases s.len(),
{
    if s.len() <= 1 {
        s[0]
    } else {
        let m = min_of(s.drop_last());
        if s.last() < m {
            s.last()
        } else {
            m
        }
    }
}

proof fn lemma_min_le_max(s: Seq<i64>)
    requires
        s.len() > 0,
    ensures
        min_of(s) <= max_of(s),
    decreases s.len(),
{
    if s.len() > 1 {
        lemma_min_le_max(s.drop_last());
    }
}

proof fn lemma_min_of_member(s: Seq<i64>)
    requires
        s.len() > 0,
    ensures
        exists|k: int| 0 <= k < s.len() && s[k] == min_of(s),
        forall|k: int| 0 <= k < s.len() ==> #[trigger] s[k] >= min_of(s),
    decreases s.len(),
{
    if s.len() > 1 {
        lemma_min_of_member(s.drop_last());
        let m = min_of(s.drop_last());
        let w = choose|k: int| 0 <= k < s.drop_last().len() && s.drop_last()[k] == m;
        assert(s[w] == m);
        if s.last() < m {
            assert(s[s.len() - 1] == min_of(s));
        } else {
            assert(s[w] == min_of(s));
        }
        assert forall|k: int| 0 <= k < s.len() implies #[trigger] s[k] >= min_of(s) by {
            if k < s.len() - 1 {
                assert(s[k] == s.drop_last()[k]);
            }
        }
    } else {
        assert(s[0] == min_of(s));
    }
}

/// Law: with two or more cores the core delta is the widest gap between two
/// readings, whatever their order: no reading exceeds another by more than
/// the delta, and some reading exceeds another by exactly the delta. With
/// fewer than two cores it is 0.
pub proof fn lemma_core_spread_is_widest_gap(temps: Seq<i64>)
    ensures
        temps.len() <= 1 ==> core_spread(temps) == 0,
        temps.len() > 1 ==> forall|i: int, j: int|
            #![trigger temps[i], temps[j]]
            0 <= i < temps.len() && 0 <= j < temps.len() ==> core_spread(temps) >= temps[i]
                - temps[j],
        temps.len() > 1 ==> exists|i: int, j: int|
            #![trigger temps[i], temps[j]]
            0 <= i < temps.len() && 0 <= j < temps.len() && core_spread(temps) == temps[i]
                - temps[j],
{
    if temps.len() > 1 {
        lemma_max_of_member(temps);
        lemma_min_of_member(temps);
        let hi = choose|k: int| 0 <= k < temps.len() && temps[k] == max_of(temps);
        let lo = choose|k: int| 0 <= k < temps.len() && temps[k] == min_of(temps);
        assert(core_spread(temps) == temps[hi] - temps[lo]);
        assert forall|i: int, j: int|
            0 <= i < temps.len() && 0 <= j < temps.len() implies core_spread(temps) >= #[trigger] temps[i]
                - #[trigger] temps[j] by {
            assert(temps[i] <= max_of(temps));
            assert(temps[j] >= min_of(temps));
        }
    }
}

/// Core delta: hottest minus coolest core over the core temperatures.
pub fn core_delta_mc(temps: &[i64]) -> (d: u64)
    ensures
        d == core_spread(temps@),
{
    if temps.len() <= 1 {
        return 0;
    }
    let mut hot = temps[0];
    let mut cool = temps[0];
    let mut i: usize = 1;
    while i < temps.len()
        invariant
            1 <= i <= temps@.len(),
            hot == max_of(temps@.take(i as int)),
            cool == min_of(temps@.take(i as int)),
        decreases temps@.len() - i,
    {
        proof {
            assert(temps@.take(i + 1).drop_last() =~= temps@.take(i as int));
            assert(temps@.take(i + 1).last() == temps@[i as int]);
        }
        if temps[i] > hot {
            hot = temps[i];
        }
        if temps[i] < cool {
            cool = temps[i];
        }
        i = i + 1;
    }
    proof {
        assert(temps@.take(temps@.len() as int) =~= temps@);
        lemma_min_le_max(temps@);
    }
    (hot as i128 - cool as i128) as u64
}

/// Sum of the first components of a list of pairs.
pub open spec fn sum_firsts(v: Seq<(u64, u64)>) -> int
    decreases v.len(),
{
    if v.len() == 0 {
        0
    } else {
        sum_firsts(v.drop_last()) + v.last().0
    }
}

/// Sum of the second components of a list of pairs.
pub open spec fn sum_seconds(v: Seq<(u64, u64)>) -> int
    decreases v.len(),
{
    if v.len() == 0 {
        0
    } else {
        sum_seconds(v.drop_last()) + v.last().1
    }
}

proof fn lemma_sums_grow(v: Seq<(u64, u64)>, i: int)
    requires
        0 <= i <= v.len(),
    ensures
        sum_firsts(v.take(i)) <= sum_firsts(v),
        sum_seconds(v.take(i)) <= sum_seconds(v),
    decreases v.len() - i,
{
    if i < v.len() {
        lemma_sums_grow(v, i + 1);
        assert(v.take(i + 1).drop_last() =~= v.take(i));
    } else {
        assert(v.take(i) =~= v);
    }
}

/// Disk space over all disks given as `(total, available)` bytes: the total
/// and the used space, which is the total minus the available space, or 0
/// when more is available than the total.
pub fn disk_totals(disks: &[(u64, u64)]) -> (r: (u64, u64))
    requires
        sum_firsts(disks@) <= u64::MAX,
        sum_seconds(disks@) <= u64::MAX,
    ensures
        r.0 == sum_firsts(disks@),
        r.1 == (if sum_firsts(disks@) >= sum_seconds(disks@) {
            sum_firsts(disks@) - sum_seconds(disks@)
        } else {
            0
        }),
{
    let mut total: u64 = 0;
    let mut avail: u64 = 0;
    let mut i: usize = 0;
    while i < disks.len()
        invariant
            i <= disks@.len(),
            sum_firsts(disks@) <= u64::MAX,
            sum_seconds(disks@) <= u64::MAX,
            total == sum_firsts(disks@.take(i as int)),
            avail == sum_seconds(disks@.take(i as int)),
        decreases disks@.len() - i,
    {
        proof {
            assert(disks@.take(i + 1).drop_last() =~= disks@.take(i as int));
            assert(disks@.take(i + 1).last() == disks@[i as int]);
            lemma_sums_grow(disks@, i + 1);
        }
        total = total + disks[i].0;
        avail = avail + disks[i].1;
        i = i + 1;
    }
    proof {
        assert(disks@.take(disks@.len() as int) =~= disks@);
    }
    (total, total.saturating_sub(avail))
}

// ─────────────────────────── top processes ───────────────────────────

/// How many processes the payload lists.
pub const TOP_PROCESS_COUNT: usize = 5;

/// `picked` lists the positions of the `n` largest keys (all of them when
/// there are fewer), each once, largest first; every key left out is at most
/// every key picked. Among equal keys any may be picked.
pub open spec fn is_top_pick(keys: Seq<u32>, n: nat, picked: Seq<usize>) -> bool {
    &&& picked.len() == (if n < keys.len() {
        n
    } else {
        keys.len()
    })
    &&& forall|i: int| 0 <= i < picked.len() ==> #[trigger] picked[i] < keys.len()
    &&& forall|i: int, j: int| 0 <= i < j < picked.len() ==> picked[i] != picked[j]
    &&& forall|i: int, j: int|
        0 <= i < j < picked.len() ==> keys[#[trigger] picked[i] as int] >= keys[#[trigger] picked[j] as int]
    &&& forall|k: int, i: int|
        0 <= k < keys.len() && !picked.contains(k as usize) && 0 <= i < picked.len() ==> #[trigger] keys[k]
            <= keys[#[trigger] picked[i] as int]
}

/// Number of `true` flags.
pub open spec fn count_true(flags: Seq<bool>) -> nat
    decreases flags.len(),
{
    if flags.len() == 0 {
        0
    } else {
        count_true(flags.drop_last()) + (if flags.last() {
            1nat
        } else {
            0nat
        })
    }
}

proof fn lemma_count_true_all(flags: Seq<bool>)
    requires
        forall|k: int| 0 <= k < flags.len() ==> #[trigger] flags[k],
    ensures
        count_true(flags) == flags.len(),
    decreases flags.len(),
{
    if flags.len() > 0 {
        lemma_count_true_all(flags.drop_last());
    }
}

proof fn lemma_count_true_set(flags: Seq<bool>, b: int)
    requires
        0 <= b < flags.len(),
        !flags[b],
    ensures
        count_true(flags.update(b, true)) == count_true(flags) + 1,
    decreases flags.len(),
{
    let u = flags.update(b, true);
    if b < flags.len() - 1 {
        assert(u.drop_last() =~= flags.drop_last().update(b, true));
        lemma_count_true_set(flags.drop_last(), b);
    } else {
        assert(u.drop_last() =~= flags.drop_last());
    }
}

/// Positions of the `n` largest keys, largest first (a selection of the top
/// `n` by repeated maximum).
pub fn top_by_key(keys: &[u32], n: usize) -> (picked: Vec<usize>)
    ensures
        is_top_pick(keys@, n as nat, picked@),
{
    let len = keys.len();
    let mut taken: Vec<bool> = Vec::new();
    let mut t: usize = 0;
    while t < len
        invariant
            t <= len,
            len == keys@.len(),
            taken@.len() == t,
            forall|k: int| 0 <= k < t ==> !#[trigger] taken@[k],
        decreases len - t,
    {
        taken.push(false);
        t = t + 1;
    }
    proof {
        assert(count_true(taken@) == 0) by {
            lemma_count_true_zero(taken@);
        }
    }
    let mut picked: Vec<usize> = Vec::new();
    while picked.len() < n && picked.len() < len
        invariant
            len == keys@.len(),
            taken@.len() == len,
            picked@.len() <= n,
            picked@.len() <= len,
            count_true(taken@) == picked@.len(),
            forall|k: int| 0 <= k < len ==> (#[trigger] taken@[k] <==> picked@.contains(k as usize)),
            forall|i: int| 0 <= i < picked@.len() ==> #[trigger] picked@[i] < len,
            forall|i: int, j: int| 0 <= i < j < picked@.len() ==> picked@[i] != picked@[j],
            forall|i: int, j: int|
                0 <= i < j < picked@.len() ==> keys@[#[trigger] picked@[i] as int] >= keys@[#[trigger] picked@[j] as int],
            forall|k: int, i: int|
                0 <= k < len && !taken@[k] && 0 <= i < picked@.len() ==> #[trigger] keys@[k]
                    <= keys@[#[trigger] picked@[i] as int],
        decreases len - picked@.len(),
    {
        let mut best: Option<usize> = None;
        let mut j: usize = 0;
        while j < len
            invariant
                j <= len,
                len == keys@.len(),
                taken@.len() == len,
                match best {
                    Some(b) => b < j && !taken@[b as int] && forall|k: int|
                        0 <= k < j && !taken@[k] ==> #[trigger] keys@[k] <= keys@[b as int],
                    None => forall|k: int| 0 <= k < j ==> #[trigger] taken@[k],
                },
            decreases len - j,
        {
            if !taken[j] {
                match best {
                    Some(b) => {
                        if keys[j] > keys[b] {
                            best = Some(j);
                        }
                    },
                    None => {
                        best = Some(j);
                    },
                }
            }
            j = j + 1;
        }
        match best {
            None => {
                proof {
                    lemma_count_true_all(taken@);
                }
                assert(false);
                return picked;
            },
            Some(b) => {
                proof {
                    lemma_count_true_set(taken@, b as int);
                }
                let ghost old_picked = picked@;
                let ghost old_taken = taken@;
                taken.set(b, true);
                picked.push(b);
                proof {
                    assert forall|k: int| 0 <= k < len implies (#[trigger] taken@[k] <==> picked@.contains(
                        k as usize,
                    )) by {
                        if k == b {
                            assert(picked@[old_picked.len() as int] == b);
                        } else {
                            if picked@.contains(k as usize) {
                                let w = choose|w: int| 0 <= w < picked@.len() && picked@[w] == k as usize;
                                assert(w < old_picked.len());
                                assert(old_picked[w] == k as usize);
                            }
                            if old_picked.contains(k as usize) {
                                let w = choose|w: int| 0 <= w < old_picked.len() && old_picked[w] == k as usize;
                                assert(picked@[w] == k as usize);
                            }
                        }
                    }
                    assert forall|i: int, j2: int| 0 <= i < j2 < picked@.len() implies picked@[i] != picked@[j2] by {
                        if j2 == old_picked.len() {
                            assert(old_taken[old_picked[i] as int]);
                        }
                    }
                    assert forall|i: int, j2: int|
                        0 <= i < j2 < picked@.len() implies keys@[#[trigger] picked@[i] as int] >= keys@[#[trigger] picked@[j2] as int] by {
                        if j2 == old_picked.len() {
                            assert(!old_taken[b as int]);
                        }
                    }
                    assert forall|k: int, i: int|
                        0 <= k < len && !taken@[k] && 0 <= i < picked@.len() implies #[trigger] keys@[k]
                        <= keys@[#[trigger] picked@[i] as int] by {
                        assert(!old_taken[k]);
                        if i == old_picked.len() {
                            assert(picked@[i] == b);
                        }
                    }
                }
            },
        }
    }
    proof {
        assert forall|k: int, i: int|
            0 <= k < keys@.len() && !picked@.contains(k as usize) && 0 <= i < picked@.len() implies #[trigger] keys@[k]
            <= keys@[#[trigger] picked@[i] as int] by {
            assert(!taken@[k]);
        }
        if picked@.len() < n {
            assert(picked@.len() == len);
        }
    }
    picked
}

proof fn lemma_count_true_zero(flags: Seq<bool>)
    requires
        forall|k: int| 0 <= k < flags.len() ==> !#[trigger] flags[k],
    ensures
        count_true(flags) == 0,
    decreases flags.len(),
{
    if flags.len() > 0 {
        lemma_count_true_zero(flags.drop_last());
    }
}

/// The name a process is listed under: its own, or "Unknown" when empty.
pub fn process_display_name(name: String) -> (shown: String)
    ensures
        shown@ == (if name@.len() == 0 {
            "Unknown"@
        } else {
            name@
        }),
{
    if name.as_str().is_empty() {
        String::from_str("Unknown")
    } else {
        name
    }
}

} // verus!
