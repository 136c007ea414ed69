use std::time::{Duration, UNIX_EPOCH};
use vstd::prelude::*;

verus! {

/// Version of the line protocol between the sensor worker and the app.
pub const PROTOCOL_VERSION: u32 = 1;

#[derive(Debug, Clone, Copy, PartialEq, Eq, Structural)]
pub enum Source {
    Hardware,
    Mock,
    /// No temperature source (named `none` on the wire).
    NoSource,
}

#[derive(Debug, Clone, Copy, PartialEq, Eq, Structural)]
pub enum Status {
    Healthy,
    Degraded,
    Unavailable,
}

#[derive(Debug, Clone, Copy, PartialEq, Eq, Structural)]
pub enum Quality {
    Valid,
    Suspicious,
    Invalid,
}

#[derive(Debug, Clone, Copy, PartialEq, Eq, Structural)]
pub enum SensorKind {
    Package,
    Core,
}

/// One temperature sensor reading. Temperatures are held in thousandths of a
/// degree Celsius; `None` stands for a reading that is not a finite number.
#[derive(Debug, Clone, PartialEq)]
pub struct SensorSample {
    pub kind: SensorKind,
    pub index: usize,
    pub name: String,
    pub value_mc: Option<i64>,
    pub quality: Quality,
}

/// A sensor reading as plain values.
pub struct SensorModel {
    pub kind: SensorKind,
    pub index: usize,
    pub name: Seq<char>,
    pub value_mc: Option<i64>,
    pub quality: Quality,
}

impl View for SensorSample {
    type V = SensorModel;

    open spec fn view(&self) -> SensorModel {
        SensorModel {
            kind: self.kind,
            index: self.index,
            name: self.name@,
            value_mc: self.value_mc,
            quality: self.quality,
        }
    }
}

pub open spec fn sensors_view(v: Seq<SensorSample>) -> Seq<SensorModel> {
    v.map_values(|s: SensorSample| s@)
}

#[derive(Debug, Clone, PartialEq)]
pub struct CpuInfo {
    pub vendor: String,
    pub family: u32,
    pub model: u32,
    pub cores: usize,
    pub threads: usize,
}

/// Hottest and coolest core temperature and their difference, in thousandths
/// of a degree Celsius.
#[derive(Debug, Clone, Copy, PartialEq, Eq, Structural)]
pub struct Derived {
    pub hottest_core_mc: i64,
    pub coolest_core_mc: i64,
    pub core_delta_mc: i64,
}

#[derive(Debug, Clone, PartialEq)]
pub struct SampleEnvelope {
    pub protocol: u32,
    pub timestamp_ms: u64,
    pub status: Status,
    pub source: Source,
    pub cpu: CpuInfo,
    pub sensors: Vec<SensorSample>,
    pub derived: Derived,
}

#[derive(Debug, Clone, Copy, PartialEq, Eq, Structural)]
pub enum ErrorCode {
    DriverUnavailable,
    ModuleMissing,
    MsrFailed,
    TopologyFailed,
    Internal,
}

#[derive(Debug, Clone, PartialEq)]
pub struct ErrorDetail {
    pub code: ErrorCode,
    pub message: String,
}

#[derive(Debug, Clone, PartialEq)]
pub struct ErrorEnvelope {
    pub protocol: u32,
    pub timestamp_ms: u64,
    pub status: Status,
    pub source: Source,
    pub error: ErrorDetail,
}

#[derive(Debug, Clone, PartialEq)]
pub enum WorkerMessage {
    Sample(SampleEnvelope),
    Error(ErrorEnvelope),
}

/// What `Duration::as_millis` returns for a duration: its whole milliseconds.
pub uninterp spec fn duration_as_millis(d: Duration) -> u128;

/// Wraps `SystemTime::elapsed` on the Unix epoch: the time the system clock
/// reads past the epoch, or `None` when it reads earlier. The result rests on
/// the clock, so nothing is claimed of it.
#[verifier::external_body]
fn time_since_unix_epoch() -> Option<Duration> {
    UNIX_EPOCH.elapsed().ok()
}

/// Wraps `Duration::as_millis`; the result is named by `duration_as_millis`.
#[verifier::external_body]
fn whole_millis(d: &Duration) -> (ms: u128)
    ensures
        ms == duration_as_millis(*d),
{
    d.as_millis()
}

/// The timestamp of a clock reading given as whole milliseconds since the
/// Unix epoch: that count cut to 64 bits, or 0 when the clock read before the
/// epoch (`None`).
pub fn timestamp_ms(elapsed_ms: Option<u128>) -> (ms: u64)
    ensures
        ms == (match elapsed_ms {
            Some(m) => m as u64,
            None => 0u64,
        }),
{
    match elapsed_ms {
        Some(m) => m as u64,
        None => 0,
    }
}

/// Milliseconds since the Unix epoch by the system clock, or 0 when the clock
/// reads before the epoch. The clock is read here, so no value is promised.
pub fn now_ms() -> u64 {
    let elapsed_ms = match time_since_unix_epoch() {
        Some(d) => Some(whole_millis(&d)),
        None => None,
    };
    timestamp_ms(elapsed_ms)
}

} // verus!
