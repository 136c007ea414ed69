use crate::hardware_access::{AccessError, HardwareAccess, MsrRead};
use vstd::prelude::*;

verus! {

pub const MSR_TEMPERATURE_TARGET: u64 = 0x1A2;

pub const MSR_THERM_STATUS: u64 = 0x19C;

pub const MSR_PACKAGE_THERM_STATUS: u64 = 0x1B1;

/// A backend that answers MSR reads from fixed values: a temperature target
/// and per-processor and package distances below it.
#[derive(Clone)]
pub struct MockHardware {
    open_ok: bool,
    tj_max: u8,
    per_logical_delta: Vec<u8>,
    package_delta: u8,
    reads: Ghost<Seq<MsrRead>>,
}

pub struct MockModel {
    pub open_ok: bool,
    pub tj_max: u8,
    pub per_logical_delta: Seq<u8>,
    pub package_delta: u8,
}

impl View for MockHardware {
    type V = MockModel;

    closed spec fn view(&self) -> MockModel {
        MockModel {
            open_ok: self.open_ok,
            tj_max: self.tj_max,
            per_logical_delta: self.per_logical_delta@,
            package_delta: self.package_delta,
        }
    }
}

/// The thermal status value with the valid bit set and the given distance
/// below the temperature target in bits 16 and up.
pub open spec fn valid_therm(delta: u8) -> u64 {
    0x8000_0000u64 | ((delta as u64) << 16u64)
}

/// What the mock answers to a read of `msr` on processor `cpu`.
pub open spec fn mock_reading(m: MockModel, msr: u64, cpu: usize) -> Result<u64, AccessError> {
    if !m.open_ok {
        Err(AccessError::DriverUnavailable)
    } else if msr == MSR_TEMPERATURE_TARGET {
        Ok((m.tj_max as u64) << 16u64)
    } else if msr == MSR_THERM_STATUS {
        if cpu < m.per_logical_delta.len() {
            Ok(valid_therm(m.per_logical_delta[cpu as int]))
        } else {
            Err(AccessError::MsrFailed)
        }
    } else if msr == MSR_PACKAGE_THERM_STATUS {
        Ok(valid_therm(m.package_delta))
    } else {
        Err(AccessError::MsrFailed)
    }
}

impl MockHardware {
    pub fn new(tj_max: u8, per_logical_delta: Vec<u8>, package_delta: u8) -> (m: Self)
        ensures
            m@ == (MockModel {
                open_ok: true,
                tj_max,
                per_logical_delta: per_logical_delta@,
                package_delta,
            }),
    {
        Self { open_ok: true, tj_max, per_logical_delta, package_delta, reads: Ghost(Seq::empty()) }
    }

    pub fn unavailable(self) -> (m: Self)
        ensures
            m@ == (MockModel { open_ok: false, ..self@ }),
    {
        let mut m = self;
        m.open_ok = false;
        m
    }
}

impl MockHardware {
    fn reading(&self, msr: u64, logical_cpu: usize) -> (r: Result<u64, AccessError>)
        ensures
            r == mock_reading(self@, msr, logical_cpu),
    {
        if !self.open_ok {
            return Err(AccessError::DriverUnavailable);
        }
        if msr == MSR_TEMPERATURE_TARGET {
            Ok((self.tj_max as u64) << 16)
        } else if msr == MSR_THERM_STATUS {
            if logical_cpu < self.per_logical_delta.len() {
                let delta = self.per_logical_delta[logical_cpu];
                Ok(0x8000_0000u64 | ((delta as u64) << 16))
            } else {
                Err(AccessError::MsrFailed)
            }
        } else if msr == MSR_PACKAGE_THERM_STATUS {
            Ok(0x8000_0000u64 | ((self.package_delta as u64) << 16))
        } else {
            Err(AccessError::MsrFailed)
        }
    }
}

impl HardwareAccess for MockHardware {
    open spec fn fixed_reading(&self, msr: u64, cpu: usize) -> Option<Result<u64, AccessError>> {
        Some(mock_reading(self@, msr, cpu))
    }

    closed spec fn msr_reads(&self) -> Seq<MsrRead> {
        self.reads@
    }

    fn name(&self) -> (n: &'static str)
        ensures
            n@ == "mock"@,
    {
        "mock"
    }

    fn open(&mut self) -> (r: Result<(), AccessError>)
        ensures
            final(self)@ == old(self)@,
            r == (if old(self)@.open_ok {
                Ok(())
            } else {
                Err(AccessError::DriverUnavailable)
            }),
    {
        if self.open_ok {
            Ok(())
        } else {
            Err(AccessError::DriverUnavailable)
        }
    }

    fn is_available(&self) -> (b: bool)
        ensures
            b == self@.open_ok,
    {
        self.open_ok
    }

    fn read_msr(&mut self, msr: u64, logical_cpu: usize) -> (r: Result<u64, AccessError>)
        ensures
            final(self)@ == old(self)@,
            r == mock_reading(old(self)@, msr, logical_cpu),
    {
        let r = self.reading(msr, logical_cpu);
        self.reads = Ghost(self.reads@.push(MsrRead { msr, cpu: logical_cpu, result: r }));
        r
    }

    fn close(&mut self)
        ensures
            final(self)@ == old(self)@,
    {
    }
}

} // verus!
