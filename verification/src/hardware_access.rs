use crate::protocol::ErrorCode;
use vstd::prelude::*;

verus! {

#[derive(Debug, Clone, Copy, PartialEq, Eq, Structural)]
pub enum AccessError {
    DriverUnavailable,
    ModuleMissing,
    MsrFailed,
    TopologyFailed,
    Internal,
}

/// The protocol error code that reports an access error.
pub open spec fn error_code_of(e: AccessError) -> ErrorCode {
    match e {
        AccessError::DriverUnavailable => ErrorCode::DriverUnavailable,
        AccessError::ModuleMissing => ErrorCode::ModuleMissing,
        AccessError::MsrFailed => ErrorCode::MsrFailed,
        AccessError::TopologyFailed => ErrorCode::TopologyFailed,
        AccessError::Internal => ErrorCode::Internal,
    }
}

impl AccessError {
    pub fn code(&self) -> (c: ErrorCode)
        ensures
            c == error_code_of(*self),
    {
        match self {
            AccessError::DriverUnavailable => ErrorCode::DriverUnavailable,
            AccessError::ModuleMissing => ErrorCode::ModuleMissing,
            AccessError::MsrFailed => ErrorCode::MsrFailed,
            AccessError::TopologyFailed => ErrorCode::TopologyFailed,
            AccessError::Internal => ErrorCode::Internal,
        }
    }
}

/// One MSR read through a backend: the register, the logical processor, and
/// what the backend answered.
#[derive(Debug, Clone, Copy, PartialEq, Eq)]
pub struct MsrRead {
    pub msr: u64,
    pub cpu: usize,
    pub result: Result<u64, AccessError>,
}

/// A backend that reads model-specific registers. Readings of the hardware
/// are not known ahead, so what a read answers is not promised here in
/// general. A backend whose answers are fixed in advance says so with
/// `fixed_reading`: a read then answers what it gives, and reads never change
/// it. Every backend accounts for its reads in the ghost record `msr_reads`:
/// each read is recorded, in order, with its register, its processor and its
/// answer, so that what a caller computes can be stated over the answers it
/// got.
pub trait HardwareAccess {
    /// What a read of `msr` on processor `cpu` answers, when this backend fixes
    /// that answer in advance; `None` when the answer is not known ahead.
    open spec fn fixed_reading(&self, msr: u64, cpu: usize) -> Option<Result<u64, AccessError>> {
        None
    }

    /// Every MSR read made through this backend so far, oldest first.
    spec fn msr_reads(&self) -> Seq<MsrRead>;

    fn name(&self) -> &'static str;

    fn open(&mut self) -> Result<(), AccessError>;

    fn is_available(&self) -> bool;

    /// Reads a 64-bit MSR on the given logical processor. The implementation is
    /// responsible for pinning the calling thread to that processor first.
    fn read_msr(&mut self, msr: u64, logical_cpu: usize) -> (r: Result<u64, AccessError>)
        ensures
            old(self).fixed_reading(msr, logical_cpu) matches Some(a) ==> r == a,
            forall|m: u64, c: usize| #[trigger]
                final(self).fixed_reading(m, c) == old(self).fixed_reading(m, c),
            final(self).msr_reads() == old(self).msr_reads().push(
                MsrRead { msr, cpu: logical_cpu, result: r },
            ),
    ;

    fn close(&mut self);
}

/// A register reader as a platform driver provides it: the calls of a
/// backend, with nothing known of what they answer. `Recorded` makes one a
/// `HardwareAccess` backend.
pub trait MsrDevice {
    fn name(&self) -> &'static str;

    fn open(&mut self) -> Result<(), AccessError>;

    fn is_available(&self) -> bool;

    /// Reads a 64-bit MSR on the given logical processor, pinning the calling
    /// thread to that processor first.
    fn read_msr(&mut self, msr: u64, logical_cpu: usize) -> Result<u64, AccessError>;

    fn close(&mut self);
}

/// A device used as a backend: every call is passed on to it, and each read
/// is recorded with its answer.
pub struct Recorded<D: MsrDevice> {
    device: D,
    reads: Ghost<Seq<MsrRead>>,
}

impl<D: MsrDevice> Recorded<D> {
    /// The device as a backend, with no reads recorded yet.
    pub fn new(device: D) -> (r: Self)
        ensures
            r.msr_reads() == Seq::<MsrRead>::empty(),
    {
        Recorded { device, reads: Ghost(Seq::empty()) }
    }
}

impl<D: MsrDevice> HardwareAccess for Recorded<D> {
    closed spec fn msr_reads(&self) -> Seq<MsrRead> {
        self.reads@
    }

    fn name(&self) -> &'static str {
        self.device.name()
    }

    fn open(&mut self) -> Result<(), AccessError> {
        self.device.open()
    }

    fn is_available(&self) -> bool {
        self.device.is_available()
    }

    fn read_msr(&mut self, msr: u64, logical_cpu: usize) -> (r: Result<u64, AccessError>) {
        let r = self.device.read_msr(msr, logical_cpu);
        self.reads = Ghost(self.reads@.push(MsrRead { msr, cpu: logical_cpu, result: r }));
        r
    }

    fn close(&mut self) {
        self.device.close()
    }
}

} // verus!
