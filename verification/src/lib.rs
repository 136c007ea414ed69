//! Zenith's sensor core: the worker protocol, MSR temperature decoding, CPU
//! topology decoding, the worker restart policy and its supervision
//! decisions, and the temperature-source merge the desktop app shows.

pub mod hardware_access;
pub mod intel;
pub mod mock;
pub mod pawnio;
pub mod protocol;
pub mod sensor;
pub mod supervisor;
pub mod topology;
pub mod worker;
pub mod worker_supervisor;
