//! Admission control and supervision of externally spawned processes.

pub mod ipc;
pub mod manager;
pub mod router;
pub mod safety;
pub mod signals;
