//! Admission, quotas and lifecycle of the jobs of a background
//! download/upload service: per-application and system-wide caps, a
//! per-application running cap, a single foreground job slot, periodic
//! sweeps of stale jobs, and idle detection for unloading the service.
//!
//! The manager takes decisions only; the host runs the jobs, the timers
//! and the platform callbacks, and carries out the actions it is handed.

pub mod count;
pub mod laws;
pub mod manager;
pub mod task;
