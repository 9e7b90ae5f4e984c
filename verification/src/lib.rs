//! Per-capability process isolation: a capability token's own limits are applied to a process
//! before the command it runs exists.
//!
//! The library decides and records; the program around it makes the system calls and hands back
//! what they came back with.
pub mod applied;
pub mod ceiling;
pub mod group;
pub mod json;
pub mod kernel;
pub mod launch;
pub mod limits;
pub mod number;
pub mod platform;
pub mod reader;
pub mod reports;
pub mod seccomp;
pub mod session;
pub mod spec_file;
pub mod support;
pub mod text;

pub use crate::applied::{AppliedIsolation, IsolationFailure};
pub use crate::ceiling::container_ceiling;
pub use crate::limits::IsolationLimits;
pub use crate::platform::denied_syscalls;
pub use crate::session::apply;
pub use crate::support::{detect, IsolationSupport};
