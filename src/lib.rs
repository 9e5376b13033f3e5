//! A single-hop reroute proxy: request assembly, header sanitising,
//! origin reply handling and a delayed self-termination guard.

mod clock;
pub mod config;
pub mod duration;
pub mod http;
pub mod interrupter;

pub use interrupter::Interrupter;
