//! The HTTP side of the proxy: headers, the proxy pipeline and status reports.

pub mod duration;
pub mod headers;
pub mod health;
pub mod proxy;
