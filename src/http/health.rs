//! The status report of the health endpoint.

use vstd::prelude::*;
use crate::duration::{clamp_i64, FiniteDuration};

verus! {

/// The state, startup time (seconds since the epoch), uptime and address
/// that the health endpoint reports.
#[derive(Debug)]
pub struct AppStatus {
    pub status: String,
    pub startup_time: i64,
    pub up_time: FiniteDuration,
    pub server_ip_address: String,
}

impl AppStatus {
    fn report(status: &str, startup_time: i64, now: i64, server_ip_address: String) -> (r: AppStatus)
        ensures
            r.status@ == status@,
            r.startup_time == startup_time,
            r.up_time.seconds == clamp_i64(now - startup_time),
            r.server_ip_address == server_ip_address,
    {
        AppStatus {
            status: status.to_owned(),
            startup_time,
            up_time: FiniteDuration::between(now, startup_time),
            server_ip_address,
        }
    }

    /// The report of a running process, at time `now`.
    pub fn up(startup_time: i64, now: i64, server_ip_address: String) -> (r: AppStatus)
        ensures
            r.status@ == "up"@,
            r.startup_time == startup_time,
            r.up_time.seconds == clamp_i64(now - startup_time),
            r.server_ip_address == server_ip_address,
    {
        AppStatus::report("up", startup_time, now, server_ip_address)
    }

    /// The report of a process that is shutting down, at time `now`.
    pub fn down(startup_time: i64, now: i64, server_ip_address: String) -> (r: AppStatus)
        ensures
            r.status@ == "down"@,
            r.startup_time == startup_time,
            r.up_time.seconds == clamp_i64(now - startup_time),
            r.server_ip_address == server_ip_address,
    {
        AppStatus::report("down", startup_time, now, server_ip_address)
    }
}

} // verus!
