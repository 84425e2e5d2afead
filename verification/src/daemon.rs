//! The local helper daemon as the desktop app finds it: the record it
//! leaves on disk, and the address its health check answers on.

use vstd::prelude::*;
use crate::text::{decimal_seq, decimal_string, owned, push_str};

verus! {

/// What a running daemon records about itself.
#[derive(Debug, Clone)]
pub struct DaemonInfo {
    pub pid: u32,
    pub port: u16,
    /// Bearer token the daemon expects on every request.
    pub token: String,
    pub started_at: String,
    pub version: String,
}

/// The health-check address of a daemon on the local machine.
pub fn health_url(info: &DaemonInfo) -> (r: String)
    ensures
        r@ == "http://127.0.0.1:"@ + decimal_seq(info.port as nat) + "/health"@,
{
    let mut u = owned("http://127.0.0.1:");
    let p = decimal_string(info.port as u64);
    push_str(&mut u, p.as_str());
    push_str(&mut u, "/health");
    u
}

} // verus!
