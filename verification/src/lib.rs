//! Helpers for services of the Hack Club.
use vstd::prelude::*;

pub mod airtable;
pub mod auth;
pub mod cache;
pub mod expiry;
pub mod hackatime;
pub mod http;
pub mod link;
pub mod submission;
pub mod text;

verus! {

/// The address to log for a client: what the connection reports, or
/// `unknown` where it reports none.
pub fn client_ip(realip_remote_addr: Option<&str>) -> (ip: String)
    ensures
        ip@ == (match realip_remote_addr {
            Some(addr) => addr@,
            None => "unknown"@,
        }),
{
    match realip_remote_addr {
        Some(addr) => addr.to_owned(),
        None => "unknown".to_owned(),
    }
}

} // verus!
