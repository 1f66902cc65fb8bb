//! The configuration of the speaker and of its neighbors, and the
//! defaults of the neighbor settings.
use vstd::prelude::*;
use crate::net::IpAddress;
use crate::types::AddressFamily;

verus! {

/// The TCP port BGP listens on.
pub const BGP_DEFAULT_PORT: u16 = 179;

/// The hold time used when none is configured.
pub const BGP_DEFAULT_HOLD_TIME: u16 = 3;

/// The configuration of the speaker.
#[derive(Debug, Clone)]
pub struct Config {
    pub asn: u16,
    /// The router identifier, an IPv4 address.
    pub rid: u32,
    pub localips: Option<Vec<IpAddress>>,
    pub port: Option<u16>,
    pub hold_time: Option<u16>,
    pub families: Option<Vec<AddressFamily>>,
    pub neighbors: Option<Vec<Neighbor>>,
}

/// The configuration of a neighbor.
#[derive(Debug, Clone)]
pub struct Neighbor {
    pub asn: u16,
    pub ip: String,
    pub port: u16,
    pub hold_time: Option<u16>,
    pub families: Option<Vec<AddressFamily>>,
    pub connect_retry: Option<u16>,
    pub keepalive_interval: Option<u16>,
    pub max_retry_count: Option<u16>,
    pub exponential_backoff: bool,
}

/// The connect retry time of a neighbor that configures none: 120 s.
pub fn default_connect_retry() -> (r: Option<u16>)
    ensures
        r == Some(120u16),
{
    Some(120)
}

/// The keepalive interval of a neighbor that configures none: 60 s.
pub fn default_keepalive_interval() -> (r: Option<u16>)
    ensures
        r == Some(60u16),
{
    Some(60)
}

/// The retry count of a neighbor that configures none: no limit.
pub fn default_max_retry_count() -> (r: Option<u16>)
    ensures
        r == None::<u16>,
{
    None
}

/// Whether a neighbor that configures nothing backs off exponentially:
/// it does not.
pub fn default_exponential_backoff() -> (r: bool)
    ensures
        r == false,
{
    false
}

} // verus!
