//! The speaker: its own settings, and the neighbors it is configured with.
use vstd::prelude::*;
use crate::capabilities::CapabilitiesModel;
use crate::config::Neighbor;
use crate::net::IpAddress;
use crate::session::{default_session, BGPNeighbor, BGPSessionAttributes, BGPState};
use crate::types::AddressFamily;

verus! {

/// The settings of the speaker.
#[derive(Debug, Clone)]
pub struct BGPSpeaker {
    pub local_asn: u16,
    pub router_id: u32,
    pub hold_time: u16,
    /// The local IPv4 address.
    pub local_ip: u32,
    pub local_port: u16,
    pub families: Vec<AddressFamily>,
}

impl BGPSpeaker {
    /// A speaker with the given settings.
    pub fn new(
        local_asn: u16,
        router_id: u32,
        hold_time: u16,
        local_ip: u32,
        local_port: u16,
        families: Vec<AddressFamily>,
    ) -> (r: BGPSpeaker)
        ensures
            r.local_asn == local_asn,
            r.router_id == router_id,
            r.hold_time == hold_time,
            r.local_ip == local_ip,
            r.local_port == local_port,
            r.families@ == families@,
    {
        BGPSpeaker { local_asn, router_id, hold_time, local_ip, local_port, families }
    }

    /// The neighbor a configuration describes, at `remote_ip` (the address
    /// the configuration names): in state Idle, with the configured AS,
    /// port, hold time, connect retry time and families.
    pub fn neighbor_from_config(&self, config: &Neighbor, remote_ip: IpAddress) -> (r: BGPNeighbor)
        requires
            config.hold_time is Some,
            config.connect_retry is Some,
        ensures
            r.local_ip is None && r.local_port is None && r.local_asn == self.local_asn
                && r.local_rid == self.router_id && r.remote_ip == Some(remote_ip)
                && r.remote_port == Some(config.port) && r.remote_asn == Some(config.asn)
                && r.remote_rid is None,
            r.attributes == (BGPSessionAttributes {
                state: BGPState::Idle,
                hold_time: config.hold_time.unwrap(),
                connect_retry_time: config.connect_retry.unwrap(),
                allow_automatic_start: true,
                ..default_session()
            }),
            r.capabilities_advertised@ == (CapabilitiesModel {
                multiprotocol: match config.families {
                    Some(v) => Some(v@),
                    None => None,
                },
                ..crate::capabilities::no_capabilities()
            }),
            r.capabilities_received@ == crate::capabilities::no_capabilities(),
            r.adjrib@.len() == 0,
    {
        let hold_time = match config.hold_time {
            Some(h) => h,
            None => 0,
        };
        let connect_retry = match config.connect_retry {
            Some(c) => c,
            None => 0,
        };
        BGPNeighbor::new(
            None,
            None,
            self.local_asn,
            self.router_id,
            Some(remote_ip),
            Some(config.port),
            Some(config.asn),
            hold_time,
            connect_retry,
            BGPState::Idle,
            config.families.clone(),
        )
    }
}

/// The first neighbor, among those whose addresses are `ips`, at `ip`.
pub fn find_neighbor_by_ip(ips: &Vec<Option<IpAddress>>, ip: IpAddress) -> (r: Option<usize>)
    ensures
        r matches Some(k) ==> k < ips@.len() && ips@[k as int] == Some(ip) && forall|j: int|
            0 <= j < k ==> ips@[j] != Some(ip),
        r is None ==> forall|j: int| 0 <= j < ips@.len() ==> ips@[j] != Some(ip),
{
    let mut i: usize = 0;
    while i < ips.len()
        invariant
            i <= ips.len(),
            forall|j: int| 0 <= j < i ==> ips@[j] != Some(ip),
        decreases ips.len() - i,
    {
        if ips[i] == Some(ip) {
            return Some(i);
        }
        i = i + 1;
    }
    None
}

} // verus!
