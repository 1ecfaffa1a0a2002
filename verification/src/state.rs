//! What all connections of a relay share.

use vstd::prelude::*;

use crate::admission::{count_of, entered, one_less, one_more, ConnsPerIp, PeerIp};
use crate::config::RelayConfig;
use crate::hub::Hub;
use crate::model::HubModel;

verus! {

/// The relay's shared state.
pub struct AppState {
    pub config: RelayConfig,
    pub hub: Hub,
    /// The number that the next connection gets.
    pub next_conn_id: u64,
    pub conns_per_ip: ConnsPerIp,
}

/// The number after `n`; after the last comes 0.
pub open spec fn next_number(n: u64) -> u64 {
    if n == u64::MAX {
        0
    } else {
        (n + 1) as u64
    }
}

impl AppState {
    /// A relay without connections and without topics.
    pub fn new(config: RelayConfig) -> (state: AppState)
        ensures
            state.config == config,
            state.hub.inv(),
            state.hub@ == (HubModel {
                topics: Map::empty(),
                ttl: (config.mailbox_ttl_secs * 1_000_000_000) as nat,
                depth: config.mailbox_max_frames as nat,
                stalled: Set::empty(),
            }),
            state.hub.time() == 0,
            state.next_conn_id == 1,
            state.conns_per_ip@ == Map::<PeerIp, nat>::empty(),
    {
        let hub = Hub::new(config.mailbox_ttl_nanos(), config.mailbox_max_frames);
        AppState { config, hub, next_conn_id: 1, conns_per_ip: ConnsPerIp::new() }
    }

    /// Takes a connection from the address in, and gives it its number; refuses it where
    /// the address holds as many connections as it may.
    pub fn open_connection(&mut self, ip: PeerIp) -> (conn_id: Option<u64>)
        ensures
            final(self).config == old(self).config,
            final(self).hub == old(self).hub,
            conn_id is Some <==> count_of(old(self).conns_per_ip@, ip)
                < old(self).config.max_conns_per_ip,
            match conn_id {
                Some(conn_id) => {
                    &&& conn_id == old(self).next_conn_id
                    &&& final(self).next_conn_id == next_number(conn_id)
                    &&& final(self).conns_per_ip@ == one_more(old(self).conns_per_ip@, ip)
                },
                None => {
                    &&& final(self).next_conn_id == old(self).next_conn_id
                    &&& final(self).conns_per_ip@ == entered(old(self).conns_per_ip@, ip)
                },
            },
    {
        if !self.conns_per_ip.acquire(ip, self.config.max_conns_per_ip) {
            return None;
        }
        let conn_id = self.next_conn_id;
        self.next_conn_id = conn_id.wrapping_add(1);
        Some(conn_id)
    }

    /// Gives back what the connection took, whatever way it ended.
    pub fn close_connection(&mut self, ip: PeerIp)
        requires
            old(self).conns_per_ip@.contains_key(ip) ==> old(self).conns_per_ip@[ip] > 0,
        ensures
            final(self).config == old(self).config,
            final(self).hub == old(self).hub,
            final(self).next_conn_id == old(self).next_conn_id,
            final(self).conns_per_ip@ == one_less(old(self).conns_per_ip@, ip),
    {
        self.conns_per_ip.release(ip);
    }
}

} // verus!
