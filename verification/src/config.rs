//! Relay configuration. Every knob has a safe default so the relay runs with no config
//! file at all. The two knobs of the rate limiter are fractions and are kept beside the
//! limiter itself.

use vstd::prelude::*;

verus! {

/// How far the transport's message cap lies above the protocol's frame cap, in bytes.
pub const TRANSPORT_SLACK_BYTES: usize = 1024;

/// Time between two mailbox sweeps, in seconds.
pub const SWEEP_INTERVAL_SECS: u64 = 30;

/// The limits of the relay.
#[derive(Debug, Clone)]
pub struct RelayConfig {
    /// Listen address. The relay terminates plain WebSocket only: TLS lives in the reverse
    /// proxy, so the default binds localhost and the relay must never be exposed directly.
    pub bind: String,
    /// Maximum size of one relay frame in bytes. Messages larger than this must be chunked
    /// by the clients inside the opaque payload; the relay never reassembles, it only
    /// bounds per-frame memory.
    pub frame_cap_bytes: usize,
    /// How long an undelivered publish is held for a topic with no subscribers.
    pub mailbox_ttl_secs: u64,
    /// Mailbox depth per topic; when full the oldest frame is dropped (pairing and request
    /// flows care about the newest state, and the bound keeps memory finite).
    pub mailbox_max_frames: usize,
    /// Maximum concurrently subscribed topics per connection.
    pub max_topics_per_conn: usize,
    /// Maximum concurrent WebSocket connections per client IP.
    pub max_conns_per_ip: u32,
    /// Connections with no inbound traffic (pings included) for this long are closed.
    pub idle_timeout_secs: u64,
    /// Server-side WebSocket ping interval; 0 disables. Keeps long-lived subscriber
    /// connections alive through proxies that drop idle tunnels.
    pub keepalive_ping_secs: u64,
}

impl Default for RelayConfig {
    fn default() -> (config: RelayConfig)
        ensures
            config.bind@ == "localhost:7200"@,
            config.frame_cap_bytes == 1024 * 1024,
            config.mailbox_ttl_secs == 300,
            config.mailbox_max_frames == 64,
            config.max_topics_per_conn == 8,
            config.max_conns_per_ip == 32,
            config.idle_timeout_secs == 900,
            config.keepalive_ping_secs == 30,
    {
        RelayConfig {
            bind: String::from_str("localhost:7200"),
            frame_cap_bytes: 1024 * 1024,
            mailbox_ttl_secs: 300,
            mailbox_max_frames: 64,
            max_topics_per_conn: 8,
            max_conns_per_ip: 32,
            idle_timeout_secs: 900,
            keepalive_ping_secs: 30,
        }
    }
}

impl RelayConfig {
    /// The time to live of a held frame, in nanoseconds.
    pub fn mailbox_ttl_nanos(&self) -> (nanos: u128)
        ensures
            nanos == self.mailbox_ttl_secs * 1_000_000_000,
    {
        self.mailbox_ttl_secs as u128 * 1_000_000_000
    }

    /// The message size at which the transport cuts off. It lies a little above the
    /// protocol's cap, so that an oversized frame up to there gets a clean protocol error.
    pub fn transport_cap_bytes(&self) -> (cap: usize)
        requires
            self.frame_cap_bytes + TRANSPORT_SLACK_BYTES <= usize::MAX,
        ensures
            cap == self.frame_cap_bytes + TRANSPORT_SLACK_BYTES,
    {
        self.frame_cap_bytes + TRANSPORT_SLACK_BYTES
    }

    /// The period of the keepalive timer, in seconds: never zero, which would spin, though
    /// with pings disabled no tick of it sends anything.
    pub fn ping_period_secs(&self) -> (secs: u64)
        ensures
            secs == if self.keepalive_ping_secs == 0 {
                1
            } else {
                self.keepalive_ping_secs
            },
    {
        if self.keepalive_ping_secs == 0 {
            1
        } else {
            self.keepalive_ping_secs
        }
    }
}

} // verus!
