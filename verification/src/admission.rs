//! How many connections each client address holds.

use std::collections::HashMap;
use vstd::prelude::*;

verus! {

broadcast use vstd::std_specs::hash::group_hash_axioms;

/// A client's IP address, as the number that its octets spell.
#[derive(Debug, Clone, Copy, PartialEq, Eq, Structural)]
pub enum PeerIp {
    V4(u32),
    V6(u128),
}

/// How many connections the address holds; an address that is not kept holds none.
pub open spec fn count_of(counts: Map<PeerIp, nat>, ip: PeerIp) -> nat {
    if counts.contains_key(ip) {
        counts[ip]
    } else {
        0
    }
}

/// No address holds more than `cap` connections, and only addresses that hold one are
/// kept; where none may hold any, those that asked are kept.
pub open spec fn counts_within(counts: Map<PeerIp, nat>, cap: nat) -> bool {
    forall|ip: PeerIp| #[trigger]
        counts.contains_key(ip) ==> counts[ip] <= cap && (counts[ip] == 0 ==> cap == 0)
}

/// The counts with the address kept, whatever it holds.
pub open spec fn entered(counts: Map<PeerIp, nat>, ip: PeerIp) -> Map<PeerIp, nat> {
    counts.insert(ip, count_of(counts, ip))
}

/// The counts with one connection more.
pub open spec fn one_more(counts: Map<PeerIp, nat>, ip: PeerIp) -> Map<PeerIp, nat> {
    counts.insert(ip, count_of(counts, ip) + 1)
}

/// The counts with one connection less. An address that holds none is not kept.
pub open spec fn one_less(counts: Map<PeerIp, nat>, ip: PeerIp) -> Map<PeerIp, nat> {
    if count_of(counts, ip) > 1 {
        counts.insert(ip, (count_of(counts, ip) - 1) as nat)
    } else {
        counts.remove(ip)
    }
}

/// Connection counts per address.
pub struct ConnsPerIp {
    v4: HashMap<u32, u32>,
    v6: HashMap<u128, u32>,
}

impl ConnsPerIp {
    /// The addresses that are kept, and how many connections each holds.
    pub closed spec fn view(&self) -> Map<PeerIp, nat> {
        Map::new(
            |ip: PeerIp|
                match ip {
                    PeerIp::V4(key) => self.v4@.contains_key(key),
                    PeerIp::V6(key) => self.v6@.contains_key(key),
                },
            |ip: PeerIp|
                match ip {
                    PeerIp::V4(key) => self.v4@[key] as nat,
                    PeerIp::V6(key) => self.v6@[key] as nat,
                },
        )
    }

    /// No address holds a connection.
    pub fn new() -> (conns: ConnsPerIp)
        ensures
            conns@ == Map::<PeerIp, nat>::empty(),
    {
        let conns = ConnsPerIp { v4: HashMap::new(), v6: HashMap::new() };
        assert(conns@ =~= Map::<PeerIp, nat>::empty());
        conns
    }

    /// How many connections the address holds.
    pub fn connections(&self, ip: PeerIp) -> (count: u32)
        ensures
            count == count_of(self@, ip),
    {
        match ip {
            PeerIp::V4(key) => match self.v4.get(&key) {
                Some(count) => *count,
                None => 0,
            },
            PeerIp::V6(key) => match self.v6.get(&key) {
                Some(count) => *count,
                None => 0,
            },
        }
    }

    /// Sets the count of the address.
    fn set(&mut self, ip: PeerIp, count: u32)
        ensures
            final(self)@ == old(self)@.insert(ip, count as nat),
    {
        match ip {
            PeerIp::V4(key) => {
                self.v4.insert(key, count);
            },
            PeerIp::V6(key) => {
                self.v6.insert(key, count);
            },
        }
        assert(self@ =~= old(self)@.insert(ip, count as nat));
    }

    /// Forgets the address.
    fn forget(&mut self, ip: PeerIp)
        ensures
            final(self)@ == old(self)@.remove(ip),
    {
        match ip {
            PeerIp::V4(key) => {
                self.v4.remove(&key);
            },
            PeerIp::V6(key) => {
                self.v6.remove(&key);
            },
        }
        assert(self@ =~= old(self)@.remove(ip));
    }

    /// Counts one more connection of the address, unless it holds `cap` of them already.
    /// Either way the address is kept.
    pub fn acquire(&mut self, ip: PeerIp, cap: u32) -> (acquired: bool)
        ensures
            acquired == (count_of(old(self)@, ip) < cap),
            final(self)@ == if acquired {
                one_more(old(self)@, ip)
            } else {
                entered(old(self)@, ip)
            },
    {
        let count = self.connections(ip);
        if count >= cap {
            self.set(ip, count);
            return false;
        }
        self.set(ip, count + 1);
        true
    }

    /// Counts one connection of the address less, and forgets an address that holds none
    /// after that. An address that is not kept is left alone.
    pub fn release(&mut self, ip: PeerIp)
        requires
            old(self)@.contains_key(ip) ==> old(self)@[ip] > 0,
        ensures
            final(self)@ == one_less(old(self)@, ip),
    {
        let count = self.connections(ip);
        if count > 1 {
            self.set(ip, count - 1);
        } else {
            self.forget(ip);
        }
    }
}

} // verus!
