//! How connections are counted and numbered.

use vstd::multiset::Multiset;
use vstd::prelude::*;

use crate::admission::{count_of, counts_within, entered, one_less, one_more, PeerIp};
use crate::state::next_number;

verus! {

/// Counting one more or one less changes the count of that address by one, and of no other;
/// keeping an address changes none. An address with a connection more is kept, and after one
/// less it is kept exactly if it still holds one.
pub proof fn law_counting_goes_by_ones(counts: Map<PeerIp, nat>, ip: PeerIp, other: PeerIp)
    ensures
        counts.contains_key(other) ==> count_of(counts, other) == counts[other],
        !counts.contains_key(other) ==> count_of(counts, other) == 0,
        count_of(one_more(counts, ip), ip) == count_of(counts, ip) + 1,
        count_of(counts, ip) > 0 ==> count_of(one_less(counts, ip), ip) == count_of(counts, ip)
            - 1,
        count_of(counts, ip) == 0 ==> count_of(one_less(counts, ip), ip) == 0,
        count_of(entered(counts, ip), ip) == count_of(counts, ip),
        other != ip ==> {
            &&& count_of(one_more(counts, ip), other) == count_of(counts, other)
            &&& count_of(one_less(counts, ip), other) == count_of(counts, other)
            &&& count_of(entered(counts, ip), other) == count_of(counts, other)
            &&& one_more(counts, ip).contains_key(other) <==> counts.contains_key(other)
            &&& one_less(counts, ip).contains_key(other) <==> counts.contains_key(other)
            &&& entered(counts, ip).contains_key(other) <==> counts.contains_key(other)
        },
        one_more(counts, ip).contains_key(ip),
        entered(counts, ip).contains_key(ip),
        one_less(counts, ip).contains_key(ip) <==> count_of(counts, ip) > 1,
{
}

/// Numbers go up by one, until the last there is, after which comes 0.
pub proof fn law_numbers_go_up_by_one(n: u64)
    ensures
        n < u64::MAX ==> next_number(n) == n + 1,
        n == u64::MAX ==> next_number(n) == 0,
{
}

/// No address ever holds more connections than the cap, and only addresses that hold some
/// are kept, unless none may hold any.
pub proof fn law_connection_cap_holds(counts: Map<PeerIp, nat>, ip: PeerIp, cap: nat)
    requires
        counts_within(counts, cap),
    ensures
        count_of(counts, ip) < cap ==> counts_within(one_more(counts, ip), cap),
        count_of(counts, ip) >= cap ==> counts_within(entered(counts, ip), cap),
        counts_within(one_less(counts, ip), cap),
{
}

/// A connection that comes and goes leaves the counts as they were.
pub proof fn law_release_undoes_acquire(counts: Map<PeerIp, nat>, ip: PeerIp, cap: nat)
    requires
        counts_within(counts, cap),
        count_of(counts, ip) < cap,
    ensures
        one_less(one_more(counts, ip), ip) == counts,
{
    assert(one_less(one_more(counts, ip), ip) =~= counts);
}

/// The number of the connection that comes `n` connections after number `first`.
pub open spec fn later_number(first: u64, n: nat) -> u64
    decreases n,
{
    if n == 0 {
        first
    } else {
        next_number(later_number(first, (n - 1) as nat))
    }
}

/// No two connections have the same number, until all the numbers have been used.
pub proof fn law_connection_numbers_are_distinct(first: u64, m: nat, n: nat)
    requires
        m < n,
        n - m <= u64::MAX,
    ensures
        later_number(first, m) != later_number(first, n),
{
    lemma_later_number(first, m);
    lemma_later_number(first, n);
    let total: int = u64::MAX + 1;
    if later_number(first, m) == later_number(first, n) {
        vstd::arithmetic::div_mod::lemma_fundamental_div_mod(first + m, total);
        vstd::arithmetic::div_mod::lemma_fundamental_div_mod(first + n, total);
        let p = (first + m) / total;
        let q = (first + n) / total;
        assert(n - m == total * q - total * p);
        assert(total * q - total * p == total * (q - p)) by (nonlinear_arith);
        assert(0 < total * (q - p) < total);
        assert(false) by (nonlinear_arith)
            requires
                0 < total * (q - p) < total,
                total > 0,
        ;
    }
}

proof fn lemma_later_number(first: u64, n: nat)
    ensures
        later_number(first, n) == (first + n) % (u64::MAX + 1),
    decreases n,
{
    if n > 0 {
        lemma_later_number(first, (n - 1) as nat);
    }
}

/// What clients do about connections.
pub enum Visit {
    /// A client asks for a connection.
    Open { ip: PeerIp },
    /// One of the address's connections ends.
    Close { ip: PeerIp },
}

/// The relay's books, and what they are about: the numbers that the accepted connections
/// were given, in turn, and the addresses of those that are open.
pub struct Ledger {
    pub counts: Map<PeerIp, nat>,
    pub next: u64,
    pub given: Seq<u64>,
    pub open: Multiset<PeerIp>,
}

impl Ledger {
    /// Before the first visit.
    pub open spec fn fresh() -> Ledger {
        Ledger {
            counts: Map::empty(),
            next: 1,
            given: Seq::empty(),
            open: Multiset::empty(),
        }
    }

    /// After the visit, where an address may hold `cap` connections.
    pub open spec fn after(self, visit: Visit, cap: nat) -> Ledger {
        match visit {
            Visit::Open { ip } => if count_of(self.counts, ip) < cap {
                Ledger {
                    counts: one_more(self.counts, ip),
                    next: next_number(self.next),
                    given: self.given.push(self.next),
                    open: self.open.insert(ip),
                }
            } else {
                Ledger { counts: entered(self.counts, ip), ..self }
            },
            Visit::Close { ip } => Ledger {
                counts: one_less(self.counts, ip),
                open: self.open.remove(ip),
                ..self
            },
        }
    }
}

/// The books after the visits.
pub open spec fn after_visits(visits: Seq<Visit>, cap: nat) -> Ledger
    decreases visits.len(),
{
    if visits.len() == 0 {
        Ledger::fresh()
    } else {
        after_visits(visits.drop_last(), cap).after(visits.last(), cap)
    }
}

/// Only connections that are open end.
pub open spec fn orderly(visits: Seq<Visit>, cap: nat) -> bool
    decreases visits.len(),
{
    visits.len() > 0 ==> {
        &&& orderly(visits.drop_last(), cap)
        &&& visits.last() matches Visit::Close { ip } ==> after_visits(
            visits.drop_last(),
            cap,
        ).open.count(ip) > 0
    }
}

/// Along any run of visits the books are right: each address is counted with exactly the
/// connections that it has open, never more than the cap; the address of a connection that
/// ends is kept with a count above zero.
pub proof fn law_counts_are_the_open_connections(visits: Seq<Visit>, cap: nat)
    requires
        orderly(visits, cap),
    ensures
        ({
            let ledger = after_visits(visits, cap);
            &&& counts_within(ledger.counts, cap)
            &&& forall|ip: PeerIp| #[trigger]
                ledger.open.count(ip) == count_of(ledger.counts, ip)
            &&& forall|ip: PeerIp| #[trigger] ledger.open.count(ip) <= cap
            &&& forall|ip: PeerIp| #[trigger]
                ledger.open.count(ip) > 0 ==> ledger.counts.contains_key(ip)
                    && ledger.counts[ip] > 0
        }),
    decreases visits.len(),
{
    if visits.len() > 0 {
        law_counts_are_the_open_connections(visits.drop_last(), cap);
        let before = after_visits(visits.drop_last(), cap);
        let ip = match visits.last() {
            Visit::Open { ip } => ip,
            Visit::Close { ip } => ip,
        };
        law_connection_cap_holds(before.counts, ip, cap);
        let after = after_visits(visits, cap);
        assert forall|other: PeerIp| #[trigger]
            after.open.count(other) == count_of(after.counts, other) && after.open.count(other)
            <= cap by {
            assert(before.open.count(other) == count_of(before.counts, other));
        }
    }
}

/// Along any run of visits the accepted connections are numbered in turn: the first of
/// them gets number 1, and each further one the next number, up to the last there is.
pub proof fn law_connections_are_numbered_in_turn(visits: Seq<Visit>, cap: nat)
    ensures
        ({
            let ledger = after_visits(visits, cap);
            &&& ledger.next == later_number(1, ledger.given.len())
            &&& forall|k: int|
                0 <= k < ledger.given.len() ==> #[trigger] ledger.given[k] == later_number(
                    1,
                    k as nat,
                )
            &&& forall|k: int|
                0 <= k < ledger.given.len() && k < u64::MAX ==> #[trigger] ledger.given[k] == k + 1
        }),
    decreases visits.len(),
{
    if visits.len() > 0 {
        law_connections_are_numbered_in_turn(visits.drop_last(), cap);
    }
    let ledger = after_visits(visits, cap);
    assert forall|k: int|
        0 <= k < ledger.given.len() && k < u64::MAX implies #[trigger] ledger.given[k] == k
        + 1 by {
        assert(ledger.given[k] == later_number(1, k as nat));
        lemma_later_number(1, k as nat);
        vstd::arithmetic::div_mod::lemma_small_mod((k + 1) as nat, (u64::MAX + 1) as nat);
    }
}

} // verus!
