//! A limit on how often an address may send handshake messages: a token bucket each.

use crate::assoc::Assoc;
use crate::macs::{elapsed, elapsed_spec};
use crate::types::IpAddr;
use vstd::prelude::*;

verus! {

/// What a packet costs, in nanoseconds: twenty packets a second.
pub const PACKET_COST: u64 = 50_000_000;

/// What a full bucket holds: five packets.
pub const MAX_TOKENS: u64 = 250_000_000;

/// The bucket of an address.
#[derive(Clone, Copy)]
pub struct Bucket {
    pub tokens: u64,
    pub last_time: u64,
}

impl Bucket {
    /// What the bucket holds at the time `now`: it fills with time, up to its limit.
    pub open spec fn filled(self, now: u64) -> u64 {
        if self.tokens + elapsed_spec(self.last_time, now) >= MAX_TOKENS {
            MAX_TOKENS
        } else {
            (self.tokens + elapsed_spec(self.last_time, now)) as u64
        }
    }
}

/// May an address send a packet at the time `now`, and which buckets are there afterwards?
/// A packet needs more than its cost. An address that was not seen before starts with a full
/// bucket.
pub open spec fn allow_spec(buckets: Map<IpAddr, Bucket>, ip: IpAddr, now: u64) -> (
    Map<IpAddr, Bucket>,
    bool,
) {
    if buckets.contains_key(ip) {
        let filled = buckets[ip].filled(now);
        if filled > PACKET_COST {
            (
                buckets.insert(
                    ip,
                    Bucket { tokens: (filled - PACKET_COST) as u64, last_time: now },
                ),
                true,
            )
        } else {
            (buckets.insert(ip, Bucket { tokens: filled, last_time: now }), false)
        }
    } else {
        (
            buckets.insert(
                ip,
                Bucket { tokens: (MAX_TOKENS - PACKET_COST) as u64, last_time: now },
            ),
            true,
        )
    }
}

/// The buckets of all addresses that have sent something.
pub struct RateLimiter {
    buckets: Assoc<IpAddr, Bucket>,
}

impl RateLimiter {
    pub closed spec fn view(&self) -> Map<IpAddr, Bucket> {
        self.buckets@
    }

    pub closed spec fn wf(&self) -> bool {
        self.buckets.wf()
    }

    pub fn new() -> (r: Self)
        ensures
            r.wf(),
            r@ == Map::<IpAddr, Bucket>::empty(),
    {
        RateLimiter { buckets: Assoc::new() }
    }

    /// May `ip` send a packet at the time `now`?
    pub fn allow(&mut self, ip: &IpAddr, now: u64) -> (r: bool)
        requires
            old(self).wf(),
        ensures
            final(self).wf(),
            (final(self)@, r) == allow_spec(old(self)@, *ip, now),
    {
        match self.buckets.find(ip) {
            Some(i) => {
                let bucket = self.buckets.entries[i].1;
                let passed = elapsed(bucket.last_time, now);
                let filled: u64 = if bucket.tokens >= MAX_TOKENS || passed >= MAX_TOKENS
                    - bucket.tokens {
                    MAX_TOKENS
                } else {
                    bucket.tokens + passed
                };
                let allowed = filled > PACKET_COST;
                let tokens: u64 = if allowed {
                    filled - PACKET_COST
                } else {
                    filled
                };
                let _ = self.buckets.insert(*ip, Bucket { tokens, last_time: now });
                allowed
            },
            None => {
                let _ = self.buckets.insert(
                    *ip,
                    Bucket { tokens: MAX_TOKENS - PACKET_COST, last_time: now },
                );
                true
            },
        }
    }
}

/// An address that has not sent before is allowed, with 200 ms of its budget of 250 ms left.
/// One that has is allowed if and only if more than the 50 ms that a message costs are there,
/// where the budget grows with the time that passed; a refused message costs nothing.
pub proof fn law_messages_cost_50_ms(buckets: Map<IpAddr, Bucket>, ip: IpAddr, now: u64)
    ensures
        ({
            let (after, allowed) = allow_spec(buckets, ip, now);
            &&& after.contains_key(ip)
            &&& after[ip].last_time == now
            &&& if buckets.contains_key(ip) {
                let b = buckets[ip];
                let grown = b.tokens + elapsed_spec(b.last_time, now);
                let there = if grown < 250_000_000 {
                    grown
                } else {
                    250_000_000
                };
                &&& allowed <==> there > 50_000_000
                &&& after[ip].tokens == there - (if allowed {
                    50_000_000int
                } else {
                    0
                })
            } else {
                allowed && after[ip].tokens == 200_000_000
            }
        }),
{
}

/// What one address sends does not count for another.
pub proof fn law_addresses_are_limited_apart(
    buckets: Map<IpAddr, Bucket>,
    ip: IpAddr,
    other: IpAddr,
    now: u64,
)
    requires
        ip != other,
    ensures
        ({
            let after = allow_spec(buckets, ip, now).0;
            &&& after.contains_key(other) == buckets.contains_key(other)
            &&& buckets.contains_key(other) ==> after[other] == buckets[other]
            &&& allow_spec(after, other, now).1 == allow_spec(buckets, other, now).1
        }),
{
}

/// The limiter after messages of one address at these times, and how many were allowed.
pub open spec fn allowed_of(buckets: Map<IpAddr, Bucket>, ip: IpAddr, times: Seq<u64>) -> (
    Map<IpAddr, Bucket>,
    nat,
)
    decreases times.len(),
{
    if times.len() == 0 {
        (buckets, 0)
    } else {
        let (before, n) = allowed_of(buckets, ip, times.drop_last());
        let (after, allowed) = allow_spec(before, ip, times.last());
        (after, if allowed {
            n + 1
        } else {
            n
        })
    }
}

/// Of the messages of an address no more are allowed than 20 a second, beyond a burst: what is
/// allowed costs 50 ms each, and there are 250 ms to begin with and the time that passes.
pub proof fn law_rate_is_bounded(buckets: Map<IpAddr, Bucket>, ip: IpAddr, times: Seq<u64>)
    requires
        !buckets.contains_key(ip),
        times.len() > 0,
        forall|i: int, j: int| 0 <= i <= j < times.len() ==> times[i] <= times[j],
    ensures
        ({
            let (after, n) = allowed_of(buckets, ip, times);
            &&& after.contains_key(ip)
            &&& after[ip].last_time == times.last()
            &&& n * 50_000_000 + after[ip].tokens <= 250_000_000 + times.last() - times[0]
        }),
    decreases times.len(),
{
    let front = times.drop_last();
    if front.len() > 0 {
        assert forall|i: int, j: int| 0 <= i <= j < front.len() implies front[i] <= front[j] by {
            assert(front[i] == times[i] && front[j] == times[j]);
        }
        law_rate_is_bounded(buckets, ip, front);
        assert(front.last() == times[times.len() - 2]);
        assert(times[times.len() - 2] <= times[times.len() - 1]);
    } else {
        assert(allowed_of(buckets, ip, front).1 == 0);
        assert(times.last() == times[0]);
    }
}

/// A new address may send four messages at once, and no more; after each further 50 ms one
/// more is allowed.
pub proof fn law_burst(buckets: Map<IpAddr, Bucket>, ip: IpAddr, now: u64, later: u64)
    requires
        !buckets.contains_key(ip),
        now < later,
    ensures
        ({
            let four = allow_spec(
                allow_spec(allow_spec(allow_spec(buckets, ip, now).0, ip, now).0, ip, now).0,
                ip,
                now,
            );
            let fifth = allow_spec(four.0, ip, now);
            &&& four.1
            &&& !fifth.1
            &&& allow_spec(fifth.0, ip, later).1
            &&& later - now < 50_000_000 ==> !allow_spec(
                allow_spec(fifth.0, ip, later).0,
                ip,
                later,
            ).1
        }),
{
}

} // verus!
