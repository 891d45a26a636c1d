//! What is known about an address that sends initiations.

use crate::macs::{elapsed, elapsed_spec};
use std::collections::VecDeque;
use vstd::prelude::*;

verus! {

/// A second, in nanoseconds.
pub const SECOND: u64 = 1_000_000_000;

/// How many initiations without a cookie an address may send at once.
pub const TOKEN_BUCKET_CAPACITY: u32 = 10;

/// How many initiations without a cookie an address may send in a second.
pub const TOKEN_REFILL_PER_SEC: u32 = 5;

/// How long requests and load samples are remembered: 30 seconds.
pub const SLIDING_WINDOW_DURATION: u64 = 30_000_000_000;

/// How long successes, failures and timeouts are remembered: 60 seconds.
pub const BEHAVIOR_WINDOW_DURATION: u64 = 60_000_000_000;

/// How many failures in a row make an address suspicious.
pub const CONSECUTIVE_FAILURE_THRESHOLD: u32 = 2;

/// How many timeouts make an address malicious, if most of its handshakes time out.
pub const MALICIOUS_MIN_SAMPLES: usize = 3;

/// The last time that the clock may show, in nanoseconds: a ban that is pronounced then
/// still ends.
pub const LAST_TIME: u64 = 0xffff_ffff_ffff_ffff - BEHAVIOR_WINDOW_DURATION;

/// Has `t` left a window that ends at `now`?
pub open spec fn expired(t: u64, window: u64, now: u64) -> bool {
    t + window < now
}

/// Has `t` left a window that ends at `now`?
pub fn is_expired(t: u64, window: u64, now: u64) -> (r: bool)
    ensures
        r == expired(t, window, now),
{
    now > window && t < now - window
}

/// The times that remain when the oldest ones have left the window.
pub open spec fn recent(times: Seq<u64>, window: u64, now: u64) -> Seq<u64>
    decreases times.len(),
{
    if times.len() > 0 && expired(times[0], window, now) {
        recent(times.drop_first(), window, now)
    } else {
        times
    }
}

/// The events that remain when the oldest ones have left the window.
pub open spec fn recent_events(events: Seq<(u64, bool)>, window: u64, now: u64) -> Seq<(u64, bool)>
    decreases events.len(),
{
    if events.len() > 0 && expired(events[0].0, window, now) {
        recent_events(events.drop_first(), window, now)
    } else {
        events
    }
}

/// How many of the events are timeouts.
pub open spec fn timeouts(events: Seq<(u64, bool)>) -> nat
    decreases events.len(),
{
    if events.len() == 0 {
        0
    } else {
        timeouts(events.drop_last()) + (if events.last().1 {
            1nat
        } else {
            0
        })
    }
}

proof fn lemma_timeouts_bound(events: Seq<(u64, bool)>)
    ensures
        timeouts(events) <= events.len(),
    decreases events.len(),
{
    if events.len() > 0 {
        lemma_timeouts_bound(events.drop_last());
    }
}

fn drop_expired(times: &mut VecDeque<u64>, window: u64, now: u64)
    ensures
        final(times)@ == recent(old(times)@, window, now),
{
    while times.len() > 0 && is_expired(times[0], window, now)
        invariant
            recent(times@, window, now) == recent(old(times)@, window, now),
        decreases times@.len(),
    {
        assert(times@.subrange(1, times@.len() as int) =~= times@.drop_first());
        let _ = times.pop_front();
    }
}

fn drop_expired_events(events: &mut VecDeque<(u64, bool)>, window: u64, now: u64)
    ensures
        final(events)@ == recent_events(old(events)@, window, now),
{
    while events.len() > 0 && is_expired(events[0].0, window, now)
        invariant
            recent_events(events@, window, now) == recent_events(old(events)@, window, now),
        decreases events@.len(),
    {
        assert(events@.subrange(1, events@.len() as int) =~= events@.drop_first());
        let _ = events.pop_front();
    }
}

/// What is known about an address.
pub struct IpState {
    pub tokens: u32,
    pub last_refill: u64,
    pub request_times: VecDeque<u64>,
    pub success_times: VecDeque<u64>,
    pub failure_times: VecDeque<u64>,
    /// When handshakes ended, and whether they timed out.
    pub timeout_events: VecDeque<(u64, bool)>,
    pub consecutive_failures: u32,
    /// How many handshakes have been answered and not been completed yet.
    pub half_open: usize,
    pub banned_until: Option<u64>,
    pub last_activity: u64,
}

/// What is known about an address, with sequences for the queues.
pub ghost struct IpView {
    pub tokens: u32,
    pub last_refill: u64,
    pub request_times: Seq<u64>,
    pub success_times: Seq<u64>,
    pub failure_times: Seq<u64>,
    pub timeout_events: Seq<(u64, bool)>,
    pub consecutive_failures: u32,
    pub half_open: usize,
    pub banned_until: Option<u64>,
    pub last_activity: u64,
}

impl IpView {
    /// An address of which nothing is known.
    pub open spec fn fresh(now: u64) -> Self {
        IpView {
            tokens: TOKEN_BUCKET_CAPACITY,
            last_refill: now,
            request_times: Seq::empty(),
            success_times: Seq::empty(),
            failure_times: Seq::empty(),
            timeout_events: Seq::empty(),
            consecutive_failures: 0,
            half_open: 0,
            banned_until: None,
            last_activity: now,
        }
    }

    /// The bucket holds at most its capacity.
    pub open spec fn wf(self) -> bool {
        self.tokens <= TOKEN_BUCKET_CAPACITY
    }

    /// With the tokens of the full seconds since the last refill.
    pub open spec fn refilled(self, now: u64) -> Self {
        let secs = elapsed_spec(self.last_refill, now) / SECOND as int;
        if secs > 0 {
            IpView {
                tokens: if self.tokens + secs * TOKEN_REFILL_PER_SEC < TOKEN_BUCKET_CAPACITY {
                    (self.tokens + secs * TOKEN_REFILL_PER_SEC) as u32
                } else {
                    TOKEN_BUCKET_CAPACITY
                },
                last_refill: now,
                ..self
            }
        } else {
            self
        }
    }

    /// With what has left its window forgotten.
    pub open spec fn cleaned(self, now: u64) -> Self {
        IpView {
            request_times: recent(self.request_times, SLIDING_WINDOW_DURATION, now),
            success_times: recent(self.success_times, BEHAVIOR_WINDOW_DURATION, now),
            failure_times: recent(self.failure_times, BEHAVIOR_WINDOW_DURATION, now),
            timeout_events: recent_events(self.timeout_events, BEHAVIOR_WINDOW_DURATION, now),
            ..self
        }
    }

    /// One failure more in a row.
    pub open spec fn blamed(self) -> Self {
        IpView {
            consecutive_failures: if self.consecutive_failures < u32::MAX {
                (self.consecutive_failures + 1) as u32
            } else {
                u32::MAX
            },
            ..self
        }
    }

    /// One failure more in a row, and remembered.
    pub open spec fn failed(self, now: u64) -> Self {
        IpView { failure_times: self.failure_times.push(now), ..self.blamed() }
    }

    /// A handshake was answered.
    pub open spec fn opened(self) -> Self {
        IpView {
            half_open: if self.half_open < usize::MAX {
                (self.half_open + 1) as usize
            } else {
                usize::MAX
            },
            ..self
        }
    }

    /// A handshake that was answered is no longer waited for.
    pub open spec fn closed(self) -> Self {
        IpView {
            half_open: if self.half_open > 0 {
                (self.half_open - 1) as usize
            } else {
                0
            },
            ..self
        }
    }

    /// A handshake succeeded.
    pub open spec fn succeeded(self, now: u64) -> Self {
        IpView {
            consecutive_failures: 0,
            success_times: self.success_times.push(now),
            timeout_events: self.timeout_events.push((now, false)),
            ..self
        }.cleaned(now)
    }

    /// Do at least four in five of enough handshakes time out?
    pub open spec fn malicious(self) -> bool {
        &&& self.timeout_events.len() >= MALICIOUS_MIN_SAMPLES
        &&& 10 * timeouts(self.timeout_events) >= 8 * self.timeout_events.len()
    }

    /// A handshake that was answered timed out. A malicious address is banned.
    pub open spec fn timed_out(self, now: u64) -> Self {
        let after = IpView {
            timeout_events: self.timeout_events.push((now, true)),
            ..self.closed()
        }.cleaned(now);
        if after.malicious() {
            IpView { banned_until: Some((now + BEHAVIOR_WINDOW_DURATION) as u64), ..after }
        } else {
            after
        }
    }

    /// Is the address banned?
    pub open spec fn banned(self, now: u64) -> bool {
        self.banned_until matches Some(until) && until > now
    }

    /// Does the address fail too often? Several times in a row, or in more than seven of
    /// ten of at least three cases.
    pub open spec fn suspicious(self) -> bool {
        let total = self.success_times.len() + self.failure_times.len();
        self.consecutive_failures >= CONSECUTIVE_FAILURE_THRESHOLD || (total >= 3 && 10
            * self.success_times.len() < 3 * total)
    }
}

impl IpState {
    pub open spec fn view(&self) -> IpView {
        IpView {
            tokens: self.tokens,
            last_refill: self.last_refill,
            request_times: self.request_times@,
            success_times: self.success_times@,
            failure_times: self.failure_times@,
            timeout_events: self.timeout_events@,
            consecutive_failures: self.consecutive_failures,
            half_open: self.half_open,
            banned_until: self.banned_until,
            last_activity: self.last_activity,
        }
    }

    /// An address of which nothing is known.
    pub fn new(now: u64) -> (r: Self)
        ensures
            r@ == IpView::fresh(now),
    {
        IpState {
            tokens: TOKEN_BUCKET_CAPACITY,
            last_refill: now,
            request_times: VecDeque::new(),
            success_times: VecDeque::new(),
            failure_times: VecDeque::new(),
            timeout_events: VecDeque::new(),
            consecutive_failures: 0,
            half_open: 0,
            banned_until: None,
            last_activity: now,
        }
    }

    /// Adds the tokens of the full seconds since the last refill.
    pub fn refill_tokens(&mut self, now: u64)
        ensures
            final(self)@ == old(self)@.refilled(now),
    {
        let elapsed_secs: u64 = elapsed(self.last_refill, now) / SECOND;
        if elapsed_secs > 0 {
            let filled: u64 = self.tokens as u64 + elapsed_secs * TOKEN_REFILL_PER_SEC as u64;
            self.tokens = if filled < TOKEN_BUCKET_CAPACITY as u64 {
                filled as u32
            } else {
                TOKEN_BUCKET_CAPACITY
            };
            self.last_refill = now;
        }
    }

    /// Forgets what has left its window.
    pub fn clean_windows(&mut self, now: u64)
        ensures
            final(self)@ == old(self)@.cleaned(now),
    {
        drop_expired(&mut self.request_times, SLIDING_WINDOW_DURATION, now);
        drop_expired(&mut self.success_times, BEHAVIOR_WINDOW_DURATION, now);
        drop_expired(&mut self.failure_times, BEHAVIOR_WINDOW_DURATION, now);
        drop_expired_events(&mut self.timeout_events, BEHAVIOR_WINDOW_DURATION, now);
    }

    /// Successes and all cases, if there are any: their quotient is the rate of success.
    pub fn success_rate(&self) -> (r: Option<(u128, u128)>)
        ensures
            match r {
                Some((successes, total)) => 0 < total <= 2 * usize::MAX && successes
                    == self@.success_times.len() && total == self@.success_times.len()
                    + self@.failure_times.len(),
                None => self@.success_times.len() + self@.failure_times.len() == 0,
            },
    {
        let successes: u128 = self.success_times.len() as u128;
        let total: u128 = successes + self.failure_times.len() as u128;
        if total == 0 {
            None
        } else {
            Some((successes, total))
        }
    }

    /// Does the address fail too often?
    pub fn is_suspicious(&self) -> (r: bool)
        ensures
            r == self@.suspicious(),
    {
        let failing = match self.success_rate() {
            Some((successes, total)) => total >= 3 && 10 * successes < 3 * total,
            None => false,
        };
        self.consecutive_failures >= CONSECUTIVE_FAILURE_THRESHOLD || failing
    }

    pub fn is_banned(&self, now: u64) -> (r: bool)
        ensures
            r == self@.banned(now),
    {
        match self.banned_until {
            Some(until) => until > now,
            None => false,
        }
    }

    /// Counts one failure more in a row.
    pub fn blame(&mut self)
        ensures
            final(self)@ == old(self)@.blamed(),
    {
        self.consecutive_failures = self.consecutive_failures.saturating_add(1);
    }

    /// Counts and remembers a failure.
    pub fn fail(&mut self, now: u64)
        ensures
            final(self)@ == old(self)@.failed(now),
    {
        self.blame();
        self.failure_times.push_back(now);
    }

    /// Counts a handshake that was answered.
    pub fn open(&mut self)
        ensures
            final(self)@ == old(self)@.opened(),
    {
        self.half_open = self.half_open.saturating_add(1);
    }

    /// No longer waits for a handshake that was answered.
    pub fn close(&mut self)
        ensures
            final(self)@ == old(self)@.closed(),
    {
        self.half_open = self.half_open.saturating_sub(1);
    }

    /// Remembers a success.
    pub fn succeed(&mut self, now: u64)
        ensures
            final(self)@ == old(self)@.succeeded(now),
    {
        self.consecutive_failures = 0;
        self.success_times.push_back(now);
        self.timeout_events.push_back((now, false));
        self.clean_windows(now);
    }

    /// How many of the remembered events are timeouts.
    fn count_timeouts(&self) -> (r: usize)
        ensures
            r == timeouts(self@.timeout_events),
    {
        let mut i: usize = 0;
        let mut count: usize = 0;
        assert(self.timeout_events@.take(0) =~= Seq::empty());
        while i < self.timeout_events.len()
            invariant
                i <= self.timeout_events.len(),
                count == timeouts(self.timeout_events@.take(i as int)),
            decreases self.timeout_events.len() - i,
        {
            proof {
                let next = self.timeout_events@.take(i + 1);
                assert(next.drop_last() =~= self.timeout_events@.take(i as int));
                lemma_timeouts_bound(next);
            }
            if self.timeout_events[i].1 {
                count += 1;
            }
            i += 1;
        }
        assert(self.timeout_events@.take(i as int) =~= self.timeout_events@);
        count
    }

    /// Remembers a timeout and bans a malicious address.
    pub fn time_out(&mut self, now: u64)
        requires
            now <= LAST_TIME,
        ensures
            final(self)@ == old(self)@.timed_out(now),
    {
        self.close();
        self.timeout_events.push_back((now, true));
        self.clean_windows(now);
        let total: usize = self.timeout_events.len();
        let timed_out: usize = self.count_timeouts();
        if total >= MALICIOUS_MIN_SAMPLES && 10 * timed_out as u128 >= 8 * total as u128 {
            self.banned_until = Some(now + BEHAVIOR_WINDOW_DURATION);
        }
    }
}

/// The bucket never holds more than its capacity.
pub proof fn law_bucket_is_bounded(state: IpView, now: u64)
    requires
        state.wf(),
    ensures
        IpView::fresh(now).wf(),
        state.refilled(now).wf(),
        state.cleaned(now).wf(),
        state.failed(now).wf(),
        state.opened().wf(),
        state.closed().wf(),
        state.succeeded(now).wf(),
        state.timed_out(now).wf(),
{
}

} // verus!
