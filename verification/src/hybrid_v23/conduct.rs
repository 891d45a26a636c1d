//! How an address fares over time, and what the load of the machine means for it.

use crate::hybrid_v23::dos::{
    clamped_load, gradient, quota_spec, recent_samples, sustained, timeout_spec, total,
    window_covered, DosView, MetricSample, PrecheckDecision, Ratio, UNIT,
};
use crate::hybrid_v23::ip_state::{expired, recent, recent_events, timeouts, IpView};
use crate::macs::elapsed_spec;
use crate::types::IpAddr;
use vstd::prelude::*;

verus! {

// ---------------------------------------------------------------------------
// The windows of an address
// ---------------------------------------------------------------------------

/// Are these times in the order in which they came?
pub open spec fn in_order(times: Seq<u64>) -> bool {
    forall|i: int, j: int| 0 <= i <= j < times.len() ==> times[i] <= times[j]
}

/// A window forgets what is older than it is long, and nothing else: a time stays if and only
/// if it is not further back than the window is long, and the order stays.
pub proof fn law_window_forgets_the_old(times: Seq<u64>, window: u64, now: u64)
    requires
        in_order(times),
    ensures
        in_order(recent(times, window, now)),
        recent(times, window, now).len() <= times.len(),
        forall|t: u64| #[trigger]
            recent(times, window, now).contains(t) <==> times.contains(t) && t + window >= now,
        recent(times, window, now) == times.skip(
            times.len() - recent(times, window, now).len(),
        ),
        forall|i: int|
            0 <= i < times.len() - recent(times, window, now).len() ==> #[trigger] times[i]
                + window < now,
    decreases times.len(),
{
    let kept = recent(times, window, now);
    if times.len() > 0 && expired(times[0], window, now) {
        let rest = times.drop_first();
        assert(forall|i: int| 0 <= i < rest.len() ==> rest[i] == times[i + 1]);
        law_window_forgets_the_old(rest, window, now);
        assert forall|t: u64| #[trigger] kept.contains(t) <==> times.contains(t) && t + window
            >= now by {
            if times.contains(t) && t + window >= now {
                let i = choose|i: int| 0 <= i < times.len() && times[i] == t;
                assert(rest[i - 1] == t);
            }
            if kept.contains(t) {
                let i = choose|i: int| 0 <= i < rest.len() && rest[i] == t;
                assert(times[i + 1] == t);
            }
        }
        assert(kept =~= times.skip(times.len() - kept.len()));
        assert forall|i: int| 0 <= i < times.len() - kept.len() implies #[trigger] times[i] + window
            < now by {
            if i > 0 {
                assert(rest[i - 1] == times[i]);
            }
        }
    } else {
        assert(times.skip(0) =~= times);
        assert forall|t: u64| #[trigger] kept.contains(t) <==> times.contains(t) && t + window
            >= now by {
            if times.contains(t) {
                let i = choose|i: int| 0 <= i < times.len() && times[i] == t;
                assert(times[0] <= times[i]);
            }
        }
    }
}

/// What has just been entered stays in the window.
proof fn lemma_newest_stays(times: Seq<u64>, window: u64, now: u64)
    ensures
        recent(times.push(now), window, now).len() > 0,
        recent(times.push(now), window, now).last() == now,
        recent(times.push(now), window, now).len() <= times.len() + 1,
    decreases times.len(),
{
    let all = times.push(now);
    if times.len() > 0 && expired(all[0], window, now) {
        assert(all.drop_first() =~= times.drop_first().push(now));
        lemma_newest_stays(times.drop_first(), window, now);
    } else {
        assert(all.last() == now);
    }
}

/// A window that nothing has left keeps what it holds.
proof fn lemma_nothing_left(times: Seq<u64>, window: u64, now: u64)
    ensures
        recent(recent(times, window, now), window, now) == recent(times, window, now),
        recent(times, window, now).len() <= times.len(),
    decreases times.len(),
{
    if times.len() > 0 && expired(times[0], window, now) {
        lemma_nothing_left(times.drop_first(), window, now);
    }
}

/// Requests are remembered for 30 seconds; successes, failures and timeouts for a minute.
/// Looking at the windows changes nothing else.
pub proof fn law_windows_of_an_address(s: IpView, now: u64)
    requires
        in_order(s.request_times),
        in_order(s.success_times),
        in_order(s.failure_times),
    ensures
        forall|t: u64| #[trigger]
            s.cleaned(now).request_times.contains(t) <==> s.request_times.contains(t) && t
                + 30_000_000_000 >= now,
        forall|t: u64| #[trigger]
            s.cleaned(now).success_times.contains(t) <==> s.success_times.contains(t) && t
                + 60_000_000_000 >= now,
        forall|t: u64| #[trigger]
            s.cleaned(now).failure_times.contains(t) <==> s.failure_times.contains(t) && t
                + 60_000_000_000 >= now,
        s.cleaned(now).tokens == s.tokens,
        s.cleaned(now).last_refill == s.last_refill,
        s.cleaned(now).half_open == s.half_open,
        s.cleaned(now).consecutive_failures == s.consecutive_failures,
        s.cleaned(now).banned_until == s.banned_until,
        s.cleaned(now).last_activity == s.last_activity,
{
    law_window_forgets_the_old(s.request_times, 30_000_000_000, now);
    law_window_forgets_the_old(s.success_times, 60_000_000_000, now);
    law_window_forgets_the_old(s.failure_times, 60_000_000_000, now);
}

/// Of the timeouts the window keeps those that are not older than a minute.
pub proof fn law_window_of_timeouts(events: Seq<(u64, bool)>, now: u64)
    ensures
        ({
            let kept = recent_events(events, 60_000_000_000, now);
            &&& kept.len() <= events.len()
            &&& kept == events.skip(events.len() - kept.len())
            &&& kept.len() > 0 ==> kept[0].0 + 60_000_000_000 >= now
            &&& forall|i: int|
                0 <= i < events.len() - kept.len() ==> #[trigger] events[i].0 + 60_000_000_000
                    < now
        }),
    decreases events.len(),
{
    let kept = recent_events(events, 60_000_000_000, now);
    if events.len() > 0 && expired(events[0].0, 60_000_000_000, now) {
        let rest = events.drop_first();
        law_window_of_timeouts(rest, now);
        assert(kept =~= events.skip(events.len() - kept.len()));
        assert forall|i: int| 0 <= i < events.len() - kept.len() implies #[trigger] events[i].0
            + 60_000_000_000 < now by {
            if i > 0 {
                assert(rest[i - 1] == events[i]);
            }
        }
    } else {
        assert(events.skip(0) =~= events);
    }
}

// ---------------------------------------------------------------------------
// The bucket of an address
// ---------------------------------------------------------------------------

/// The bucket gains five tokens for each whole second, and holds ten at most. Within a second
/// it gains none, and after two seconds it is full whatever it held.
pub proof fn law_bucket_gains_five_a_second(s: IpView, secs: u64, rest: u64)
    requires
        s.tokens <= 10,
        rest < 1_000_000_000,
        s.last_refill + secs * 1_000_000_000 + rest <= u64::MAX,
    ensures
        ({
            let now = (s.last_refill + secs * 1_000_000_000 + rest) as u64;
            let after = s.refilled(now);
            &&& after.tokens == (if s.tokens + 5 * secs < 10 {
                s.tokens + 5 * secs
            } else {
                10
            })
            &&& after.last_refill == (if secs == 0 {
                s.last_refill
            } else {
                now
            })
            &&& after == (IpView { tokens: after.tokens, last_refill: after.last_refill, ..s })
            &&& secs >= 2 ==> after.tokens == 10
        }),
{
    assert((secs * 1_000_000_000 + rest) / 1_000_000_000 == secs);
}

/// Refilling twice at one time is refilling once, and what was refilled after some whole
/// seconds goes on from there.
pub proof fn law_refills_add_up(s: IpView, a: u64, b: u64)
    requires
        s.tokens <= 10,
        s.last_refill + a * 1_000_000_000 + b * 1_000_000_000 <= u64::MAX,
    ensures
        ({
            let mid = (s.last_refill + a * 1_000_000_000) as u64;
            let end = (s.last_refill + a * 1_000_000_000 + b * 1_000_000_000) as u64;
            &&& s.refilled(mid).refilled(end) == s.refilled(end)
            &&& s.refilled(mid).refilled(mid) == s.refilled(mid)
        }),
{
    let mid = (s.last_refill + a * 1_000_000_000) as u64;
    law_bucket_gains_five_a_second(s, a, 0);
    law_bucket_gains_five_a_second(s, (a + b) as u64, 0);
    law_bucket_gains_five_a_second(s.refilled(mid), b, 0);
    law_bucket_gains_five_a_second(s.refilled(mid), 0, 0);
}

/// A new address starts with ten tokens and a clean record.
pub proof fn law_new_address_is_trusted(now: u64, later: u64)
    ensures
        IpView::fresh(now).tokens == 10,
        !IpView::fresh(now).banned(later),
        !IpView::fresh(now).suspicious(),
        !IpView::fresh(now).malicious(),
        IpView::fresh(now).half_open == 0,
        IpView::fresh(now).request_times.len() == 0,
        IpView::fresh(now).last_activity == now,
{
}

// ---------------------------------------------------------------------------
// The record of an address
// ---------------------------------------------------------------------------

/// After a success no failures in a row are left, the success is on record, and so is that it
/// was no timeout. Failures on record stay, as long as they are not too old; tokens, the ban
/// and the half open handshakes are untouched. An address whose successes are at least three
/// in ten is then not suspicious.
pub proof fn law_success_ends_the_failures(s: IpView, now: u64)
    ensures
        s.succeeded(now).consecutive_failures == 0,
        s.succeeded(now).success_times.len() > 0,
        s.succeeded(now).success_times.last() == now,
        s.succeeded(now).timeout_events.len() > 0,
        s.succeeded(now).timeout_events.last() == (now, false),
        s.succeeded(now).failure_times == s.cleaned(now).failure_times,
        s.succeeded(now).request_times == s.cleaned(now).request_times,
        s.succeeded(now).tokens == s.tokens,
        s.succeeded(now).half_open == s.half_open,
        s.succeeded(now).banned_until == s.banned_until,
        ({
            let after = s.succeeded(now);
            let good = after.success_times.len();
            let all = after.success_times.len() + after.failure_times.len();
            10 * good >= 3 * all ==> !after.suspicious()
        }),
        // one success for two failures is enough
        s.succeeded(now).failure_times.len() <= 2 * s.succeeded(now).success_times.len()
            ==> !s.succeeded(now).suspicious(),
{
    lemma_newest_stays(s.success_times, 60_000_000_000, now);
    lemma_newest_event_stays(s.timeout_events, (now, false), 60_000_000_000, now);
}

proof fn lemma_newest_event_stays(
    events: Seq<(u64, bool)>,
    event: (u64, bool),
    window: u64,
    now: u64,
)
    requires
        event.0 == now,
    ensures
        recent_events(events.push(event), window, now).len() > 0,
        recent_events(events.push(event), window, now).last() == event,
    decreases events.len(),
{
    let all = events.push(event);
    if events.len() > 0 && expired(all[0].0, window, now) {
        assert(all.drop_first() =~= events.drop_first().push(event));
        lemma_newest_event_stays(events.drop_first(), event, window, now);
    } else {
        assert(all.last() == event);
    }
}

/// A failure counts once: one more in a row, one more on record, at this time. Two in a row
/// make any address suspicious, and so do successes that are fewer than three in ten of three
/// or more.
pub proof fn law_failures_make_suspicious(s: IpView, now: u64, later: u64)
    requires
        s.consecutive_failures < u32::MAX - 1,
    ensures
        s.failed(now).consecutive_failures == s.consecutive_failures + 1,
        s.failed(now).failure_times == s.failure_times.push(now),
        s.failed(now).success_times == s.success_times,
        s.failed(now).request_times == s.request_times,
        s.failed(now).tokens == s.tokens,
        s.failed(now).half_open == s.half_open,
        s.failed(now).banned_until == s.banned_until,
        s.blamed().consecutive_failures == s.consecutive_failures + 1,
        s.blamed().failure_times == s.failure_times,
        s.failed(now).failed(later).suspicious(),
        s.failed(now).blamed().suspicious(),
        s.consecutive_failures >= 2 ==> s.suspicious(),
        s.consecutive_failures < 2 ==> (s.suspicious() <==> s.success_times.len()
            + s.failure_times.len() >= 3 && 10 * s.success_times.len() < 3 * (
        s.success_times.len() + s.failure_times.len())),
        // a single failure of a new address is forgiven
        !IpView::fresh(now).failed(now).suspicious(),
        IpView::fresh(now).failed(now).failed(later).suspicious(),
{
}

/// Handshakes left half open are counted one by one, and closing one takes back what opening
/// it has added.
pub proof fn law_half_open_is_counted(s: IpView)
    requires
        s.half_open < usize::MAX,
    ensures
        s.opened().half_open == s.half_open + 1,
        s.opened() == (IpView { half_open: s.opened().half_open, ..s }),
        s.opened().closed() == s,
        s.half_open > 0 ==> s.closed().half_open == s.half_open - 1,
        s.half_open == 0 ==> s.closed() == s,
{
}

/// A handshake that times out is no longer half open, and the timeout is on record. The
/// address is banned, for a minute from now and no longer, if there are three or more events
/// on record and at least four in five of them are timeouts; else its ban stays as it was.
pub proof fn law_timeouts_lead_to_a_ban(s: IpView, now: u64, later: u64)
    requires
        now + 60_000_000_000 <= u64::MAX,
    ensures
        ({
            let after = s.timed_out(now);
            let events = after.timeout_events;
            let bad = timeouts(events);
            &&& after.half_open == (if s.half_open == 0 {
                0
            } else {
                s.half_open - 1
            })
            &&& events.len() > 0 && events.last() == (now, true)
            &&& after.tokens == s.tokens
            &&& after.consecutive_failures == s.consecutive_failures
            &&& if events.len() >= 3 && 5 * bad >= 4 * events.len() {
                after.banned(later) <==> later < now + 60_000_000_000
            } else {
                after.banned_until == s.banned_until
            }
        }),
{
    lemma_newest_event_stays(s.timeout_events, (now, true), 60_000_000_000, now);
}

/// A timeout on record counts, a success does not.
pub proof fn law_timeouts_are_counted(events: Seq<(u64, bool)>, at: u64)
    ensures
        timeouts(events.push((at, true))) == timeouts(events) + 1,
        timeouts(events.push((at, false))) == timeouts(events),
        timeouts(Seq::<(u64, bool)>::empty()) == 0,
        timeouts(events) <= events.len(),
    decreases events.len(),
{
    assert(events.push((at, true)).drop_last() =~= events);
    assert(events.push((at, false)).drop_last() =~= events);
    if events.len() > 0 {
        law_timeouts_are_counted(events.drop_last(), at);
    }
}

/// Three handshakes of a new address that time out within a minute get it banned; two do not.
pub proof fn law_three_timeouts_ban(a: u64, b: u64, c: u64)
    requires
        a <= b <= c <= a + 60_000_000_000,
        c + 60_000_000_000 <= u64::MAX,
    ensures
        !IpView::fresh(a).timed_out(a).timed_out(b).banned(b),
        IpView::fresh(a).timed_out(a).timed_out(b).timed_out(c).banned(c),
        !IpView::fresh(a).timed_out(a).timed_out(b).timed_out(c).banned(
            (c + 60_000_000_000) as u64,
        ),
{
    let none = Seq::<(u64, bool)>::empty();
    let one = none.push((a, true));
    let two = one.push((b, true));
    let three = two.push((c, true));
    assert(recent_events(one, 60_000_000_000, a) == one);
    assert(recent_events(two, 60_000_000_000, b) == two);
    assert(recent_events(three, 60_000_000_000, c) == three);
    law_timeouts_are_counted(none, a);
    law_timeouts_are_counted(one, b);
    law_timeouts_are_counted(two, c);
    assert(recent(Seq::<u64>::empty(), 60_000_000_000, a) =~= Seq::empty());
}

// ---------------------------------------------------------------------------
// The load of the machine
// ---------------------------------------------------------------------------

/// Is the machine idle: is less than 60 % of its processor, 70 % of its memory and 75 % of its
/// file descriptors in use, are fewer than 800 handshakes half open, and was it so before?
pub open spec fn idle(dos: DosView) -> bool {
    &&& dos.metrics.cpu < 600_000
    &&& dos.metrics.mem < 700_000
    &&& dos.metrics.fd < 750_000
    &&& dos.half_open.dom().len() < 800
    &&& forall|i: int| 0 <= i < dos.samples.len() ==> calm(#[trigger] dos.samples[i])
}

pub open spec fn calm(s: MetricSample) -> bool {
    &&& s.metrics.cpu < 600_000
    &&& s.metrics.mem < 700_000
    &&& s.metrics.fd < 750_000
    &&& s.half_open_total < 800
}

proof fn lemma_total_below(
    samples: Seq<MetricSample>,
    measure: spec_fn(MetricSample) -> int,
    max: int,
)
    requires
        samples.len() > 0,
        forall|i: int| 0 <= i < samples.len() ==> measure(#[trigger] samples[i]) < max,
    ensures
        total(samples, measure) < max * samples.len(),
    decreases samples.len(),
{
    let n = samples.len() as int;
    let rest = samples.drop_last();
    assert(measure(samples.last()) < max);
    assert(max * n == max * (n - 1) + max) by (nonlinear_arith);
    if rest.len() > 0 {
        assert forall|i: int| 0 <= i < rest.len() implies measure(#[trigger] rest[i]) < max by {
            assert(rest[i] == samples[i]);
        }
        lemma_total_below(rest, measure, max);
    } else {
        assert(total(rest, measure) == 0);
        assert(max * 0 == 0);
    }
}

proof fn lemma_total_of_equals(
    samples: Seq<MetricSample>,
    measure: spec_fn(MetricSample) -> int,
    v: int,
)
    requires
        forall|i: int| 0 <= i < samples.len() ==> measure(#[trigger] samples[i]) == v,
    ensures
        total(samples, measure) == v * samples.len(),
    decreases samples.len(),
{
    let n = samples.len() as int;
    if n > 0 {
        let rest = samples.drop_last();
        assert(measure(samples.last()) == v);
        assert forall|i: int| 0 <= i < rest.len() implies measure(#[trigger] rest[i]) == v by {
            assert(rest[i] == samples[i]);
        }
        lemma_total_of_equals(rest, measure, v);
        assert(v * n == v * (n - 1) + v) by (nonlinear_arith);
    } else {
        assert(v * 0 == 0);
    }
}

proof fn lemma_calm_samples(samples: Seq<MetricSample>)
    requires
        samples.len() > 0,
        forall|i: int| 0 <= i < samples.len() ==> calm(#[trigger] samples[i]),
    ensures
        sustained(samples) == 0,
{
    lemma_total_below(samples, |s: MetricSample| s.metrics.cpu as int, 600_000);
    lemma_total_below(samples, |s: MetricSample| s.metrics.mem as int, 700_000);
    lemma_total_below(samples, |s: MetricSample| s.metrics.fd as int, 750_000);
    lemma_total_below(samples, |s: MetricSample| s.half_open_total as int, 800);
    let n = samples.len() as int;
    assert(600_000 * n <= 700_000 * n && 700_000 * n <= 850_000 * n && 750_000 * n <= 900_000 * n
        && 800 * n <= 1000 * n);
}

proof fn lemma_recent_samples_calm(samples: Seq<MetricSample>, now: u64)
    requires
        forall|i: int| 0 <= i < samples.len() ==> calm(#[trigger] samples[i]),
    ensures
        ({
            let kept = recent_samples(samples, now);
            &&& kept.len() <= samples.len()
            &&& forall|i: int| 0 <= i < kept.len() ==> calm(#[trigger] kept[i])
        }),
    decreases samples.len(),
{
    if samples.len() > 0 && expired(samples[0].at, 30_000_000_000, now) {
        let rest = samples.drop_first();
        assert forall|i: int| 0 <= i < rest.len() implies calm(#[trigger] rest[i]) by {
            assert(rest[i] == samples[i + 1]);
        }
        lemma_recent_samples_calm(rest, now);
        assert(recent_samples(samples, now) == recent_samples(rest, now));
    } else {
        assert(recent_samples(samples, now) == samples);
    }
}

/// A sample is taken once a second at most, of what is measured now, and samples are kept for
/// 30 seconds.
pub proof fn law_samples_are_taken_once_a_second(dos: DosView, now: u64)
    ensures
        ({
            let kept = recent_samples(dos.samples, now);
            let after = dos.sampled(now);
            &&& after == (DosView { samples: after.samples, ..dos })
            &&& if kept.len() > 0 && now < kept.last().at + 1_000_000_000 {
                after.samples == kept
            } else {
                &&& after.samples.drop_last() == kept
                &&& after.samples.last().at == now
                &&& after.samples.last().metrics == dos.metrics
                &&& dos.half_open.dom().len() <= u64::MAX ==> after.samples.last().half_open_total
                    == dos.half_open.dom().len()
            }
            &&& kept.len() > 0 ==> kept[0].at + 30_000_000_000 >= now
        }),
{
    let kept = recent_samples(dos.samples, now);
    let after = dos.sampled(now);
    lemma_recent_samples_start(dos.samples, now);
    if !(kept.len() > 0 && now < kept.last().at + 1_000_000_000) {
        assert(after.samples.drop_last() =~= kept);
    }
}

proof fn lemma_recent_samples_start(samples: Seq<MetricSample>, now: u64)
    ensures
        ({
            let kept = recent_samples(samples, now);
            kept.len() > 0 ==> kept[0].at + 30_000_000_000 >= now
        }),
    decreases samples.len(),
{
    if samples.len() > 0 && expired(samples[0].at, 30_000_000_000, now) {
        lemma_recent_samples_start(samples.drop_first(), now);
    }
}

/// On an idle machine an address that sent fewer than 90 requests in the window is not asked
/// for a cookie on account of the load.
pub proof fn law_idle_machine_asks_nobody(dos: DosView, requests: nat, now: u64, draw: u32)
    requires
        idle(dos),
        dos.samples.len() <= u64::MAX,
        requests < 90,
    ensures
        dos.share(requests, now).num == 0,
        !dos.share(requests, now).hit(draw),
        quota_spec(dos.share(requests, now)) == 64,
        timeout_spec(dos.share(requests, now)) == 30_000_000_000,
{
    let n = dos.samples.len() as int;
    let rate = gradient(requests as int, 1, 90, 150, 35_000);
    assert(rate == 0);
    assert(rate * n == 0);
    if window_covered(dos.samples, now) {
        lemma_calm_samples(dos.samples);
        assert(0 < UNIT * n <= UNIT * 0xffff_ffff_ffff_ffff);
    }
    assert(0 <= draw * dos.share(requests, now).den) by (nonlinear_arith)
        requires
            draw >= 0,
            dos.share(requests, now).den >= 0,
    ;
}

/// At 70 % of the processor, 85 % of the memory, 90 % of the file descriptors, 1000 half open
/// handshakes or 150 requests of one address, everybody is asked, and below all of these an
/// operator that rolled the gradient back asks nobody.
pub proof fn law_hard_limits(dos: DosView, requests: nat, now: u64, draw: u32)
    ensures
        ({
            let over = dos.metrics.cpu >= 700_000 || dos.metrics.mem >= 850_000 || dos.metrics.fd
                >= 900_000 || dos.half_open.dom().len() >= 1000 || requests >= 150;
            let share = dos.share(requests, now);
            &&& over ==> share.is_one() && share.hit(draw) && quota_spec(share) == 4
                && timeout_spec(share) == 5_000_000_000
            &&& !over && dos.rollback ==> share.num == 0 && !share.hit(draw) && quota_spec(share)
                == 64 && timeout_spec(share) == 30_000_000_000
        }),
{
}

/// Without a sustained load, the share of addresses that are asked rises with the requests of
/// the address, in a straight line from three in ten at 90 requests to all at 150.
pub proof fn law_share_rises_with_requests(dos: DosView, requests: nat, now: u64)
    requires
        idle(dos),
        !dos.rollback,
        !window_covered(dos.samples, now),
        90 <= requests < 150,
    ensures
        ({
            let share = dos.share(requests, now);
            &&& share.den > 0
            &&& share.num * 600 == share.den * (180 + 7 * (requests - 90))
            &&& quota_spec(share) == 16
            &&& timeout_spec(share) == 15_000_000_000
        }),
{
}

/// A sustained load of one resource is answered in proportion: with the same value in each
/// sample, nothing below the first threshold, everybody from the second on, and between them
/// a share that rises in a straight line from three in ten to all.
pub proof fn law_sustained_load(samples: Seq<MetricSample>, v: int, which: int)
    requires
        samples.len() > 0,
        0 <= which < 4,
        forall|i: int|
            0 <= i < samples.len() ==> {
                let s = #[trigger] samples[i];
                &&& if which == 0 {
                    s.metrics.cpu == v
                } else {
                    s.metrics.cpu < 600_000
                }
                &&& if which == 1 {
                    s.metrics.mem == v
                } else {
                    s.metrics.mem < 700_000
                }
                &&& if which == 2 {
                    s.metrics.fd == v
                } else {
                    s.metrics.fd < 750_000
                }
                &&& if which == 3 {
                    s.half_open_total == v
                } else {
                    s.half_open_total < 800
                }
            },
    ensures
        ({
            let n = samples.len() as int;
            let (low, high): (int, int) = if which == 0 {
                (600_000, 700_000)
            } else if which == 1 {
                (700_000, 850_000)
            } else if which == 2 {
                (750_000, 900_000)
            } else {
                (800, 1000)
            };
            &&& v < low ==> sustained(samples) == 0
            &&& v >= high ==> sustained(samples) == UNIT * n
            &&& low <= v < high ==> sustained(samples) * (10 * (high - low)) == UNIT * n * (3 * (
            high - low) + 7 * (v - low))
        }),
{
    let n = samples.len() as int;
    let cpu = |s: MetricSample| s.metrics.cpu as int;
    let mem = |s: MetricSample| s.metrics.mem as int;
    let fd = |s: MetricSample| s.metrics.fd as int;
    let conn = |s: MetricSample| s.half_open_total as int;
    if which == 0 {
        lemma_total_of_equals(samples, cpu, v);
    } else {
        lemma_total_below(samples, cpu, 600_000);
    }
    if which == 1 {
        lemma_total_of_equals(samples, mem, v);
    } else {
        lemma_total_below(samples, mem, 700_000);
    }
    if which == 2 {
        lemma_total_of_equals(samples, fd, v);
    } else {
        lemma_total_below(samples, fd, 750_000);
    }
    if which == 3 {
        lemma_total_of_equals(samples, conn, v);
    } else {
        lemma_total_below(samples, conn, 800);
    }
    let (low, high, slope): (int, int, int) = if which == 0 {
        (600_000, 700_000, 21)
    } else if which == 1 {
        (700_000, 850_000, 14)
    } else if which == 2 {
        (750_000, 900_000, 14)
    } else {
        (800, 1000, 10_500)
    };
    assert(v < low ==> v * n < low * n) by (nonlinear_arith)
        requires
            n > 0,
    ;
    assert(v >= low ==> v * n >= low * n) by (nonlinear_arith)
        requires
            n > 0,
    ;
    assert(v >= high ==> v * n >= high * n) by (nonlinear_arith)
        requires
            n > 0,
    ;
    assert(v < high ==> v * n < high * n) by (nonlinear_arith)
        requires
            n > 0,
    ;
    assert(600_000 * n <= 700_000 * n && 700_000 * n <= 850_000 * n && 750_000 * n <= 900_000 * n
        && 800 * n <= 1000 * n);
    if low <= v < high {
        assert(v * n - low * n == (v - low) * n) by (nonlinear_arith);
        let over = v - low;
        assert(0 <= over * n) by (nonlinear_arith)
            requires
                0 <= over,
                0 < n,
        ;
        assert((over * n) * slope == over * n * slope);
        assert((900_000 * n + (over * n) * slope) * (10 * (high - low)) == 3_000_000 * n * (3 * (
        high - low) + 7 * over)) by (nonlinear_arith)
            requires
                slope * (high - low) == 2_100_000,
        ;
    }
}

/// More load never means fewer questions: if each sample of one series is at least as loaded
/// as that of another, so is the share.
pub proof fn law_totals_are_monotone(
    a: Seq<MetricSample>,
    b: Seq<MetricSample>,
    measure: spec_fn(MetricSample) -> int,
)
    requires
        a.len() == b.len(),
        forall|i: int| 0 <= i < a.len() ==> measure(#[trigger] a[i]) <= measure(b[i]),
    ensures
        total(a, measure) <= total(b, measure),
    decreases a.len(),
{
    if a.len() > 0 {
        let (x, y) = (a.drop_last(), b.drop_last());
        assert(measure(a.last()) <= measure(b.last()));
        assert forall|i: int| 0 <= i < x.len() implies measure(#[trigger] x[i]) <= measure(
            y[i],
        ) by {
            assert(x[i] == a[i]);
            assert(y[i] == b[i]);
        }
        law_totals_are_monotone(x, y, measure);
    }
}

/// The fewer are asked, the more may be left half open, and the longer.
pub proof fn law_limits_follow_the_share(ratio: Ratio)
    requires
        ratio.den > 0,
    ensures
        ratio.num == 0 ==> quota_spec(ratio) == 64 && timeout_spec(ratio) == 30_000_000_000,
        0 < ratio.num < ratio.den ==> quota_spec(ratio) == 16 && timeout_spec(ratio)
            == 15_000_000_000,
        ratio.num >= ratio.den ==> quota_spec(ratio) == 4 && timeout_spec(ratio) == 5_000_000_000,
{
}

/// A share is hit by as many of the draws as it says: a draw below the share of the largest
/// draw hits, and a larger one does not.
pub proof fn law_share_is_hit_in_proportion(ratio: Ratio, draw: u32)
    requires
        ratio.den > 0,
    ensures
        ratio.num >= ratio.den ==> ratio.hit(draw),
        ratio.num < ratio.den ==> (ratio.hit(draw) <==> draw * ratio.den < ratio.num * u32::MAX),
        ratio.num == 0 ==> !ratio.hit(draw),
{
    assert(0 <= draw * ratio.den) by (nonlinear_arith)
        requires
            ratio.den > 0,
            draw >= 0,
    ;
}

// ---------------------------------------------------------------------------
// What an address is answered
// ---------------------------------------------------------------------------

proof fn lemma_sampled_is_idle(dos: DosView, now: u64)
    requires
        idle(dos),
        dos.samples.len() < u64::MAX,
    ensures
        idle(dos.without_idle(now).sampled(now)),
        dos.without_idle(now).sampled(now).samples.len() <= u64::MAX,
{
    lemma_recent_samples_calm(dos.samples, now);
}

/// Right after a success an address is allowed in, without a cookie, on an idle machine: if it
/// is not banned, has a token, is below its quota of half open handshakes, has sent fewer
/// than 90 requests and succeeds at least three times in ten.
pub proof fn law_success_restores_trust(dos: DosView, ip: IpAddr, now: u64, draw: u32)
    requires
        idle(dos),
        dos.samples.len() < u64::MAX,
        dos.states.contains_key(ip),
        dos.states[ip].refilled(now).tokens > 0,
        !dos.states[ip].banned(now),
        dos.states[ip].half_open < 64,
        dos.states[ip].cleaned(now).request_times.len() < 89,
        ({
            let after = dos.success(ip, now).states[ip];
            10 * after.success_times.len() >= 3 * (after.success_times.len()
                + after.failure_times.len())
        }),
    ensures
        dos.success(ip, now).states[ip].consecutive_failures == 0,
        !dos.success(ip, now).states[ip].suspicious(),
        dos.success(ip, now).precheck_spec(ip, false, draw, now).1 == PrecheckDecision::Allow,
{
    let after = dos.success(ip, now);
    let before = dos.states[ip];
    law_success_ends_the_failures(before, now);
    lemma_nothing_left(before.request_times, 30_000_000_000, now);
    lemma_nothing_left(before.success_times.push(now), 60_000_000_000, now);
    lemma_nothing_left(before.failure_times, 60_000_000_000, now);
    let awake = after.without_idle(now);
    let sampled = awake.sampled(now);
    assert(idle(after));
    lemma_sampled_is_idle(after, now);
    let state = IpView { last_activity: now, ..awake.state_of(ip, now) };
    let paid = DosView::paid(state, false, now);
    if awake.states.contains_key(ip) {
        assert(awake.states[ip] == before.succeeded(now));
        assert(state.refilled(now).tokens == before.refilled(now).tokens);
    } else {
        assert(recent(Seq::<u64>::empty(), 30_000_000_000, now) =~= Seq::empty());
        assert(recent(Seq::<u64>::empty(), 60_000_000_000, now) =~= Seq::empty());
    }
    assert(!paid.suspicious());
    assert(paid.request_times.len() < 90);
    law_idle_machine_asks_nobody(sampled, paid.request_times.len(), now, draw);
}

/// An unknown address is allowed in, without a cookie, on an idle machine.
pub proof fn law_strangers_are_allowed(dos: DosView, ip: IpAddr, now: u64, draw: u32)
    requires
        idle(dos),
        dos.samples.len() < u64::MAX,
        !dos.states.contains_key(ip),
    ensures
        dos.precheck_spec(ip, false, draw, now).1 == PrecheckDecision::Allow,
        dos.precheck_spec(ip, true, draw, now).1 == PrecheckDecision::Allow,
        dos.precheck_spec(ip, false, draw, now).0.states[ip].tokens == 9,
        dos.precheck_spec(ip, true, draw, now).0.states[ip].tokens == 10,
        dos.precheck_spec(ip, false, draw, now).0.states[ip].request_times == seq![now],
{
    let awake = dos.without_idle(now);
    let sampled = awake.sampled(now);
    lemma_sampled_is_idle(dos, now);
    assert(recent(Seq::<u64>::empty(), 30_000_000_000, now) =~= Seq::empty());
    assert(recent(Seq::<u64>::empty(), 60_000_000_000, now) =~= Seq::empty());
    law_idle_machine_asks_nobody(sampled, 1, now, draw);
    assert(Seq::<u64>::empty().push(now) =~= seq![now]);
}

/// An address with two failures in a row, or with fewer than three successes in ten, is not
/// allowed in without a cookie, however idle the machine; with one it is, as long as it is
/// neither banned nor at its quota.
pub proof fn law_offenders_need_a_cookie(dos: DosView, ip: IpAddr, now: u64, draw: u32)
    requires
        dos.states.contains_key(ip),
        elapsed_spec(dos.states[ip].last_activity, now) < 300_000_000_000,
        ({
            let s = dos.states[ip].cleaned(now);
            let all = s.success_times.len() + s.failure_times.len();
            s.consecutive_failures >= 2 || all >= 3 && 10 * s.success_times.len() < 3 * all
        }),
    ensures
        dos.precheck_spec(ip, false, draw, now).1 != PrecheckDecision::Allow,
        !dos.states[ip].banned(now) && dos.states[ip].half_open < 4 ==> dos.precheck_spec(
            ip,
            true,
            draw,
            now,
        ).1 == PrecheckDecision::Allow,
{
    let s = dos.states[ip];
    let awake = dos.without_idle(now);
    assert(awake.states.contains_key(ip) && awake.states[ip] == s);
    let state = IpView { last_activity: now, ..s };
    let paid = DosView::paid(state, false, now);
    assert(paid.success_times == s.cleaned(now).success_times);
    assert(paid.failure_times == s.cleaned(now).failure_times);
}

/// Two recorded failures make the next request of an address without a cookie fail, whatever
/// the load.
pub proof fn law_two_failures_close_the_door(
    dos: DosView,
    ip: IpAddr,
    a: u64,
    b: u64,
    now: u64,
    draw: u32,
)
    requires
        dos.states.contains_key(ip) ==> dos.states[ip].consecutive_failures < u32::MAX - 1
            && elapsed_spec(dos.states[ip].last_activity, now) < 300_000_000_000,
        elapsed_spec(a, now) < 300_000_000_000,
    ensures
        dos.failure(ip, a).failure(ip, b).precheck_spec(ip, false, draw, now).1
            != PrecheckDecision::Allow,
        dos.failure(ip, a).failure(ip, b).success(ip, now).states[ip].consecutive_failures == 0,
{
    law_offenders_need_a_cookie(dos.failure(ip, a).failure(ip, b), ip, now, draw);
}

/// A request without a cookie that is not turned away at the door costs one token, and is
/// counted; one with a cookie costs none. A request that finds no token counts as a failure,
/// and so does one that is challenged or over the quota.
pub proof fn law_requests_cost_a_token(
    dos: DosView,
    ip: IpAddr,
    has_cookie: bool,
    draw: u32,
    now: u64,
)
    ensures
        ({
            let s = dos.without_idle(now).state_of(ip, now);
            let (after, verdict) = dos.precheck_spec(ip, has_cookie, draw, now);
            let t = after.states[ip];
            let full = s.refilled(now).tokens;
            &&& after.states.contains_key(ip)
            &&& t.last_activity == now
            &&& t.half_open == s.half_open
            &&& t.banned_until == s.banned_until
            &&& t.success_times.len() <= s.success_times.len()
            &&& if s.banned(now) {
                &&& t.tokens == s.tokens
                &&& t.consecutive_failures > s.consecutive_failures || s.consecutive_failures
                    == u32::MAX
                &&& t.failure_times == s.failure_times
            } else if !has_cookie && full == 0 {
                &&& t.tokens == 0
                &&& t.failure_times == s.failure_times.push(now)
                &&& t.request_times == s.request_times
            } else {
                &&& t.tokens == (if has_cookie {
                    s.tokens as int
                } else {
                    full - 1
                })
                &&& t.request_times.len() == s.cleaned(now).request_times.len() + 1
                &&& t.request_times.last() == now
                &&& verdict == PrecheckDecision::Allow ==> t.failure_times == s.cleaned(
                    now,
                ).failure_times && t.consecutive_failures == s.consecutive_failures
                &&& verdict != PrecheckDecision::Allow ==> t.failure_times == s.cleaned(
                    now,
                ).failure_times.push(now) && (t.consecutive_failures == s.consecutive_failures + 1
                    || s.consecutive_failures == u32::MAX)
            }
        }),
{
    let s = dos.without_idle(now).state_of(ip, now);
    lemma_nothing_left(s.success_times, 60_000_000_000, now);
}

/// Addresses that have been silent for five minutes are forgotten, and no others.
pub proof fn law_silent_addresses_are_forgotten(dos: DosView, ip: IpAddr, now: u64)
    requires
        dos.states.contains_key(ip),
    ensures
        elapsed_spec(dos.states[ip].last_activity, now) < 300_000_000_000
            ==> dos.without_idle(now).states.contains_key(ip) && dos.without_idle(now).states[ip]
            == dos.states[ip],
        elapsed_spec(dos.states[ip].last_activity, now) >= 300_000_000_000
            ==> !dos.without_idle(now).states.contains_key(ip),
        dos.without_idle(now).half_open == dos.half_open,
        dos.without_idle(now).samples == dos.samples,
        dos.without_idle(now).metrics == dos.metrics,
{
}

/// What is recorded of one address leaves the others, the load and the half open handshakes
/// as they are.
pub proof fn law_records_touch_one_address(dos: DosView, ip: IpAddr, other: IpAddr, now: u64)
    requires
        ip != other,
    ensures
        dos.success(ip, now).state_of(other, now) == dos.state_of(other, now),
        dos.failure(ip, now).state_of(other, now) == dos.state_of(other, now),
        dos.success(ip, now).states.contains_key(other) == dos.states.contains_key(other),
        dos.failure(ip, now).states.contains_key(other) == dos.states.contains_key(other),
        dos.failure(ip, now).states.contains_key(ip),
        dos.success(ip, now).states.contains_key(ip) == dos.states.contains_key(ip),
        dos.success(ip, now) == (DosView { states: dos.success(ip, now).states, ..dos }),
        dos.failure(ip, now) == (DosView { states: dos.failure(ip, now).states, ..dos }),
        dos.state_of(ip, now).consecutive_failures < u32::MAX ==> dos.failure(
            ip,
            now,
        ).states[ip].consecutive_failures == dos.state_of(ip, now).consecutive_failures + 1,
{
}

/// A failure is on record from then on, also of an address that was not known.
pub proof fn law_failure_is_on_record(dos: DosView, ip: IpAddr, now: u64)
    ensures
        dos.failure(ip, now).states.contains_key(ip),
        dos.failure(ip, now).states[ip].failure_times.len() > 0,
        dos.failure(ip, now).states[ip].failure_times.last() == now,
        dos.failure(ip, now).states[ip].consecutive_failures > 0,
{
    lemma_newest_stays(dos.state_of(ip, now).failure_times, 60_000_000_000, now);
}

/// A registered handshake is half open: it counts against its address, and it is overdue once
/// its time has passed and not before. Releasing it ends that.
pub proof fn law_registered_is_half_open(
    dos: DosView,
    id: u32,
    ip: IpAddr,
    now: u64,
    timeout: u64,
    later: u64,
)
    requires
        now <= later,
        dos.state_of(ip, now).half_open < usize::MAX,
    ensures
        ({
            let after = dos.registered(id, ip, now);
            &&& after.half_open.contains_key(id)
            &&& after.states[ip].half_open == dos.state_of(ip, now).half_open + 1
            &&& after.overdue(id, timeout, later) <==> later >= now + timeout
            &&& !after.released(id).half_open.contains_key(id)
            &&& !after.released(id).overdue(id, timeout, later)
            &&& after.released(id).states[ip].half_open == dos.state_of(ip, now).half_open
        }),
        forall|other: u32|
            other != id ==> (#[trigger] dos.registered(id, ip, now).overdue(other, timeout, later)
                <==> dos.overdue(other, timeout, later)),
        forall|other: u32|
            other != id ==> (#[trigger] dos.released(id).overdue(other, timeout, later)
                <==> dos.overdue(other, timeout, later)),
        !dos.half_open.contains_key(id) ==> dos.released(id) == dos,
{
}

/// Reaping takes the handshakes that are listed, and only those.
pub proof fn law_reaping_takes_the_listed(dos: DosView, ids: Seq<u32>, now: u64)
    ensures
        forall|id: u32| #[trigger]
            dos.reaped(ids, now).half_open.contains_key(id) <==> dos.half_open.contains_key(id)
                && !ids.contains(id),
        forall|id: u32|
            dos.reaped(ids, now).half_open.contains_key(id) ==> #[trigger] dos.reaped(
                ids,
                now,
            ).half_open[id] == dos.half_open[id],
        dos.reaped(ids, now).metrics == dos.metrics,
        dos.reaped(ids, now).samples == dos.samples,
        dos.reaped(ids, now).rollback == dos.rollback,
    decreases ids.len(),
{
    if ids.len() > 0 {
        let rest = ids.drop_last();
        law_reaping_takes_the_listed(dos, rest, now);
        assert forall|id: u32| #[trigger]
            dos.reaped(ids, now).half_open.contains_key(id) <==> dos.half_open.contains_key(id)
                && !ids.contains(id) by {
            if ids.contains(id) && id != ids.last() {
                let i = choose|i: int| 0 <= i < ids.len() && ids[i] == id;
                assert(rest[i] == id);
            }
            if rest.contains(id) {
                let i = choose|i: int| 0 <= i < rest.len() && rest[i] == id;
                assert(ids[i] == id);
            }
            assert(ids.contains(ids.last())) by {
                assert(ids[ids.len() - 1] == ids.last());
            }
        }
    }
}

/// The address of a handshake that is reaped gets the timeout on its record, and has one half
/// open handshake less.
pub proof fn law_reaping_blames_the_address(dos: DosView, id: u32, now: u64)
    requires
        dos.half_open.contains_key(id),
    ensures
        ({
            let ip = dos.half_open[id].0;
            let before = dos.state_of(ip, now);
            let after = dos.reaped(seq![id], now).states[ip];
            &&& after.timeout_events.len() > 0
            &&& after.timeout_events.last() == (now, true)
            &&& before.half_open > 0 ==> after.half_open == before.half_open - 1
        }),
        forall|other: IpAddr|
            other != dos.half_open[id].0 ==> #[trigger] dos.reaped(
                seq![id],
                now,
            ).states.contains_key(other) == dos.states.contains_key(other),
{
    let ids = seq![id];
    let ip = dos.half_open[id].0;
    assert(ids.drop_last() =~= Seq::empty());
    assert(ids.last() == id);
    reveal_with_fuel(DosView::reaped, 3);
    assert(dos.reaped(ids.drop_last(), now) == dos);
    lemma_newest_event_stays(
        dos.state_of(ip, now).timeout_events,
        (now, true),
        60_000_000_000,
        now,
    );
}

/// A measurement replaces what was measured before; what was not measured stays.
pub proof fn law_measurements_replace(
    dos: DosView,
    cpu: Option<u32>,
    mem: Option<u32>,
    fd: Option<u32>,
)
    ensures
        cpu is Some ==> dos.measured(cpu, mem, fd).metrics.cpu == cpu->0,
        cpu is None ==> dos.measured(cpu, mem, fd).metrics.cpu == dos.metrics.cpu,
        mem is Some ==> dos.measured(cpu, mem, fd).metrics.mem == mem->0,
        mem is None ==> dos.measured(cpu, mem, fd).metrics.mem == dos.metrics.mem,
        fd is Some ==> dos.measured(cpu, mem, fd).metrics.fd == fd->0,
        fd is None ==> dos.measured(cpu, mem, fd).metrics.fd == dos.metrics.fd,
        dos.measured(cpu, mem, fd).states == dos.states,
        dos.measured(cpu, mem, fd).half_open == dos.half_open,
        dos.measured(cpu, mem, fd).samples == dos.samples,
{
}

/// A new guard knows nobody, has nothing half open, and takes the machine to be idle.
pub proof fn law_new_guard_is_idle(now: u64)
    ensures
        idle(DosView::fresh(now)),
        !DosView::fresh(now).rollback,
        DosView::fresh(now).last_sample is None,
        DosView::fresh(now).last_reap == now,
        forall|ip: IpAddr| !(#[trigger] DosView::fresh(now).states.contains_key(ip)),
        forall|id: u32| !(#[trigger] DosView::fresh(now).half_open.contains_key(id)),
{
    assert(DosView::fresh(now).half_open.dom() =~= Set::<u32>::empty());
}

/// The load counts as sustained once the samples go back 29 seconds. The share that is asked is
/// then the larger of what the load calls for and what the requests of the address call for.
pub proof fn law_share_is_the_larger(dos: DosView, requests: nat, now: u64)
    requires
        0 < dos.samples.len() <= u64::MAX,
        !dos.rollback,
        dos.metrics.cpu < 700_000,
        dos.metrics.mem < 850_000,
        dos.metrics.fd < 900_000,
        dos.half_open.dom().len() < 1000,
        requests < 150,
        0 <= sustained(dos.samples) <= 3_000_000 * dos.samples.len(),
    ensures
        window_covered(dos.samples, now) <==> now >= dos.samples[0].at + 29_000_000_000,
        now >= dos.samples[0].at + 29_000_000_000 ==> {
            let share = dos.share(requests, now);
            let n = dos.samples.len() as int;
            let rate = if requests < 90 {
                0
            } else {
                900_000 + 35_000 * (requests - 90)
            };
            &&& share.den == 3_000_000 * n
            &&& share.num >= sustained(dos.samples)
            &&& share.num >= rate * n
            &&& share.num == sustained(dos.samples) || share.num == rate * n
        },
        now < dos.samples[0].at + 29_000_000_000 && requests < 90 ==> dos.share(requests, now).num
            == 0,
{
    let n = dos.samples.len() as int;
    let rate = gradient(requests as int, 1, 90, 150, 35_000);
    assert(rate == (if requests < 90 {
        0
    } else {
        900_000 + 35_000 * (requests - 90)
    }));
    assert(0 <= rate * n <= 3_000_000 * n) by (nonlinear_arith)
        requires
            0 <= rate <= 3_000_000,
            0 < n,
    ;
}

/// A load above all is taken for all.
pub proof fn law_loads_are_clamped(load: u32)
    ensures
        clamped_load(load) <= 1_000_000,
        load <= 1_000_000 ==> clamped_load(load) == load,
        load > 1_000_000 ==> clamped_load(load) == 1_000_000,
{
}

/// An idle machine stays idle when a sample is taken.
pub proof fn lemma_sample_keeps_idle(dos: DosView, now: u64)
    requires
        idle(dos),
        dos.samples.len() < u64::MAX,
    ensures
        idle(dos.sampled(now)),
        dos.sampled(now).samples.len() <= u64::MAX,
{
    lemma_recent_samples_calm(dos.samples, now);
}

} // verus!
