//! Defence against floods of initiations.
//!
//! Before an initiation is looked at, its address is checked: how often it sends, how its
//! handshakes ended, and how busy the machine is. The busier the machine, the larger the
//! share of addresses that have to prove with a cookie that they receive what is sent to
//! them, and the fewer handshakes may be left half open.

use crate::assoc::Assoc;
use crate::hybrid_v23::ip_state::{
    expired, is_expired, IpState, IpView, LAST_TIME, SLIDING_WINDOW_DURATION,
};
use crate::hybrid_v23::runtime::{
    cpu_load, cpu_snapshot, fd_load, linux_cpu_usage, linux_fd_usage, linux_memory_usage,
    memory_load, CpuSnapshot, RuntimeReading, FULL_LOAD,
};
use crate::macs::{elapsed, elapsed_spec};
use crate::types::{IpAddr, SocketAddr};
use std::collections::VecDeque;
use vstd::prelude::*;
use vstd::utf8::encode_utf8;

verus! {

/// How long an address is remembered after its last initiation: 300 seconds.
pub const IDLE_LIMIT: u64 = 300_000_000_000;

/// How far apart load samples are: one second.
pub const RESOURCE_SAMPLE_INTERVAL: u64 = 1_000_000_000;

/// How far apart searches for timed out handshakes are: 15 seconds.
pub const HALF_OPEN_REAP_INTERVAL: u64 = 15_000_000_000;

/// How long the machine must have been busy before challenges become likelier.
pub const SUSTAINED_SPAN: u64 = 29_000_000_000;

pub const CPU_WARN_LOW: u32 = 600_000;

pub const CPU_WARN_HIGH: u32 = 700_000;

pub const MEM_WARN_LOW: u32 = 700_000;

pub const MEM_WARN_HIGH: u32 = 850_000;

pub const FD_WARN_LOW: u32 = 750_000;

pub const FD_WARN_HIGH: u32 = 900_000;

pub const CONN_WARN_LOW: u32 = 800;

pub const CONN_WARN_HIGH: u32 = 1000;

/// Requests in 30 seconds: three a second.
pub const RATE_WARN_LOW: u32 = 90;

/// Requests in 30 seconds: five a second.
pub const RATE_WARN_HIGH: u32 = 150;

pub const HALF_OPEN_QUOTA_NORMAL: usize = 64;

pub const HALF_OPEN_QUOTA_GRADIENT: usize = 16;

pub const HALF_OPEN_QUOTA_HARD: usize = 4;

/// The unit in which shares of challenged addresses are counted.
pub const UNIT: u128 = 3_000_000;

/// The share at the warning level: three tenths.
pub const WARN_SHARE: u128 = 900_000;

/// The rest of the unit, which is spread evenly between the two levels of a measure.
pub const RISING_SHARE: u128 = 2_100_000;

/// What becomes of an initiation before it is looked at.
#[derive(Clone, Copy, Debug, Eq, PartialEq, Structural)]
pub enum PrecheckDecision {
    Allow,
    Challenge,
    Drop,
}

/// How busy the machine is.
#[derive(Clone, Copy, Debug)]
pub struct SystemMetrics {
    pub cpu: u32,
    pub mem: u32,
    pub fd: u32,
}

/// How busy the machine was at some time.
#[derive(Clone, Copy, Debug)]
pub struct MetricSample {
    pub at: u64,
    pub metrics: SystemMetrics,
    pub half_open_total: u64,
}

/// A share of challenged addresses, as a fraction.
#[derive(Clone, Copy, Debug)]
pub struct Ratio {
    pub num: u128,
    pub den: u128,
}

impl Ratio {
    /// A fraction of at most one, small enough to be compared with a random number.
    pub open spec fn wf(self) -> bool {
        0 < self.den <= UNIT * 0x1_0000_0000_0000_0000 && self.num <= self.den
    }

    pub open spec fn is_one(self) -> bool {
        self.num >= self.den
    }

    pub open spec fn is_positive(self) -> bool {
        self.num > 0
    }

    /// Does a random number fall into the share? Into the whole every number does.
    pub open spec fn hit(self, draw: u32) -> bool {
        self.is_one() || draw * self.den < self.num * 0xffff_ffff
    }
}

/// How long a handshake may be left half open: the more challenges, the shorter.
pub open spec fn timeout_spec(ratio: Ratio) -> u64 {
    if ratio.is_one() {
        5_000_000_000
    } else if ratio.is_positive() {
        15_000_000_000
    } else {
        30_000_000_000
    }
}

/// How many handshakes an address may leave half open: the more challenges, the fewer.
pub open spec fn quota_spec(ratio: Ratio) -> usize {
    if ratio.is_one() {
        HALF_OPEN_QUOTA_HARD
    } else if ratio.is_positive() {
        HALF_OPEN_QUOTA_GRADIENT
    } else {
        HALF_OPEN_QUOTA_NORMAL
    }
}

/// The share that an average of `sum / count` calls for, in units of `1 / (UNIT * count)`:
/// nothing below the warning level, everything from the high level on, and between the two
/// a share that rises evenly from three tenths. The slope divides the rising share by the
/// distance of the levels.
pub open spec fn gradient(sum: int, count: int, warn: int, high: int, slope: int) -> int {
    if sum >= high * count {
        UNIT * count
    } else if sum >= warn * count {
        WARN_SHARE * count + (sum - warn * count) * slope
    } else {
        0
    }
}

pub open spec fn larger(a: int, b: int) -> int {
    if a >= b {
        a
    } else {
        b
    }
}

/// The samples that remain when the oldest ones have left the window.
pub open spec fn recent_samples(samples: Seq<MetricSample>, now: u64) -> Seq<MetricSample>
    decreases samples.len(),
{
    if samples.len() > 0 && expired(samples[0].at, SLIDING_WINDOW_DURATION, now) {
        recent_samples(samples.drop_first(), now)
    } else {
        samples
    }
}

/// The sum of a measure over samples.
pub open spec fn total(samples: Seq<MetricSample>, measure: spec_fn(MetricSample) -> int) -> int
    decreases samples.len(),
{
    if samples.len() == 0 {
        0
    } else {
        total(samples.drop_last(), measure) + measure(samples.last())
    }
}

/// Do the samples cover the whole window?
pub open spec fn window_covered(samples: Seq<MetricSample>, now: u64) -> bool {
    samples.len() > 0 && elapsed_spec(samples[0].at, now) >= SUSTAINED_SPAN
}

/// The share that the average load over the window calls for, in units of
/// `1 / (UNIT * samples)`.
pub open spec fn sustained(samples: Seq<MetricSample>) -> int {
    let n = samples.len() as int;
    let cpu = total(samples, |s: MetricSample| s.metrics.cpu as int);
    let mem = total(samples, |s: MetricSample| s.metrics.mem as int);
    let fd = total(samples, |s: MetricSample| s.metrics.fd as int);
    let conn = total(samples, |s: MetricSample| s.half_open_total as int);
    larger(
        larger(
            gradient(cpu, n, CPU_WARN_LOW as int, CPU_WARN_HIGH as int, 21),
            gradient(mem, n, MEM_WARN_LOW as int, MEM_WARN_HIGH as int, 14),
        ),
        larger(
            gradient(fd, n, FD_WARN_LOW as int, FD_WARN_HIGH as int, 14),
            gradient(conn, n, CONN_WARN_LOW as int, CONN_WARN_HIGH as int, 10_500),
        ),
    )
}

/// What the defence knows, with sequences and maps for its tables.
pub ghost struct DosView {
    pub states: Map<IpAddr, IpView>,
    pub metrics: SystemMetrics,
    pub samples: Seq<MetricSample>,
    /// The half open handshakes: whose they are and when they were answered.
    pub half_open: Map<u32, (IpAddr, u64)>,
    pub last_reap: u64,
    pub rollback: bool,
    pub last_sample: Option<u64>,
    pub last_cpu: Option<CpuSnapshot>,
}

impl DosView {
    /// Nothing is known and nothing is going on.
    pub open spec fn fresh(now: u64) -> Self {
        DosView {
            states: Map::empty(),
            metrics: SystemMetrics { cpu: 100_000, mem: 100_000, fd: 100_000 },
            samples: Seq::empty(),
            half_open: Map::empty(),
            last_reap: now,
            rollback: false,
            last_sample: None,
            last_cpu: None,
        }
    }

    /// What is known of an address.
    pub open spec fn state_of(self, ip: IpAddr, now: u64) -> IpView {
        if self.states.contains_key(ip) {
            self.states[ip]
        } else {
            IpView::fresh(now)
        }
    }

    pub open spec fn with_state(self, ip: IpAddr, state: IpView) -> Self {
        DosView { states: self.states.insert(ip, state), ..self }
    }

    /// With a sample of the present load, unless one was taken within the last second.
    pub open spec fn sampled(self, now: u64) -> Self {
        let kept = recent_samples(self.samples, now);
        DosView {
            samples: if kept.len() > 0 && elapsed_spec(kept.last().at, now)
                < RESOURCE_SAMPLE_INTERVAL {
                kept
            } else {
                kept.push(
                    MetricSample {
                        at: now,
                        metrics: self.metrics,
                        half_open_total: self.half_open.dom().len() as u64,
                    },
                )
            },
            ..self
        }
    }

    /// Is the machine or the address at a limit?
    pub open spec fn overloaded(self, requests: nat) -> bool {
        ||| self.metrics.cpu >= CPU_WARN_HIGH
        ||| self.metrics.mem >= MEM_WARN_HIGH
        ||| self.metrics.fd >= FD_WARN_HIGH
        ||| self.half_open.dom().len() >= CONN_WARN_HIGH
        ||| requests >= RATE_WARN_HIGH
    }

    /// The share of initiations of an address with the given number of requests that are
    /// challenged: all at a limit; else none without warning levels; else what the average
    /// load and the rate of requests call for.
    pub open spec fn share(self, requests: nat, now: u64) -> Ratio {
        let rate = gradient(
            requests as int,
            1,
            RATE_WARN_LOW as int,
            RATE_WARN_HIGH as int,
            35_000,
        );
        if self.overloaded(requests) {
            Ratio { num: 1, den: 1 }
        } else if self.rollback {
            Ratio { num: 0, den: 1 }
        } else if window_covered(self.samples, now) {
            let n = self.samples.len() as int;
            Ratio {
                num: larger(sustained(self.samples), rate * n) as u128,
                den: (UNIT * n) as u128,
            }
        } else {
            Ratio { num: rate as u128, den: UNIT }
        }
    }

    /// Without the addresses that have been quiet for too long.
    pub open spec fn without_idle(self, now: u64) -> Self {
        DosView {
            states: Map::new(
                |ip: IpAddr|
                    self.states.contains_key(ip) && elapsed_spec(
                        self.states[ip].last_activity,
                        now,
                    ) < IDLE_LIMIT,
                |ip: IpAddr| self.states[ip],
            ),
            ..self
        }
    }

    /// What an address is known for when its initiation is checked, before anything is
    /// decided: it is active, has paid a token if it has no cookie, and its request is
    /// remembered.
    pub open spec fn paid(state: IpView, has_cookie: bool, now: u64) -> IpView {
        let filled = if has_cookie {
            state
        } else {
            state.refilled(now)
        };
        let spent = if has_cookie {
            filled
        } else {
            IpView { tokens: (filled.tokens - 1) as u32, ..filled }
        };
        let cleaned = spent.cleaned(now);
        IpView { request_times: cleaned.request_times.push(now), ..cleaned }
    }

    /// What becomes of an initiation, and what is known afterwards.
    pub open spec fn precheck_spec(self, ip: IpAddr, has_cookie: bool, draw: u32, now: u64) -> (
        Self,
        PrecheckDecision,
    ) {
        let awake = self.without_idle(now);
        let state = IpView { last_activity: now, ..awake.state_of(ip, now) };
        if state.banned(now) {
            (awake.with_state(ip, state.blamed()), PrecheckDecision::Drop)
        } else if !has_cookie && state.refilled(now).tokens == 0 {
            (awake.with_state(ip, state.refilled(now).failed(now)), PrecheckDecision::Drop)
        } else {
            let paid = Self::paid(state, has_cookie, now);
            let sampled = awake.sampled(now);
            let share = sampled.share(paid.request_times.len(), now);
            if paid.half_open >= quota_spec(share) {
                (sampled.with_state(ip, paid.failed(now)), PrecheckDecision::Drop)
            } else if has_cookie {
                (sampled.with_state(ip, paid), PrecheckDecision::Allow)
            } else if paid.suspicious() || share.hit(draw) {
                (sampled.with_state(ip, paid.failed(now)), PrecheckDecision::Challenge)
            } else {
                (sampled.with_state(ip, paid), PrecheckDecision::Allow)
            }
        }
    }

    /// A handshake of the address succeeded.
    pub open spec fn success(self, ip: IpAddr, now: u64) -> Self {
        if self.states.contains_key(ip) {
            self.with_state(ip, self.states[ip].succeeded(now))
        } else {
            self
        }
    }

    /// A handshake of the address failed.
    pub open spec fn failure(self, ip: IpAddr, now: u64) -> Self {
        self.with_state(ip, self.state_of(ip, now).failed(now).cleaned(now))
    }

    /// A handshake was answered.
    pub open spec fn registered(self, id: u32, ip: IpAddr, now: u64) -> Self {
        DosView {
            half_open: self.half_open.insert(id, (ip, now)),
            ..self.with_state(ip, self.state_of(ip, now).opened())
        }
    }

    /// A handshake is no longer waited for.
    pub open spec fn released(self, id: u32) -> Self {
        if self.half_open.contains_key(id) {
            let ip = self.half_open[id].0;
            let rest = DosView { half_open: self.half_open.remove(id), ..self };
            if self.states.contains_key(ip) {
                rest.with_state(ip, self.states[ip].closed())
            } else {
                rest
            }
        } else {
            self
        }
    }

    /// Has a half open handshake timed out?
    pub open spec fn overdue(self, id: u32, timeout: u64, now: u64) -> bool {
        self.half_open.contains_key(id) && elapsed_spec(self.half_open[id].1, now) >= timeout
    }

    /// The given handshakes timed out, one after the other.
    pub open spec fn reaped(self, ids: Seq<u32>, now: u64) -> Self
        decreases ids.len(),
    {
        if ids.len() == 0 {
            self
        } else {
            let before = self.reaped(ids.drop_last(), now);
            let id = ids.last();
            let ip = before.half_open[id].0;
            DosView {
                half_open: before.half_open.remove(id),
                ..before.with_state(ip, before.state_of(ip, now).timed_out(now))
            }
        }
    }

    /// With new readings of the load.
    pub open spec fn measured(self, cpu: Option<u32>, mem: Option<u32>, fd: Option<u32>) -> Self {
        DosView {
            metrics: SystemMetrics {
                cpu: match cpu {
                    Some(v) => v,
                    None => self.metrics.cpu,
                },
                mem: match mem {
                    Some(v) => v,
                    None => self.metrics.mem,
                },
                fd: match fd {
                    Some(v) => v,
                    None => self.metrics.fd,
                },
            },
            ..self
        }
    }
}

/// Checks initiations before they are looked at.
pub struct GradientDosChecker {
    ip_states: Assoc<IpAddr, IpState>,
    pub global_metrics: SystemMetrics,
    pub metric_samples: VecDeque<MetricSample>,
    half_open_by_id: Assoc<u32, (IpAddr, u64)>,
    pub last_reap: u64,
    pub rollback_to_hard_thresholds: bool,
    pub last_sample: Option<u64>,
    pub last_cpu: Option<CpuSnapshot>,
}

/// The views of the states in a table.
pub open spec fn state_views(states: Map<IpAddr, IpState>) -> Map<IpAddr, IpView> {
    states.map_values(|s: IpState| s@)
}

proof fn lemma_state_views_insert(states: Map<IpAddr, IpState>, ip: IpAddr, s: IpState)
    ensures
        state_views(states.insert(ip, s)) == state_views(states).insert(ip, s@),
{
    assert(state_views(states.insert(ip, s)) =~= state_views(states).insert(ip, s@));
}

proof fn lemma_total_bound(samples: Seq<MetricSample>, measure: spec_fn(MetricSample) -> int, max: int)
    requires
        forall|s: MetricSample| 0 <= #[trigger] measure(s) <= max,
    ensures
        0 <= total(samples, measure) <= samples.len() * max,
    decreases samples.len(),
{
    if samples.len() > 0 {
        lemma_total_bound(samples.drop_last(), measure, max);
        let n = samples.len() as int;
        assert((n - 1) * max + max == n * max) by (nonlinear_arith);
    } else {
        assert(0 * max == 0);
    }
}

proof fn lemma_gradient_bound(sum: int, count: int, warn: int, high: int, slope: int)
    requires
        0 <= count,
        0 <= warn < high,
        slope * (high - warn) == RISING_SHARE,
        0 <= slope,
    ensures
        0 <= gradient(sum, count, warn, high, slope) <= UNIT * count,
{
    if sum < high * count && sum >= warn * count {
        let over = sum - warn * count;
        assert(over * slope <= (high * count - warn * count) * slope) by (nonlinear_arith)
            requires
                0 <= slope,
                over <= high * count - warn * count,
        ;
        assert((high * count - warn * count) * slope == count * (slope * (high - warn)))
            by (nonlinear_arith);
        assert(count * (slope * (high - warn)) == count * RISING_SHARE);
        assert(0 <= over * slope) by (nonlinear_arith)
            requires
                0 <= slope,
                0 <= over,
        ;
    }
}

/// The share that an average calls for.
fn gradient_ratio(sum: u128, count: u128, warn: u128, high: u128, slope: u128) -> (r: u128)
    requires
        count <= 0x1_0000_0000_0000_0000,
        warn < high <= 1_000_000,
        slope * (high - warn) == RISING_SHARE,
    ensures
        r == gradient(sum as int, count as int, warn as int, high as int, slope as int),
        r <= UNIT * count,
{
    proof {
        lemma_gradient_bound(sum as int, count as int, warn as int, high as int, slope as int);
        assert(high * count <= 1_000_000 * 0x1_0000_0000_0000_0000) by (nonlinear_arith)
            requires
                high <= 1_000_000,
                count <= 0x1_0000_0000_0000_0000,
        ;
        assert(warn * count <= high * count) by (nonlinear_arith)
            requires
                warn < high,
        ;
    }
    if sum >= high * count {
        UNIT * count
    } else if sum >= warn * count {
        WARN_SHARE * count + (sum - warn * count) * slope
    } else {
        0
    }
}

fn max(a: u128, b: u128) -> (r: u128)
    ensures
        r == larger(a as int, b as int),
{
    if a >= b {
        a
    } else {
        b
    }
}

/// How long a handshake may be left half open.
fn timeout_for_ratio(ratio: &Ratio) -> (r: u64)
    ensures
        r == timeout_spec(*ratio),
{
    if ratio.num >= ratio.den {
        5_000_000_000
    } else if ratio.num > 0 {
        15_000_000_000
    } else {
        30_000_000_000
    }
}

/// How many handshakes an address may leave half open.
fn half_open_quota_for_ratio(ratio: &Ratio) -> (r: usize)
    ensures
        r == quota_spec(*ratio),
{
    if ratio.num >= ratio.den {
        HALF_OPEN_QUOTA_HARD
    } else if ratio.num > 0 {
        HALF_OPEN_QUOTA_GRADIENT
    } else {
        HALF_OPEN_QUOTA_NORMAL
    }
}

fn prune_metric_samples(samples: &mut VecDeque<MetricSample>, now: u64)
    ensures
        final(samples)@ == recent_samples(old(samples)@, now),
{
    while samples.len() > 0 && is_expired(samples[0].at, SLIDING_WINDOW_DURATION, now)
        invariant
            recent_samples(samples@, now) == recent_samples(old(samples)@, now),
        decreases samples@.len(),
    {
        assert(samples@.subrange(1, samples@.len() as int) =~= samples@.drop_first());
        let _ = samples.pop_front();
    }
}

/// The share that the average load over the window calls for.
fn sustained_resource_ratio(samples: &VecDeque<MetricSample>) -> (r: u128)
    ensures
        r == sustained(samples@),
        r <= UNIT * samples@.len(),
{
    let ghost cpu_of = |s: MetricSample| s.metrics.cpu as int;
    let ghost mem_of = |s: MetricSample| s.metrics.mem as int;
    let ghost fd_of = |s: MetricSample| s.metrics.fd as int;
    let ghost conn_of = |s: MetricSample| s.half_open_total as int;
    let mut i: usize = 0;
    let mut cpu: u128 = 0;
    let mut mem: u128 = 0;
    let mut fd: u128 = 0;
    let mut conn: u128 = 0;
    assert(samples@.take(0) =~= Seq::empty());
    while i < samples.len()
        invariant
            i <= samples.len(),
            cpu_of == (|s: MetricSample| s.metrics.cpu as int),
            mem_of == (|s: MetricSample| s.metrics.mem as int),
            fd_of == (|s: MetricSample| s.metrics.fd as int),
            conn_of == (|s: MetricSample| s.half_open_total as int),
            cpu == total(samples@.take(i as int), cpu_of),
            mem == total(samples@.take(i as int), mem_of),
            fd == total(samples@.take(i as int), fd_of),
            conn == total(samples@.take(i as int), conn_of),
        decreases samples.len() - i,
    {
        proof {
            let next = samples@.take(i + 1);
            assert(next.drop_last() =~= samples@.take(i as int));
            lemma_total_bound(next, cpu_of, u64::MAX as int);
            lemma_total_bound(next, mem_of, u64::MAX as int);
            lemma_total_bound(next, fd_of, u64::MAX as int);
            lemma_total_bound(next, conn_of, u64::MAX as int);
            assert(next.len() * (u64::MAX as int) <= 0xffff_ffff_ffff_ffff * 0xffff_ffff_ffff_ffff)
                by (nonlinear_arith)
                requires
                    next.len() <= 0xffff_ffff_ffff_ffff,
            ;
        }
        let sample = samples[i];
        cpu = cpu + sample.metrics.cpu as u128;
        mem = mem + sample.metrics.mem as u128;
        fd = fd + sample.metrics.fd as u128;
        conn = conn + sample.half_open_total as u128;
        i += 1;
    }
    assert(samples@.take(i as int) =~= samples@);
    let n: u128 = samples.len() as u128;
    let a = gradient_ratio(cpu, n, CPU_WARN_LOW as u128, CPU_WARN_HIGH as u128, 21);
    let b = gradient_ratio(mem, n, MEM_WARN_LOW as u128, MEM_WARN_HIGH as u128, 14);
    let c = gradient_ratio(fd, n, FD_WARN_LOW as u128, FD_WARN_HIGH as u128, 14);
    let d = gradient_ratio(conn, n, CONN_WARN_LOW as u128, CONN_WARN_HIGH as u128, 10_500);
    max(max(a, b), max(c, d))
}

/// A load within its bounds.
fn clamp_load(load: u32) -> (r: u32)
    ensures
        r == clamped_load(load),
{
    if load > FULL_LOAD {
        FULL_LOAD
    } else {
        load
    }
}

/// A load within its bounds.
pub open spec fn clamped_load(load: u32) -> u32 {
    if load > FULL_LOAD {
        FULL_LOAD
    } else {
        load
    }
}

/// Is it time for a new reading of the load?
pub open spec fn reading_due(last: Option<u64>, now: u64) -> bool {
    !(last matches Some(t) && elapsed_spec(t, now) < RESOURCE_SAMPLE_INTERVAL)
}

impl GradientDosChecker {
    pub closed spec fn view(&self) -> DosView {
        DosView {
            states: state_views(self.ip_states@),
            metrics: self.global_metrics,
            samples: self.metric_samples@,
            half_open: self.half_open_by_id@,
            last_reap: self.last_reap,
            rollback: self.rollback_to_hard_thresholds,
            last_sample: self.last_sample,
            last_cpu: self.last_cpu,
        }
    }

    /// Each of the two tables holds a key once.
    pub closed spec fn wf(&self) -> bool {
        self.ip_states.wf() && self.half_open_by_id.wf()
    }

    pub fn new(now: u64) -> (r: Self)
        ensures
            r.wf(),
            r@ == DosView::fresh(now),
    {
        let r = GradientDosChecker {
            ip_states: Assoc::new(),
            global_metrics: SystemMetrics { cpu: 100_000, mem: 100_000, fd: 100_000 },
            metric_samples: VecDeque::new(),
            half_open_by_id: Assoc::new(),
            last_reap: now,
            rollback_to_hard_thresholds: false,
            last_sample: None,
            last_cpu: None,
        };
        assert(r@.states =~= Map::empty());
        r
    }

    /// Takes a sample of the present load, unless one was taken within the last second.
    fn record_metric_sample(&mut self, now: u64)
        requires
            old(self).wf(),
        ensures
            final(self).wf(),
            final(self)@ == old(self)@.sampled(now),
            final(self).ip_states == old(self).ip_states,
            final(self).half_open_by_id == old(self).half_open_by_id,
    {
        proof {
            self.half_open_by_id.lemma_len();
        }
        let half_open_total: u64 = self.half_open_by_id.entries.len() as u64;
        prune_metric_samples(&mut self.metric_samples, now);
        let n: usize = self.metric_samples.len();
        if n > 0 && elapsed(self.metric_samples[n - 1].at, now) < RESOURCE_SAMPLE_INTERVAL {
            return;
        }
        self.metric_samples.push_back(
            MetricSample { at: now, metrics: self.global_metrics, half_open_total },
        );
    }

    /// Turns the warning levels off and on.
    pub fn set_rollback_to_hard_thresholds(&mut self, enabled: bool)
        requires
            old(self).wf(),
        ensures
            final(self).wf(),
            final(self)@ == (DosView { rollback: enabled, ..old(self)@ }),
    {
        self.rollback_to_hard_thresholds = enabled;
    }

    /// The share of initiations that are challenged, with a new sample of the load.
    fn current_global_ratio(&mut self, requests: usize, now: u64) -> (r: Ratio)
        requires
            old(self).wf(),
        ensures
            final(self).wf(),
            final(self)@ == old(self)@.sampled(now),
            final(self).ip_states == old(self).ip_states,
            final(self).half_open_by_id == old(self).half_open_by_id,
            r == final(self)@.share(requests as nat, now),
            r.wf(),
    {
        self.record_metric_sample(now);
        proof {
            self.half_open_by_id.lemma_len();
        }
        let metrics = self.global_metrics;
        let half_open_total: usize = self.half_open_by_id.entries.len();
        if metrics.cpu >= CPU_WARN_HIGH || metrics.mem >= MEM_WARN_HIGH || metrics.fd
            >= FD_WARN_HIGH || half_open_total >= CONN_WARN_HIGH as usize || requests
            >= RATE_WARN_HIGH as usize {
            return Ratio { num: 1, den: 1 };
        }
        if self.rollback_to_hard_thresholds {
            return Ratio { num: 0, den: 1 };
        }
        let rate = gradient_ratio(
            requests as u128,
            1,
            RATE_WARN_LOW as u128,
            RATE_WARN_HIGH as u128,
            35_000,
        );
        let n: usize = self.metric_samples.len();
        if n > 0 && elapsed(self.metric_samples[0].at, now) >= SUSTAINED_SPAN {
            let load = sustained_resource_ratio(&self.metric_samples);
            proof {
                assert(rate * n <= UNIT * n) by (nonlinear_arith)
                    requires
                        rate <= UNIT,
                ;
                assert(UNIT * n <= UNIT * 0x1_0000_0000_0000_0000);
            }
            Ratio { num: max(load, rate * n as u128), den: UNIT * n as u128 }
        } else {
            Ratio { num: rate, den: UNIT }
        }
    }

    /// Forgets the addresses that have been quiet for too long.
    fn forget_idle(&mut self, now: u64)
        requires
            old(self).wf(),
        ensures
            final(self).wf(),
            final(self)@ == old(self)@.without_idle(now),
            final(self).half_open_by_id == old(self).half_open_by_id,
    {
        let ghost start = self.ip_states@;
        let mut i: usize = self.ip_states.entries.len();
        while i > 0
            invariant
                i <= self.ip_states.entries@.len(),
                self.wf(),
                *self == (GradientDosChecker { ip_states: self.ip_states, ..*old(self) }),
                start == old(self).ip_states@,
                forall|k: IpAddr| #[trigger]
                    self.ip_states@.contains_key(k) ==> start.contains_key(k) && self.ip_states@[k]
                        == start[k],
                forall|k: IpAddr| #[trigger]
                    start.contains_key(k) && elapsed_spec(start[k].last_activity, now) < IDLE_LIMIT
                        ==> self.ip_states@.contains_key(k),
                forall|j: int|
                    i <= j < self.ip_states.entries@.len() ==> elapsed_spec(
                        (#[trigger] self.ip_states.entries@[j]).1.last_activity,
                        now,
                    ) < IDLE_LIMIT,
            decreases i,
        {
            i -= 1;
            proof {
                self.ip_states.lemma_at(i as int);
            }
            if elapsed(self.ip_states.entries[i].1.last_activity, now) >= IDLE_LIMIT {
                let ghost before = self.ip_states.entries@;
                let _ = self.ip_states.remove_at(i);
                assert(forall|j: int|
                    i <= j < self.ip_states.entries@.len() ==> #[trigger] self.ip_states.entries@[j]
                        == before[j + 1]);
            }
        }
        proof {
            assert forall|k: IpAddr| #[trigger] self.ip_states@.contains_key(k) implies elapsed_spec(
                self.ip_states@[k].last_activity,
                now,
            ) < IDLE_LIMIT by {
                self.ip_states.lemma_key(k);
            }
            assert(self@.states =~= old(self)@.without_idle(now).states);
        }
    }

    /// Where the state of an address stands; an unknown address gets one.
    fn entry(&mut self, ip: IpAddr, now: u64) -> (r: usize)
        requires
            old(self).wf(),
        ensures
            final(self).wf(),
            final(self).ip_states.at(r as int, ip),
            final(self)@ == old(self)@.with_state(ip, old(self)@.state_of(ip, now)),
            final(self).ip_states.entries@[r as int].1@ == old(self)@.state_of(ip, now),
            final(self).half_open_by_id == old(self).half_open_by_id,
    {
        match self.ip_states.find(&ip) {
            Some(i) => {
                proof {
                    assert(self@.states.insert(ip, self@.states[ip]) =~= self@.states);
                }
                i
            },
            None => {
                let fresh = IpState::new(now);
                proof {
                    lemma_state_views_insert(self.ip_states@, ip, fresh);
                }
                self.ip_states.insert(ip, fresh)
            },
        }
    }

    /// A changed entry is a changed state of its address.
    proof fn lemma_entry_changed(self, before: Self, i: int, ip: IpAddr)
        requires
            before.wf(),
            before.ip_states.at(i, ip),
            self.ip_states.entries@.len() == before.ip_states.entries@.len(),
            self.ip_states.entries@[i].0 == ip,
            forall|j: int|
                0 <= j < before.ip_states.entries@.len() && j != i ==> self.ip_states.entries@[j]
                    == before.ip_states.entries@[j],
        ensures
            self.ip_states.wf(),
            self@.states == before@.states.insert(ip, self.ip_states.entries@[i].1@),
    {
        self.ip_states.lemma_update(before.ip_states, i);
        lemma_state_views_insert(before.ip_states@, ip, self.ip_states.entries@[i].1);
    }

    /// Decides what becomes of an initiation from `src`. `draw` is a random number.
    pub fn precheck(&mut self, src: &SocketAddr, has_valid_cookie: bool, draw: u32, now: u64) -> (r:
        PrecheckDecision)
        requires
            old(self).wf(),
        ensures
            final(self).wf(),
            (final(self)@, r) == old(self)@.precheck_spec(src.ip, has_valid_cookie, draw, now),
    {
        let ip = src.ip;
        self.forget_idle(now);
        let ghost awake = self@;
        let i = self.entry(ip, now);
        let ghost start = *self;
        let ghost state = IpView { last_activity: now, ..awake.state_of(ip, now) };
        self.ip_states.entries[i].1.last_activity = now;
        assert(self.ip_states.entries@[i as int].1@ == state);
        if self.ip_states.entries[i].1.is_banned(now) {
            self.ip_states.entries[i].1.blame();
            proof {
                self.lemma_entry_changed(start, i as int, ip);
                assert(self@.states =~= awake.with_state(ip, state.blamed()).states);
            }
            return PrecheckDecision::Drop;
        }
        if !has_valid_cookie {
            self.ip_states.entries[i].1.refill_tokens(now);
            if self.ip_states.entries[i].1.tokens == 0 {
                self.ip_states.entries[i].1.fail(now);
                proof {
                    self.lemma_entry_changed(start, i as int, ip);
                    assert(self@.states =~= awake.with_state(
                        ip,
                        state.refilled(now).failed(now),
                    ).states);
                }
                return PrecheckDecision::Drop;
            }
            let tokens: u32 = self.ip_states.entries[i].1.tokens;
            self.ip_states.entries[i].1.tokens = tokens - 1;
        }
        self.ip_states.entries[i].1.clean_windows(now);
        self.ip_states.entries[i].1.request_times.push_back(now);
        let ghost paid = DosView::paid(state, has_valid_cookie, now);
        assert(self.ip_states.entries@[i as int].1@ == paid);
        let behavior_trigger = self.ip_states.entries[i].1.is_suspicious();
        let requests: usize = self.ip_states.entries[i].1.request_times.len();
        proof {
            self.lemma_entry_changed(start, i as int, ip);
        }
        let share = self.current_global_ratio(requests, now);
        let ghost sampled = awake.sampled(now);
        let ghost middle = *self;
        proof {
            assert(self@.states =~= sampled.with_state(ip, paid).states);
            assert(share == sampled.share(requests as nat, now));
        }
        let quota = half_open_quota_for_ratio(&share);
        if self.ip_states.entries[i].1.half_open >= quota {
            self.ip_states.entries[i].1.fail(now);
            proof {
                self.lemma_entry_changed(middle, i as int, ip);
                assert(self@.states =~= sampled.with_state(ip, paid.failed(now)).states);
            }
            return PrecheckDecision::Drop;
        }
        if has_valid_cookie {
            return PrecheckDecision::Allow;
        }
        proof {
            assert(draw * share.den <= 0xffff_ffff * (UNIT * 0x1_0000_0000_0000_0000))
                by (nonlinear_arith)
                requires
                    draw <= 0xffff_ffff,
                    share.den <= UNIT * 0x1_0000_0000_0000_0000,
            ;
        }
        let challenged = behavior_trigger || share.num >= share.den || (draw as u128) * share.den
            < share.num * 0xffff_ffff;
        if challenged {
            self.ip_states.entries[i].1.fail(now);
            proof {
                self.lemma_entry_changed(middle, i as int, ip);
                assert(self@.states =~= sampled.with_state(ip, paid.failed(now)).states);
            }
            return PrecheckDecision::Challenge;
        }
        PrecheckDecision::Allow
    }

    /// A handshake of the address succeeded.
    pub fn record_success(&mut self, src_ip: IpAddr, now: u64)
        requires
            old(self).wf(),
        ensures
            final(self).wf(),
            final(self)@ == old(self)@.success(src_ip, now),
    {
        match self.ip_states.find(&src_ip) {
            Some(i) => {
                let ghost before = *self;
                self.ip_states.entries[i].1.succeed(now);
                proof {
                    self.lemma_entry_changed(before, i as int, src_ip);
                }
            },
            None => {},
        }
    }

    /// A handshake of the address failed.
    pub fn record_failure(&mut self, src_ip: IpAddr, now: u64)
        requires
            old(self).wf(),
        ensures
            final(self).wf(),
            final(self)@ == old(self)@.failure(src_ip, now),
    {
        let i = self.entry(src_ip, now);
        let ghost before = *self;
        self.ip_states.entries[i].1.fail(now);
        self.ip_states.entries[i].1.clean_windows(now);
        proof {
            self.lemma_entry_changed(before, i as int, src_ip);
            assert(self@.states =~= old(self)@.failure(src_ip, now).states);
        }
    }

    /// Takes in the load of the processor.
    pub fn update_global_cpu_usage(&mut self, usage: u32, now: u64)
        requires
            old(self).wf(),
        ensures
            final(self).wf(),
            final(self)@ == old(self)@.measured(Some(clamped_load(usage)), None, None).sampled(now),
    {
        self.global_metrics.cpu = clamp_load(usage);
        self.record_metric_sample(now);
    }

    /// Takes in the load of memory and file descriptors.
    pub fn update_resource_usage(&mut self, memory: u32, fd: u32, now: u64)
        requires
            old(self).wf(),
        ensures
            final(self).wf(),
            final(self)@ == old(self)@.measured(
                None,
                Some(clamped_load(memory)),
                Some(clamped_load(fd)),
            ).sampled(now),
    {
        self.global_metrics.mem = clamp_load(memory);
        self.global_metrics.fd = clamp_load(fd);
        self.record_metric_sample(now);
    }

    /// Is it time for a new reading of the load?
    pub fn is_reading_due(&self, now: u64) -> (r: bool)
        ensures
            r == reading_due(self@.last_sample, now),
    {
        match self.last_sample {
            Some(last) => elapsed(last, now) >= RESOURCE_SAMPLE_INTERVAL,
            None => true,
        }
    }

    /// Takes in a reading of the load, if it is time for one. Where nothing can be read the
    /// warning levels are turned off.
    pub fn sample_runtime_metrics(&mut self, reading: &RuntimeReading, now: u64)
        requires
            old(self).wf(),
        ensures
            final(self).wf(),
            final(self)@ == old(self)@.read(*reading, now),
    {
        if !self.is_reading_due(now) {
            return;
        }
        self.last_sample = Some(now);
        let cpu = linux_cpu_usage(&mut self.last_cpu, &reading.stat);
        let mem = linux_memory_usage(&reading.meminfo);
        let fd = linux_fd_usage(reading.open_files, &reading.limits);
        if cpu.is_none() && mem.is_none() && fd.is_none() {
            self.rollback_to_hard_thresholds = true;
            return;
        }
        if let Some(cpu) = cpu {
            self.global_metrics.cpu = clamp_load(cpu);
        }
        if let Some(mem) = mem {
            self.global_metrics.mem = clamp_load(mem);
        }
        if let Some(fd) = fd {
            self.global_metrics.fd = clamp_load(fd);
        }
        self.rollback_to_hard_thresholds = false;
        self.record_metric_sample(now);
    }

    /// Counts a handshake that was answered.
    pub fn register_half_open(&mut self, id: u32, src_ip: IpAddr, now: u64)
        requires
            old(self).wf(),
        ensures
            final(self).wf(),
            final(self)@ == old(self)@.registered(id, src_ip, now),
    {
        let _ = self.half_open_by_id.insert(id, (src_ip, now));
        let i = self.entry(src_ip, now);
        let ghost before = *self;
        self.ip_states.entries[i].1.open();
        proof {
            self.lemma_entry_changed(before, i as int, src_ip);
            assert(self@.states =~= old(self)@.registered(id, src_ip, now).states);
        }
    }

    /// No longer waits for a handshake that was answered.
    pub fn release_half_open(&mut self, id: u32)
        requires
            old(self).wf(),
        ensures
            final(self).wf(),
            final(self)@ == old(self)@.released(id),
    {
        match self.half_open_by_id.remove(&id) {
            Some((src_ip, _)) => {
                match self.ip_states.find(&src_ip) {
                    Some(i) => {
                        let ghost before = *self;
                        self.ip_states.entries[i].1.close();
                        proof {
                            self.lemma_entry_changed(before, i as int, src_ip);
                        }
                    },
                    None => {},
                }
            },
            None => {
                assert(self@.half_open =~= old(self)@.half_open);
            },
        }
    }
}

impl GradientDosChecker {
    /// Looks for half open handshakes that have timed out, if it is time for that. They are
    /// no longer waited for, and their addresses are blamed. Returns their indices, in the
    /// order in which they were found.
    pub fn reap_expired_half_open(&mut self, now: u64) -> (r: Vec<u32>)
        requires
            old(self).wf(),
            now <= LAST_TIME,
        ensures
            final(self).wf(),
            elapsed_spec(old(self)@.last_reap, now) < HALF_OPEN_REAP_INTERVAL ==> r@
                == Seq::<u32>::empty() && final(self)@ == old(self)@,
            elapsed_spec(old(self)@.last_reap, now) >= HALF_OPEN_REAP_INTERVAL ==> {
                let searched = (DosView { last_reap: now, ..old(self)@ }).sampled(now);
                let timeout = timeout_spec(searched.share(0, now));
                &&& r@.no_duplicates()
                &&& forall|id: u32| #[trigger]
                    r@.contains(id) <==> searched.overdue(id, timeout, now)
                &&& final(self)@ == searched.reaped(r@, now)
            },
    {
        let mut ids: Vec<u32> = Vec::new();
        if elapsed(self.last_reap, now) < HALF_OPEN_REAP_INTERVAL {
            return ids;
        }
        self.last_reap = now;
        let ratio = self.current_global_ratio(0, now);
        let timeout = timeout_for_ratio(&ratio);
        let ghost searched = self@;
        let ghost entries = self.half_open_by_id.entries@;
        let mut i: usize = self.half_open_by_id.entries.len();
        assert(searched.reaped(ids@, now) == searched);
        while i > 0
            invariant
                now <= LAST_TIME,
                self.wf(),
                i <= self.half_open_by_id.entries@.len(),
                i <= entries.len(),
                self@ == searched.reaped(ids@, now),
                ids@.no_duplicates(),
                forall|j: int| 0 <= j < i ==> self.half_open_by_id.entries@[j] == entries[j],
                forall|j: int|
                    i <= j < self.half_open_by_id.entries@.len() ==> elapsed_spec(
                        (#[trigger] self.half_open_by_id.entries@[j]).1.1,
                        now,
                    ) < timeout,
                forall|k: u32| #[trigger]
                    self@.half_open.contains_key(k) ==> searched.half_open.contains_key(k)
                        && self@.half_open[k] == searched.half_open[k],
                forall|k: u32| #[trigger]
                    ids@.contains(k) ==> searched.overdue(k, timeout, now)
                        && !self@.half_open.contains_key(k),
                forall|k: u32| #[trigger]
                    searched.overdue(k, timeout, now) ==> ids@.contains(k)
                        || self@.half_open.contains_key(k),
            decreases i,
        {
            i -= 1;
            proof {
                self.half_open_by_id.lemma_at(i as int);
            }
            let (id, (ip, born)) = self.half_open_by_id.entries[i];
            if elapsed(born, now) >= timeout {
                let ghost before = *self;
                let _ = self.half_open_by_id.remove_at(i);
                assert(forall|j: int|
                    i <= j < self.half_open_by_id.entries@.len() ==> #[trigger]
                        self.half_open_by_id.entries@[j] == before.half_open_by_id.entries@[j + 1]);
                let at = self.entry(ip, now);
                let ghost middle = *self;
                self.ip_states.entries[at].1.time_out(now);
                proof {
                    self.lemma_entry_changed(middle, at as int, ip);
                    assert(ids@.push(id).drop_last() =~= ids@);
                    assert(self@.states =~= searched.reaped(ids@.push(id), now).states);
                    assert(self@ == searched.reaped(ids@.push(id), now));
                    assert(searched.overdue(id, timeout, now));
                    assert(!ids@.contains(id));
                }
                let ghost earlier = ids@;
                ids.push(id);
                proof {
                    assert forall|k: u32| #[trigger] ids@.contains(k) <==> earlier.contains(k) || k
                        == id by {
                        if earlier.contains(k) {
                            let j = choose|j: int| 0 <= j < earlier.len() && earlier[j] == k;
                            assert(ids@[j] == k);
                        }
                        assert(ids@[earlier.len() as int] == id);
                    }
                }
            }
        }
        proof {
            assert forall|k: u32| #[trigger] self@.half_open.contains_key(k) implies elapsed_spec(
                self@.half_open[k].1,
                now,
            ) < timeout by {
                self.half_open_by_id.lemma_key(k);
            }
        }
        ids
    }
}

impl DosView {
    /// With a reading of the load, if it is time for one.
    pub open spec fn read(self, reading: RuntimeReading, now: u64) -> Self {
        if !reading_due(self.last_sample, now) {
            self
        } else {
            let current = match reading.stat {
                Some(text) => cpu_snapshot(encode_utf8(text@)),
                None => None,
            };
            let cpu = match (self.last_cpu, current) {
                (Some(before), Some(after)) => cpu_load(before, after),
                _ => None,
            };
            let mem = match reading.meminfo {
                Some(text) => memory_load(encode_utf8(text@)),
                None => None,
            };
            let fd = match (reading.open_files, reading.limits) {
                (Some(used), Some(text)) => fd_load(used as nat, encode_utf8(text@)),
                _ => None,
            };
            let noted = DosView {
                last_sample: Some(now),
                last_cpu: if current is Some {
                    current
                } else {
                    self.last_cpu
                },
                ..self
            };
            if cpu is None && mem is None && fd is None {
                DosView { rollback: true, ..noted }
            } else {
                (DosView { rollback: false, ..noted.measured(cpu, mem, fd) }).sampled(now)
            }
        }
    }
}

// ---------------------------------------------------------------------------
// What the check guarantees
// ---------------------------------------------------------------------------

/// An address that is banned gets nothing, with or without a cookie.
pub proof fn law_banned_is_dropped(
    dos: DosView,
    ip: IpAddr,
    has_cookie: bool,
    draw: u32,
    now: u64,
)
    requires
        dos.without_idle(now).state_of(ip, now).banned(now),
    ensures
        dos.precheck_spec(ip, has_cookie, draw, now).1 == PrecheckDecision::Drop,
{
}

/// An address without a cookie whose tokens are used up gets nothing.
pub proof fn law_empty_bucket_is_dropped(dos: DosView, ip: IpAddr, draw: u32, now: u64)
    requires
        dos.without_idle(now).state_of(ip, now).refilled(now).tokens == 0,
    ensures
        dos.precheck_spec(ip, false, draw, now).1 == PrecheckDecision::Drop,
{
}

/// An address that has left as many handshakes half open as is ever tolerated gets nothing,
/// with or without a cookie.
pub proof fn law_full_quota_is_dropped(
    dos: DosView,
    ip: IpAddr,
    has_cookie: bool,
    draw: u32,
    now: u64,
)
    requires
        dos.without_idle(now).state_of(ip, now).half_open >= HALF_OPEN_QUOTA_NORMAL,
    ensures
        dos.precheck_spec(ip, has_cookie, draw, now).1 == PrecheckDecision::Drop,
{
}

/// A valid cookie suffices: an address that is not banned, and has left few handshakes half
/// open, is let through however busy the machine is. It is never challenged.
pub proof fn law_cookie_is_honoured(dos: DosView, ip: IpAddr, draw: u32, now: u64)
    ensures
        dos.precheck_spec(ip, true, draw, now).1 != PrecheckDecision::Challenge,
        ({
            let state = dos.without_idle(now).state_of(ip, now);
            !state.banned(now) && state.half_open < HALF_OPEN_QUOTA_HARD ==> dos.precheck_spec(
                ip,
                true,
                draw,
                now,
            ).1 == PrecheckDecision::Allow
        }),
{
}

/// On a machine at its limit nobody is let through without a cookie, whatever is drawn.
pub proof fn law_overload_demands_cookies(dos: DosView, ip: IpAddr, draw: u32, now: u64)
    requires
        dos.overloaded(0),
    ensures
        dos.precheck_spec(ip, false, draw, now).1 != PrecheckDecision::Allow,
        ({
            let state = dos.without_idle(now).state_of(ip, now);
            !state.banned(now) && state.refilled(now).tokens > 0 && state.half_open
                < HALF_OPEN_QUOTA_HARD ==> dos.precheck_spec(ip, false, draw, now).1
                == PrecheckDecision::Challenge
        }),
{
    let state = IpView {
        last_activity: now,
        ..dos.without_idle(now).state_of(ip, now)
    };
    let paid = DosView::paid(state, false, now);
    let sampled = dos.without_idle(now).sampled(now);
    assert(sampled.overloaded(paid.request_times.len()));
    let share = sampled.share(paid.request_times.len(), now);
    assert(share.num == 1 && share.den == 1);
    assert(share.hit(draw));
}

/// Without warning levels the limits still hold: at a limit everything is challenged, below
/// it nothing.
pub proof fn law_rollback_keeps_limits(dos: DosView, requests: nat, now: u64)
    requires
        dos.rollback,
    ensures
        dos.overloaded(requests) ==> dos.share(requests, now).is_one(),
        !dos.overloaded(requests) ==> !dos.share(requests, now).is_positive(),
{
}

/// The check of one address leaves what is known of the others as it is, but for those that
/// have been quiet for too long.
pub proof fn law_others_are_untouched(
    dos: DosView,
    ip: IpAddr,
    has_cookie: bool,
    draw: u32,
    now: u64,
    other: IpAddr,
)
    requires
        other != ip,
    ensures
        ({
            let after = dos.precheck_spec(ip, has_cookie, draw, now).0;
            &&& after.states.contains_key(other) <==> dos.without_idle(now).states.contains_key(
                other,
            )
            &&& after.states.contains_key(other) ==> after.states[other] == dos.states[other]
            &&& after.half_open == dos.half_open
        }),
{
}

/// Giving up a half open handshake takes back what answering it did.
pub proof fn law_release_undoes_register(dos: DosView, id: u32, ip: IpAddr, now: u64)
    requires
        !dos.half_open.contains_key(id),
        dos.states.contains_key(ip),
        dos.states[ip].half_open < usize::MAX,
    ensures
        dos.registered(id, ip, now).released(id) == dos,
{
    let after = dos.registered(id, ip, now).released(id);
    assert(dos.states[ip].opened().closed() == dos.states[ip]);
    assert(after.states =~= dos.states);
    assert(after.half_open =~= dos.half_open);
}

} // verus!
