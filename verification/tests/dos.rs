//! The defence against floods, and what it measures.

use hybrid_wireguard::hybrid_v23::dos::{
    GradientDosChecker, MetricSample, PrecheckDecision, SystemMetrics, HALF_OPEN_QUOTA_HARD,
    HALF_OPEN_QUOTA_NORMAL, HALF_OPEN_REAP_INTERVAL, RESOURCE_SAMPLE_INTERVAL,
};
use hybrid_wireguard::hybrid_v23::ip_state::{SLIDING_WINDOW_DURATION, TOKEN_BUCKET_CAPACITY};
use hybrid_wireguard::hybrid_v23::runtime::{
    linux_cpu_usage, linux_fd_usage, linux_memory_usage, RuntimeReading,
};
use hybrid_wireguard::ratelimiter::RateLimiter;
use hybrid_wireguard::types::{IpAddr, SocketAddr};

const SECOND: u64 = 1_000_000_000;
const START: u64 = 1_000 * SECOND;

fn source(last: u8) -> SocketAddr {
    SocketAddr { ip: IpAddr::V4([198, 51, 100, last]), port: 12345 }
}

/// A number that is as likely as any other.
const DRAW: u32 = 0x8000_0000;

#[test]
fn precheck_drops_when_token_bucket_empty() {
    let mut checker = GradientDosChecker::new(START);
    let src = source(10);
    for _ in 0..TOKEN_BUCKET_CAPACITY {
        assert_eq!(checker.precheck(&src, false, DRAW, START), PrecheckDecision::Allow);
    }
    assert_eq!(checker.precheck(&src, false, DRAW, START), PrecheckDecision::Drop);
}

#[test]
fn precheck_challenges_at_cpu_hard_threshold() {
    let mut checker = GradientDosChecker::new(START);
    let src = source(11);
    checker.update_global_cpu_usage(750_000, START);
    assert_eq!(checker.precheck(&src, false, DRAW, START), PrecheckDecision::Challenge);
    assert_eq!(checker.precheck(&src, true, DRAW, START), PrecheckDecision::Allow);
}

#[test]
fn a_hard_limit_challenges_whatever_is_drawn() {
    for draw in [0, 1, DRAW, 0xffff_ff80, u32::MAX - 1, u32::MAX] {
        let mut checker = GradientDosChecker::new(START);
        let src = source(11);
        checker.update_global_cpu_usage(750_000, START);
        assert_eq!(checker.precheck(&src, false, draw, START), PrecheckDecision::Challenge);
        assert_eq!(checker.precheck(&src, true, draw, START), PrecheckDecision::Allow);
    }
}

#[test]
fn precheck_drops_when_half_open_quota_is_full() {
    let mut checker = GradientDosChecker::new(START);
    let src = source(12);
    for id in 1..=HALF_OPEN_QUOTA_NORMAL as u32 {
        checker.register_half_open(id, src.ip, START);
    }
    assert_eq!(checker.precheck(&src, true, DRAW, START), PrecheckDecision::Drop);
}

#[test]
fn rollback_disables_warning_gradient_but_keeps_hard_thresholds() {
    let mut checker = GradientDosChecker::new(START);
    let metrics = SystemMetrics { cpu: 650_000, mem: 100_000, fd: 100_000 };
    checker.global_metrics = metrics;
    checker.metric_samples.push_back(MetricSample {
        at: START - (SLIDING_WINDOW_DURATION - RESOURCE_SAMPLE_INTERVAL),
        metrics,
        half_open_total: 0,
    });

    assert_eq!(checker.precheck(&source(13), false, 0, START), PrecheckDecision::Challenge);

    checker.set_rollback_to_hard_thresholds(true);
    assert_eq!(checker.precheck(&source(14), false, 0, START), PrecheckDecision::Allow);

    checker.update_global_cpu_usage(750_000, START);
    assert_eq!(checker.precheck(&source(15), false, 0, START), PrecheckDecision::Challenge);
}

#[test]
fn tokens_come_back_with_time() {
    let mut checker = GradientDosChecker::new(START);
    let src = source(20);
    for _ in 0..TOKEN_BUCKET_CAPACITY {
        checker.precheck(&src, false, DRAW, START);
    }
    assert_eq!(checker.precheck(&src, false, DRAW, START + SECOND - 1), PrecheckDecision::Drop);
    assert_ne!(checker.precheck(&src, false, DRAW, START + SECOND), PrecheckDecision::Drop);
}

#[test]
fn memory_and_files_count_too() {
    let mut checker = GradientDosChecker::new(START);
    checker.update_resource_usage(850_000, 0, START);
    assert_eq!(checker.precheck(&source(21), false, DRAW, START), PrecheckDecision::Challenge);
    checker.update_resource_usage(849_999, 900_000, START);
    assert_eq!(checker.precheck(&source(22), false, DRAW, START), PrecheckDecision::Challenge);
    checker.update_resource_usage(849_999, 899_999, START);
    assert_eq!(checker.precheck(&source(23), false, DRAW, START), PrecheckDecision::Allow);
}

#[test]
fn an_address_that_keeps_failing_is_challenged() {
    let mut checker = GradientDosChecker::new(START);
    let src = source(24);
    for _ in 0..5 {
        checker.record_failure(src.ip, START);
    }
    assert_eq!(checker.precheck(&src, false, DRAW, START), PrecheckDecision::Challenge);
    assert_eq!(checker.precheck(&source(25), false, DRAW, START), PrecheckDecision::Allow);
}

#[test]
fn released_handshakes_free_the_quota() {
    let mut checker = GradientDosChecker::new(START);
    let src = source(26);
    checker.update_global_cpu_usage(750_000, START);
    for id in 1..=HALF_OPEN_QUOTA_HARD as u32 {
        checker.register_half_open(id, src.ip, START);
    }
    assert_eq!(checker.precheck(&src, true, DRAW, START), PrecheckDecision::Drop);
    checker.release_half_open(1);
    assert_eq!(checker.precheck(&src, true, DRAW, START), PrecheckDecision::Allow);
}

#[test]
fn timed_out_handshakes_are_reaped_and_lead_to_a_ban() {
    let mut checker = GradientDosChecker::new(START);
    let src = source(27);
    for id in 1..=20u32 {
        checker.register_half_open(id, src.ip, START);
    }
    assert!(checker.reap_expired_half_open(START + HALF_OPEN_REAP_INTERVAL - 1).is_empty());
    assert!(checker.reap_expired_half_open(START + HALF_OPEN_REAP_INTERVAL).is_empty());
    let later = START + 3 * HALF_OPEN_REAP_INTERVAL;
    let mut ids = checker.reap_expired_half_open(later);
    ids.sort();
    assert_eq!(ids, (1..=20u32).collect::<Vec<_>>());
    assert_eq!(checker.precheck(&src, true, DRAW, later), PrecheckDecision::Drop);
    assert_eq!(checker.precheck(&source(28), true, DRAW, later), PrecheckDecision::Allow);
}

#[test]
fn readings_are_taken_once_a_second() {
    let mut checker = GradientDosChecker::new(START);
    assert!(checker.is_reading_due(START));
    let reading = RuntimeReading {
        stat: None,
        meminfo: Some(String::from("MemTotal: 1000 kB\nMemAvailable: 100 kB\n")),
        open_files: None,
        limits: None,
    };
    checker.sample_runtime_metrics(&reading, START);
    assert_eq!(checker.global_metrics.mem, 900_000);
    assert!(!checker.is_reading_due(START + SECOND - 1));
    assert!(checker.is_reading_due(START + SECOND));
}

#[test]
fn loads_are_read_from_proc() {
    let mut previous = None;
    let first = Some(String::from("cpu  100 0 100 800 0 0 0 0 0 0\ncpu0 1 1 1 1\n"));
    assert_eq!(linux_cpu_usage(&mut previous, &first), None);
    let second = Some(String::from("cpu  150 0 150 900 0 0 0 0 0 0\n"));
    assert_eq!(linux_cpu_usage(&mut previous, &second), Some(500_000));
    assert_eq!(linux_cpu_usage(&mut previous, &None), None);

    let mem = Some(String::from("MemTotal:       4000 kB\nMemFree: 1 kB\nMemAvailable:   1000 kB\n"));
    assert_eq!(linux_memory_usage(&mem), Some(750_000));
    assert_eq!(linux_memory_usage(&Some(String::from("MemTotal: 4000 kB\n"))), None);

    let limits = Some(String::from("Limit Soft Hard Units\nMax open files            1000   4096  files\n"));
    assert_eq!(linux_fd_usage(Some(250), &limits), Some(250_000));
    assert_eq!(linux_fd_usage(None, &limits), None);
}

#[test]
fn amounts_may_have_a_sign_a_fraction_and_an_exponent() {
    let memory = |text: &str| linux_memory_usage(&Some(String::from(text)));
    assert_eq!(memory("MemTotal: 1.5\nMemAvailable: 0.5\n"), Some(666_666));
    assert_eq!(memory("MemTotal: +4.\nMemAvailable: .5\n"), Some(875_000));
    assert_eq!(memory("MemTotal: 10\nMemAvailable: -1\n"), Some(1_000_000));
    assert_eq!(memory("MemTotal: 10\nMemAvailable: 11\n"), Some(0));
    assert_eq!(memory("MemTotal: -10\nMemAvailable: 5\n"), None);
    assert_eq!(memory("MemTotal: 0.0\nMemAvailable: 0\n"), None);
    assert_eq!(memory("MemTotal: .\nMemAvailable: 0\n"), None);
    assert_eq!(memory("MemTotal: 1.2.3\nMemAvailable: 0\n"), None);
    assert_eq!(memory("MemTotal: ++1\nMemAvailable: 0\n"), None);
    assert_eq!(memory("MemTotal: 4e3\nMemAvailable: 1.0E+3\n"), Some(750_000));
    assert_eq!(memory("MemTotal: 4e-3\nMemAvailable: 100e-5\n"), Some(750_000));
    assert_eq!(memory("MemTotal: 4e-44\nMemAvailable: 1e-44\n"), Some(750_000));
    assert_eq!(memory("MemTotal: 1e-46\nMemAvailable: 0\n"), None);
    assert_eq!(memory("MemTotal: 1e30\nMemAvailable: 1e-30\n"), Some(999_999));
    assert_eq!(memory("MemTotal: 1e-30\nMemAvailable: 1e30\n"), Some(0));
    assert_eq!(memory("MemTotal: 4e20\nMemAvailable: 1e14\n"), Some(999_999));
    assert_eq!(
        memory("MemTotal: 40000000000000000000000\nMemAvailable: 10000000000000000000000\n"),
        Some(750_000)
    );
    assert_eq!(memory("MemTotal: 4e\nMemAvailable: 1\n"), None);
    assert_eq!(memory("MemTotal: e4\nMemAvailable: 1\n"), None);
    assert_eq!(memory("MemTotal: 4e3.0\nMemAvailable: 1\n"), None);
    assert_eq!(memory("MemTotal: 4\nMemAvailable: inf\n"), Some(0));
    assert_eq!(memory("MemTotal: 4\nMemAvailable: 1e99999999999999999999999999999999999\n"), Some(0));
    assert_eq!(memory("MemTotal: 4\nMemAvailable: 1e-99999999999999999999999999999999999\n"), Some(1_000_000));
    assert_eq!(memory("MemTotal: 4\nMemAvailable: -Infinity\n"), Some(1_000_000));
    assert_eq!(memory("MemTotal: inf\nMemAvailable: 4\n"), None);
    assert_eq!(memory("MemTotal: 4\nMemAvailable: nan\n"), None);
    let limits = |text: &str| Some(String::from(text));
    assert_eq!(linux_fd_usage(Some(1), &limits("Max open files 2.5 4096 files\n")), Some(400_000));
    assert_eq!(linux_fd_usage(Some(3), &limits("Max open files 2.5 4096 files\n")), Some(1_000_000));
    assert_eq!(linux_fd_usage(Some(1), &limits("Max open files -1 4096 files\n")), None);
    assert_eq!(linux_fd_usage(Some(1), &limits("Max open files unlimited x files\n")), None);
    assert_eq!(linux_fd_usage(Some(250), &limits("Max open files 1e3 4096 files\n")), Some(250_000));
    assert_eq!(linux_fd_usage(Some(1), &limits("Max open files 1e-20 4096 files\n")), Some(1_000_000));
    assert_eq!(linux_fd_usage(Some(0), &limits("Max open files 1e-20 4096 files\n")), Some(0));
    assert_eq!(linux_fd_usage(Some(1), &limits("Max open files 1e38 4096 files\n")), Some(0));
    assert_eq!(
        linux_fd_usage(Some(usize::MAX), &limits("Max open files 36893488147419103232 x files\n")),
        Some(500_000)
    );
    assert_eq!(linux_fd_usage(Some(5), &limits("Max open files INF 4096 files\n")), Some(0));
    assert_eq!(linux_fd_usage(Some(5), &limits("Max open files -inf 4096 files\n")), None);
}

#[test]
fn any_white_space_separates_words() {
    let memory = |text: &str| linux_memory_usage(&Some(String::from(text)));
    for gap in [
        " ", "\t", "\u{b}", "\u{c}", "\u{85}", "\u{a0}", "\u{1680}", "\u{2000}", "\u{200a}", "\u{2028}",
        "\u{2029}", "\u{202f}", "\u{205f}", "\u{3000}", " \u{2003}\t",
    ] {
        let text = format!("MemTotal:{gap}4000{gap}kB\nMemAvailable:{gap}1000{gap}kB\n");
        assert_eq!(memory(&text), Some(750_000));
    }
    for letter in ["\u{200b}", "\u{feff}", "\u{e9}", "_"] {
        let text = format!("MemTotal:{letter}4000\nMemAvailable: 1000\n");
        assert_eq!(memory(&text), None);
    }
}

#[test]
fn rate_limiter_allows_a_burst_and_then_a_rate() {
    let mut limiter = RateLimiter::new();
    let ip = IpAddr::V4([10, 0, 0, 1]);
    let other = IpAddr::V6([7u8; 16]);
    let mut allowed = 0;
    for _ in 0..20 {
        if limiter.allow(&ip, START) {
            allowed += 1;
        }
    }
    assert!(allowed >= 1 && allowed <= 5);
    assert!(!limiter.allow(&ip, START));
    assert!(limiter.allow(&other, START));
    assert!(limiter.allow(&ip, START + SECOND));
}
