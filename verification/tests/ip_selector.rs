//! Probes of addresses and their scores.

use resolver_plugins::ip_selector::probe::{
    delay_for_method, ping_commands, Delay, ProbeKey, ProbeMethod, ProbeObservation,
};
use resolver_plugins::ip_selector::runtime::{ProbeRuntime, ProbeSettings, ProbeStart};
use resolver_plugins::ip_selector::score::{
    update_best_score, IpScore, ProbeWaitMode, ScoreCollector, ScoreSource, ScoreTable,
};
use resolver_plugins::proto::message::IpAddr;

fn key(last: u8) -> ProbeKey {
    ProbeKey {
        ip: IpAddr::V4(u32::from_be_bytes([192, 0, 2, last])),
        method: ProbeMethod::Tcp(443),
    }
}

fn settings() -> ProbeSettings {
    ProbeSettings {
        cache_enabled: true,
        cache_size: 2,
        cache_ttl_ms: 1_000,
        failure_ttl_ms: 100,
        max_parallel_probes: 1,
    }
}

#[test]
fn methods_start_one_after_another() {
    let step = Delay {
        secs: 0,
        nanos: 600_000_000,
    };
    assert_eq!(delay_for_method(step, 0), Delay { secs: 0, nanos: 0 });
    assert_eq!(
        delay_for_method(step, 3),
        Delay {
            secs: 1,
            nanos: 800_000_000
        }
    );
    let long = Delay {
        secs: u64::MAX,
        nanos: 1,
    };
    assert_eq!(
        delay_for_method(long, 2),
        Delay {
            secs: u64::MAX,
            nanos: 999_999_999
        }
    );
}

#[test]
fn pings_are_run_by_family() {
    let v4 = ping_commands(false, "192.0.2.1");
    assert_eq!(v4.len(), 1);
    assert_eq!(v4[0].program, "ping");
    assert_eq!(v4[0].args, ["-c", "1", "192.0.2.1"]);

    let v6 = ping_commands(true, "2001:db8::1");
    assert_eq!(v6.len(), 2);
    assert_eq!(v6[0].program, "ping6");
    assert_eq!(v6[1].program, "ping");
    assert_eq!(v6[1].args, ["-6", "-c", "1", "2001:db8::1"]);
}

#[test]
fn observations_give_scores() {
    assert_eq!(
        ProbeObservation::success(12, 5).score(ScoreSource::Probe),
        Some(IpScore {
            latency_ms: 12,
            source: ScoreSource::Probe
        })
    );
    assert_eq!(ProbeObservation::failure(5).score(ScoreSource::Cache), None);
}

#[test]
fn the_best_latency_stays() {
    let mut scores = ScoreTable::new();
    let ip = key(1).ip;
    let score = |latency_ms: u64| IpScore {
        latency_ms,
        source: ScoreSource::Probe,
    };
    assert_eq!(scores.get(ip), None);
    update_best_score(&mut scores, ip, score(20));
    update_best_score(&mut scores, ip, score(30));
    assert_eq!(scores.get(ip), Some(score(20)));
    update_best_score(&mut scores, ip, score(10));
    assert_eq!(scores.get(ip), Some(score(10)));
    assert_eq!(scores.get(key(2).ip), None);
}

#[test]
fn the_first_success_can_be_enough() {
    let mut first = ScoreCollector::new(ProbeWaitMode::FirstSuccess);
    assert!(!first.record(&key(1), ProbeObservation::failure(1)));
    assert!(first.record(&key(2), ProbeObservation::success(9, 1)));

    let mut best = ScoreCollector::new(ProbeWaitMode::BestWithinBudget);
    assert!(!best.record(&key(1), ProbeObservation::success(9, 1)));
    assert!(!best.record(&key(1), ProbeObservation::success(4, 1)));
    let scores = best.finish();
    assert_eq!(
        scores.get(key(1).ip).map(|score| score.latency_ms),
        Some(4)
    );
}

#[test]
fn a_probe_runs_once_and_its_result_is_kept() {
    let mut runtime = ProbeRuntime::new(settings());
    assert_eq!(runtime.begin_probe(&key(1), 10), ProbeStart::Run);
    assert_eq!(runtime.begin_probe(&key(1), 11), ProbeStart::Join);
    let busy = ProbeObservation::failure(12);
    assert_eq!(
        runtime.begin_probe(&key(2), 12),
        ProbeStart::Saturated(busy)
    );
    // The failure is kept, for a shorter time.
    assert_eq!(runtime.cached_observation(&key(2), 111), Some(busy));
    assert_eq!(runtime.cached_observation(&key(2), 112), None);

    let seen = ProbeObservation::success(7, 20);
    runtime.end_probe(&key(1), Some(seen), 20);
    assert_eq!(runtime.begin_probe(&key(1), 30), ProbeStart::Cached(seen));
    assert_eq!(runtime.cached_observation(&key(1), 1_019), Some(seen));
    assert_eq!(runtime.cached_observation(&key(1), 1_020), None);

    // The place is free again, and a probe that is given up frees it too.
    assert_eq!(runtime.begin_probe(&key(3), 1_100), ProbeStart::Run);
    runtime.end_probe(&key(3), None, 1_100);
    assert_eq!(runtime.begin_probe(&key(3), 1_100), ProbeStart::Run);
}

#[test]
fn results_used_longest_ago_make_room() {
    let mut runtime = ProbeRuntime::new(settings());
    for last in 1..=3u8 {
        let now = u64::from(last) * 10;
        runtime.store_probe_observation(&key(last), ProbeObservation::success(1, now), now);
    }
    assert_eq!(runtime.cached_observation(&key(1), 40), None);
    assert!(runtime.cached_observation(&key(2), 40).is_some());
    assert!(runtime.cached_observation(&key(3), 40).is_some());

    let mut off = ProbeRuntime::new(ProbeSettings {
        cache_enabled: false,
        ..settings()
    });
    off.store_probe_observation(&key(1), ProbeObservation::success(1, 1), 1);
    assert_eq!(off.cached_observation(&key(1), 1), None);
}

#[test]
fn a_probe_that_is_given_up_frees_its_place() {
    let mut runtime = ProbeRuntime::new(settings());
    assert_eq!(runtime.begin_probe(&key(1), 0), ProbeStart::Run);
    assert_eq!(runtime.begin_probe(&key(1), 0), ProbeStart::Join);
    assert!(matches!(
        runtime.begin_probe(&key(2), 0),
        ProbeStart::Saturated(_)
    ));
    runtime.end_probe(&key(1), None, 10);
    assert_eq!(runtime.cached_observation(&key(1), 10), None);
    assert_eq!(runtime.begin_probe(&key(1), 10), ProbeStart::Run);
}
