use grpc_lb::channel_state::{EndpointAddress, OutlierChannelState};
use grpc_lb::outlier_config::{FailurePercentageConfig, OutlierDetectionConfig, Percentage};
use grpc_lb::outlier_detection::OutlierStatsRegistry;
use grpc_lb::time::{Duration, Instant};

fn addr(port: u16) -> EndpointAddress {
    EndpointAddress::new("10.0.0.1", port)
}

fn pct(v: u32) -> Percentage {
    Percentage::new(v).unwrap()
}

fn base_config() -> OutlierDetectionConfig {
    OutlierDetectionConfig {
        interval: Duration::from_secs(1),
        base_ejection_time: Duration::from_secs(30),
        max_ejection_time: Duration::from_secs(300),
        max_ejection_percent: pct(100),
        success_rate: None,
        failure_percentage: None,
    }
}

fn fp_config(threshold: u32, request_volume: u32, minimum_hosts: u32) -> OutlierDetectionConfig {
    let mut c = base_config();
    c.failure_percentage = Some(FailurePercentageConfig {
        threshold: pct(threshold),
        enforcing_failure_percentage: pct(100),
        minimum_hosts,
        request_volume,
    });
    c
}

/// Drives outcomes through `record_outcome` for one channel.
fn drive(
    registry: &mut OutlierStatsRegistry,
    state: &mut OutlierChannelState,
    successes: u64,
    failures: u64,
) {
    for _ in 0..successes {
        registry.record_outcome(state, true);
    }
    for _ in 0..failures {
        registry.record_outcome(state, false);
    }
}

fn is_ejected(registry: &OutlierStatsRegistry, state: &mut OutlierChannelState) -> bool {
    assert!(registry.refresh(state));
    state.is_ejected()
}

fn multiplier(registry: &OutlierStatsRegistry, state: &mut OutlierChannelState) -> u32 {
    assert!(registry.refresh(state));
    state.ejection_multiplier()
}

fn after(t: Instant, span: Duration) -> Instant {
    Instant::from_nanos(t.nanos + span.nanos)
}

// ----- run_housekeeping: failure-percentage detection -----

#[test]
fn ejects_above_threshold_at_sweep() {
    let mut registry = OutlierStatsRegistry::new(fp_config(50, 10, 3));
    let mut bad = registry.add_channel(addr(8084));
    for port in 8080..=8083 {
        let mut s = registry.add_channel(addr(port));
        drive(&mut registry, &mut s, 100, 0);
    }
    drive(&mut registry, &mut bad, 10, 90);
    // The algorithm runs at the interval sweep, not per request.
    assert!(!is_ejected(&registry, &mut bad));
    registry.run_housekeeping();
    assert!(is_ejected(&registry, &mut bad));
    assert_eq!(registry.ejected_count(), 1);
}

#[test]
fn skips_below_threshold() {
    let mut registry = OutlierStatsRegistry::new(fp_config(50, 10, 3));
    let mut all = vec![];
    for port in 8080..=8084 {
        let mut s = registry.add_channel(addr(port));
        // 30% failure is below the 50% threshold.
        drive(&mut registry, &mut s, 70, 30);
        all.push(s);
    }
    registry.run_housekeeping();
    for s in &mut all {
        assert!(!is_ejected(&registry, s));
    }
}

#[test]
fn at_threshold_does_not_eject() {
    // The comparison is a strict "greater than".
    let mut registry = OutlierStatsRegistry::new(fp_config(50, 10, 3));
    let mut all = vec![];
    for port in 8080..=8084 {
        let mut s = registry.add_channel(addr(port));
        drive(&mut registry, &mut s, 50, 50);
        all.push(s);
    }
    registry.run_housekeeping();
    for s in &mut all {
        assert!(!is_ejected(&registry, s));
    }
}

#[test]
fn minimum_hosts_gates_ejection() {
    let mut registry = OutlierStatsRegistry::new(fp_config(50, 10, 5));
    // Only 2 hosts have enough requests; 5 are needed.
    let mut all = vec![];
    for port in 8080..=8081 {
        let mut s = registry.add_channel(addr(port));
        drive(&mut registry, &mut s, 0, 100);
        all.push(s);
    }
    registry.run_housekeeping();
    for s in &mut all {
        assert!(!is_ejected(&registry, s));
    }
}

#[test]
fn request_volume_filters_low_traffic() {
    let mut registry = OutlierStatsRegistry::new(fp_config(50, 100, 3));
    let mut bad = registry.add_channel(addr(8080));
    drive(&mut registry, &mut bad, 0, 5);
    for port in 8081..=8084 {
        let mut s = registry.add_channel(addr(port));
        drive(&mut registry, &mut s, 200, 0);
    }
    registry.run_housekeeping();
    assert!(!is_ejected(&registry, &mut bad));
}

#[test]
fn enforcement_zero_percent_never_ejects() {
    let mut config = fp_config(50, 10, 3);
    config
        .failure_percentage
        .as_mut()
        .unwrap()
        .enforcing_failure_percentage = pct(0);
    let mut registry = OutlierStatsRegistry::new(config);
    let mut all = vec![];
    for port in 8080..=8084 {
        let mut s = registry.add_channel(addr(port));
        drive(&mut registry, &mut s, 0, 100);
        all.push(s);
    }
    registry.run_housekeeping();
    for s in &mut all {
        assert!(!is_ejected(&registry, s));
    }
}

#[test]
fn max_ejection_percent_caps_concurrent_ejections() {
    let mut config = fp_config(50, 10, 3);
    config.max_ejection_percent = pct(20);
    let mut registry = OutlierStatsRegistry::new(config);
    let mut all = vec![];
    for port in 8080..=8084 {
        let s = registry.add_channel(addr(port));
        all.push(s);
    }
    // Drive all hosts to bad state.
    for s in &mut all {
        drive(&mut registry, s, 0, 100);
    }
    registry.run_housekeeping();

    let ejected = all.iter_mut().filter_map(|s| is_ejected(&registry, s).then_some(())).count();
    // 5 hosts at 20% make 1 ejection at most.
    assert_eq!(ejected, 1);
}

/// 5 hosts at 10% make none arithmetically; one is allowed all the same.
#[test]
fn max_ejection_percent_permits_at_least_one_ejection() {
    let mut config = fp_config(50, 10, 3);
    config.max_ejection_percent = pct(10);
    let mut registry = OutlierStatsRegistry::new(config);
    let mut all = vec![];
    for port in 8080..=8084 {
        let s = registry.add_channel(addr(port));
        all.push(s);
    }
    for s in &mut all {
        drive(&mut registry, s, 0, 100);
    }
    registry.run_housekeeping();

    let ejected = all.iter_mut().filter_map(|s| is_ejected(&registry, s).then_some(())).count();
    assert_eq!(ejected, 1);
}

#[test]
fn remove_channel_decrements_ejected_count() {
    let mut registry = OutlierStatsRegistry::new(fp_config(50, 10, 3));
    for port in 8080..=8083 {
        let mut s = registry.add_channel(addr(port));
        drive(&mut registry, &mut s, 100, 0);
    }
    let mut bad = registry.add_channel(addr(8084));
    drive(&mut registry, &mut bad, 0, 100);
    registry.run_housekeeping();
    assert!(is_ejected(&registry, &mut bad));
    assert_eq!(registry.ejected_count(), 1);

    registry.remove_channel(&addr(8084));
    assert_eq!(registry.ejected_count(), 0);
}

#[test]
fn ejection_broadcasts_via_snapshot_watch() {
    let mut registry = OutlierStatsRegistry::new(fp_config(50, 10, 3));
    let mut bad = registry.add_channel(addr(8084));
    for port in 8080..=8083 {
        let mut s = registry.add_channel(addr(port));
        drive(&mut registry, &mut s, 100, 0);
    }
    drive(&mut registry, &mut bad, 10, 90);
    let snapshot = registry.run_housekeeping().unwrap();

    // The snapshot contains exactly the ejected address.
    assert!(snapshot.contains(&addr(8084)));
    assert_eq!(snapshot.len(), 1);
}

#[test]
fn quiet_sweep_does_not_rebroadcast_snapshot() {
    let mut registry = OutlierStatsRegistry::new(fp_config(50, 10, 3));
    for port in 8080..=8084 {
        registry.add_channel(addr(port));
    }
    // No qualifying traffic, so nothing is ejected and nothing is broadcast.
    assert!(
        registry.run_housekeeping().is_none(),
        "expected no broadcast on a sweep with no ejection-set changes"
    );
}

// ----- Housekeeping -----

#[test]
fn housekeeping_resets_counters() {
    let mut registry = OutlierStatsRegistry::new(fp_config(50, 10, 3));
    for port in 8080..=8083 {
        let mut s = registry.add_channel(addr(port));
        drive(&mut registry, &mut s, 100, 0);
    }

    registry.run_housekeeping();
    for port in 8080..=8083 {
        let s = registry.channel(&addr(port)).unwrap();
        assert_eq!(s.counters(), (0, 0));
    }
}

#[test]
fn housekeeping_decrements_multiplier_on_healthy_interval() {
    let mut registry = OutlierStatsRegistry::new(base_config());
    let mut s = registry.add_channel(addr(8080));
    // Force the multiplier to 3 directly, without traffic or ejection.
    registry.set_ejection_multiplier(&mut s, 3);

    registry.run_housekeeping();
    assert_eq!(multiplier(&registry, &mut s), 2);
}

#[test]
fn housekeeping_leaves_ejected_multipliers_alone() {
    let mut registry = OutlierStatsRegistry::new(base_config());
    let mut s = registry.add_channel(addr(8080));
    let now = registry.now();
    registry.try_eject(&mut s, now);
    registry.set_ejection_multiplier(&mut s, 3);

    registry.run_housekeeping();
    assert_eq!(multiplier(&registry, &mut s), 3);
    assert!(is_ejected(&registry, &mut s));
}

// ----- remaining_ejection / note_uneject -----

#[test]
fn remaining_ejection_returns_full_duration_for_fresh_eject() {
    let mut config = fp_config(50, 10, 3);
    config.base_ejection_time = Duration::from_secs(10);
    config.max_ejection_time = Duration::from_secs(60);
    let mut registry = OutlierStatsRegistry::new(config);
    let mut s = registry.add_channel(addr(8080));
    let t0 = registry.now();
    s.try_eject(t0);
    // The multiplier is 1 after the first ejection, so the target is 10s.
    let remaining = registry.remaining_ejection(&s, t0).unwrap();
    assert_eq!(remaining, Duration::from_secs(10));
}

#[test]
fn remaining_ejection_capped_at_max_ejection_time() {
    let mut config = fp_config(50, 10, 3);
    config.base_ejection_time = Duration::from_secs(10);
    config.max_ejection_time = Duration::from_secs(15);
    let mut registry = OutlierStatsRegistry::new(config);
    let mut s = registry.add_channel(addr(8080));
    let t0 = registry.now();
    s.try_eject(t0);
    // Ten times the base would be 100s, but the cap is 15s.
    s.set_ejection_multiplier(10);
    let remaining = registry.remaining_ejection(&s, t0).unwrap();
    assert_eq!(remaining, Duration::from_secs(15));
}

#[test]
fn remaining_ejection_subtracts_elapsed_for_re_discovery() {
    let mut config = fp_config(50, 10, 3);
    config.base_ejection_time = Duration::from_secs(30);
    config.max_ejection_time = Duration::from_secs(60);
    let mut registry = OutlierStatsRegistry::new(config);
    let mut s = registry.add_channel(addr(8080));
    let t0 = registry.now();
    s.try_eject(t0);
    // Discovered again 10s into the ejection: 20s are left.
    let remaining = registry
        .remaining_ejection(&s, after(t0, Duration::from_secs(10)))
        .unwrap();
    assert_eq!(remaining, Duration::from_secs(20));
}

#[test]
fn remaining_ejection_zero_past_deadline() {
    let mut config = fp_config(50, 10, 3);
    config.base_ejection_time = Duration::from_secs(10);
    config.max_ejection_time = Duration::from_secs(60);
    let mut registry = OutlierStatsRegistry::new(config);
    let mut s = registry.add_channel(addr(8080));
    let t0 = registry.now();
    s.try_eject(t0);
    // 60s have passed but the target is 10s: the ejection is to be lifted.
    let remaining = registry
        .remaining_ejection(&s, after(t0, Duration::from_secs(60)))
        .unwrap();
    assert_eq!(remaining, Duration::from_nanos(0));
}

#[test]
fn remaining_ejection_none_when_not_ejected() {
    let mut registry = OutlierStatsRegistry::new(base_config());
    let s = registry.add_channel(addr(8080));
    assert!(registry.remaining_ejection(&s, registry.now()).is_none());
}

#[test]
fn note_uneject_clears_state_and_decrements_counter() {
    let mut registry = OutlierStatsRegistry::new(base_config());
    let mut s = registry.add_channel(addr(8080));
    let now = registry.now();
    // The multiplier goes from 0 to 1.
    registry.try_eject(&mut s, now);
    assert_eq!(registry.ejected_count(), 1);
    assert!(is_ejected(&registry, &mut s));
    assert_eq!(multiplier(&registry, &mut s), 1);

    assert!(registry.note_uneject(&mut s));
    assert!(!is_ejected(&registry, &mut s));
    assert_eq!(registry.ejected_count(), 0);
    assert_eq!(multiplier(&registry, &mut s), 0);

    // Second call is a no-op.
    assert!(!registry.note_uneject(&mut s));
    assert_eq!(multiplier(&registry, &mut s), 0);
}

/// An ejection right after one was lifted is as long as the first.
#[test]
fn re_eject_after_uneject_uses_fresh_multiplier() {
    let mut config = fp_config(50, 10, 3);
    config.base_ejection_time = Duration::from_secs(10);
    config.max_ejection_time = Duration::from_secs(300);
    let mut registry = OutlierStatsRegistry::new(config);
    let mut s = registry.add_channel(addr(8080));

    let t0 = registry.now();
    registry.try_eject(&mut s, t0);
    assert_eq!(multiplier(&registry, &mut s), 1);

    // The time is up.
    registry.note_uneject(&mut s);
    assert_eq!(multiplier(&registry, &mut s), 0);

    // The channel misbehaves again and is ejected again.
    let t1 = after(t0, Duration::from_secs(11));
    s.try_eject(t1);
    assert_eq!(s.ejection_multiplier(), 1);
    assert_eq!(
        registry.remaining_ejection(&s, t1).unwrap(),
        Duration::from_secs(10),
    );
}
