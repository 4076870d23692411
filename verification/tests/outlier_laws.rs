use grpc_lb::channel_state::{EndpointAddress, OutlierChannelState};
use grpc_lb::outlier_config::{
    FailurePercentageConfig, OutlierDetectionConfig, Percentage, SuccessRateConfig,
};
use grpc_lb::outlier_detection::{hits, roll, OutlierStatsRegistry};
use grpc_lb::time::{Duration, Instant};

fn addr(port: u16) -> EndpointAddress {
    EndpointAddress::new("backend", port)
}

fn pct(v: u32) -> Percentage {
    Percentage::new(v).unwrap()
}

fn config(max_ejection_percent: u32, enforcing: u32, request_volume: u32) -> OutlierDetectionConfig {
    OutlierDetectionConfig {
        interval: Duration::from_millis(1500),
        base_ejection_time: Duration::from_secs(30),
        max_ejection_time: Duration::from_secs(300),
        max_ejection_percent: pct(max_ejection_percent),
        success_rate: None,
        failure_percentage: Some(FailurePercentageConfig {
            threshold: pct(50),
            enforcing_failure_percentage: pct(enforcing),
            minimum_hosts: 1,
            request_volume,
        }),
    }
}

/// A registry with one channel for each pair of successes and failures.
fn pool(config: OutlierDetectionConfig, outcomes: &[(u64, u64)]) -> OutlierStatsRegistry {
    let mut registry = OutlierStatsRegistry::new(config);
    for (i, (successes, failures)) in outcomes.iter().enumerate() {
        let mut s = registry.add_channel(addr(i as u16));
        for _ in 0..*successes {
            registry.record_outcome(&mut s, true);
        }
        for _ in 0..*failures {
            registry.record_outcome(&mut s, false);
        }
    }
    registry
}

fn state(registry: &OutlierStatsRegistry, port: u16) -> OutlierChannelState {
    registry.channel(&addr(port)).unwrap()
}

fn states(registry: &OutlierStatsRegistry, count: u16) -> Vec<OutlierChannelState> {
    (0..count).map(|p| registry.channel(&addr(p)).unwrap()).collect()
}

#[test]
fn percentages_end_at_a_hundred() {
    assert_eq!(Percentage::new(0).unwrap().get(), 0);
    assert_eq!(Percentage::new(100).unwrap().get(), 100);
    assert!(Percentage::new(101).is_none());
    assert!(Percentage::new(356).is_none());
}

#[test]
fn either_algorithm_enables_detection() {
    let mut c = config(10, 100, 1);
    assert!(c.is_enabled());
    c.failure_percentage = None;
    assert!(!c.is_enabled());
    c.success_rate = Some(SuccessRateConfig {
        stdev_factor: 1900,
        enforcing_success_rate: pct(100),
        minimum_hosts: 5,
        request_volume: 100,
    });
    assert!(c.is_enabled());
}

#[test]
fn durations_convert_exactly() {
    assert_eq!(Duration::from_secs(2).as_nanos(), 2_000_000_000);
    assert_eq!(Duration::from_millis(250).as_nanos(), 250_000_000);
    let early = Instant::from_nanos(5);
    let late = Instant::from_nanos(12);
    assert_eq!(late.saturating_duration_since(early), Duration::from_nanos(7));
    assert_eq!(early.saturating_duration_since(late), Duration::from_nanos(0));
}

#[test]
fn rolls_at_the_ends_are_certain() {
    for _ in 0..200 {
        assert!(roll(100));
        assert!(roll(255));
        assert!(!roll(0));
    }
}

#[test]
fn rolls_between_give_both_outcomes() {
    let count = (0..2000).filter(|_| roll(50)).count();
    assert!(count > 500 && count < 1500, "{count} of 2000");
    let count = (0..2000).filter(|_| roll(10)).count();
    assert!(count > 50 && count < 500, "{count} of 2000");
}

#[test]
fn a_draw_hits_below_the_percentage() {
    assert!(hits(50, 49));
    assert!(!hits(50, 50));
    assert!(!hits(0, 0));
    assert!(hits(100, 99));
}

#[test]
fn sweep_visits_channels_in_order_up_to_the_cap() {
    // Four channels at half: two may be ejected.
    let mut registry = pool(config(50, 100, 10), &[(0, 20), (0, 20), (0, 20), (0, 20)]);
    let mut order = states(&registry, 4);
    order.reverse();
    let now = Instant::from_nanos(77);
    let snapshot = registry.sweep(order, &vec![true, false, true, true], now).unwrap();
    // Visited: 3 (ejected), 2 (its roll fails), 1 (ejected), 0 (no room).
    assert_eq!(snapshot, vec![addr(3), addr(1)]);
    assert_eq!(registry.ejected_count(), 2);
    let s = state(&registry, 3);
    assert_eq!(s.stats.ejected_at, Some(now));
    assert_eq!(s.counters(), (0, 0));
}

#[test]
fn failure_percentage_is_rounded_down() {
    // 101 of 200 failed: 50.5 percent, which counts as 50.
    let mut registry = pool(config(100, 100, 10), &[(99, 101)]);
    assert!(registry.run_housekeeping().is_none());
    // 51 percent is above the threshold.
    let mut registry = pool(config(100, 100, 10), &[(49, 51)]);
    assert_eq!(registry.run_housekeeping().unwrap(), vec![addr(0)]);
}

#[test]
fn full_enforcement_ejects_every_outlier_when_there_is_room() {
    let mut registry = pool(config(100, 100, 10), &[(0, 20), (20, 0), (5, 15), (10, 10)]);
    let mut snapshot = registry.run_housekeeping().unwrap();
    snapshot.sort_by_key(|a| a.port);
    assert_eq!(snapshot, vec![addr(0), addr(2)]);
    assert_eq!(registry.ejected_count(), 2);
    assert_eq!(registry.len(), 4);
}

#[test]
fn ejected_channels_are_not_ejected_again() {
    let mut registry = pool(config(100, 100, 10), &[(0, 20), (20, 0)]);
    assert!(registry.run_housekeeping().is_some());
    let mut s = state(&registry, 0);
    for _ in 0..20 {
        registry.record_outcome(&mut s, false);
    }
    // Still ejected: nothing changes and nothing is broadcast.
    assert!(registry.run_housekeeping().is_none());
    assert_eq!(registry.ejected_count(), 1);
    assert_eq!(state(&registry, 0).ejection_multiplier(), 1);
}

#[test]
fn a_lifted_ejection_is_broadcast_at_the_next_sweep() {
    let mut registry = pool(config(100, 100, 10), &[(0, 20), (20, 0)]);
    assert_eq!(registry.run_housekeeping().unwrap(), vec![addr(0)]);
    let mut s = state(&registry, 0);
    assert!(registry.note_uneject(&mut s));
    assert_eq!(registry.run_housekeeping().unwrap(), vec![]);
    assert!(registry.run_housekeeping().is_none());
}

#[test]
fn removing_an_ejected_channel_is_broadcast() {
    let mut registry = pool(config(100, 100, 10), &[(0, 20), (20, 0)]);
    assert!(registry.run_housekeeping().is_some());
    registry.remove_channel(&addr(0));
    assert_eq!(registry.len(), 1);
    assert!(registry.channel(&addr(0)).is_none());
    assert_eq!(registry.run_housekeeping().unwrap(), vec![]);
    // Removing a channel that is not ejected, or not there, changes nothing.
    registry.remove_channel(&addr(1));
    registry.remove_channel(&addr(9));
    assert_eq!(registry.len(), 0);
    assert!(registry.run_housekeeping().is_none());
}

#[test]
fn adding_a_channel_again_keeps_its_state() {
    let mut registry = pool(config(100, 100, 10), &[(3, 4)]);
    let s = registry.add_channel(addr(0));
    assert_eq!(s.counters(), (3, 4));
    assert_eq!(s.addr(), &addr(0));
    assert_eq!(registry.len(), 1);
    // The same host at another port is another channel.
    let s = registry.add_channel(addr(1));
    assert_eq!(s.counters(), (0, 0));
    assert_eq!(registry.len(), 2);
}

#[test]
fn outcomes_on_a_handle_reach_the_sweep() {
    let mut registry = OutlierStatsRegistry::new(config(100, 100, 10));
    let mut one = registry.add_channel(addr(1));
    let mut same = registry.add_channel(addr(1));
    for _ in 0..10 {
        registry.record_outcome(&mut one, false);
        registry.record_outcome(&mut same, false);
    }
    assert_eq!(same.counters(), (0, 20));
    assert_eq!(registry.run_housekeeping().unwrap(), vec![addr(1)]);
    // Both handles see the ejection.
    assert!(registry.refresh(&mut one) && one.is_ejected());
    // The copy tells of the ejection once it is refreshed.
    assert!(registry.remaining_ejection(&same, registry.now()).is_none());
    assert!(registry.refresh(&mut same));
    assert!(registry.remaining_ejection(&same, registry.now()).is_some());
    assert!(registry.note_uneject(&mut same));
    assert!(!registry.note_uneject(&mut one));
}

#[test]
fn a_state_that_no_registry_made_is_not_registered() {
    let mut c = config(100, 100, 10);
    c.base_ejection_time = Duration::from_secs(30);
    c.max_ejection_time = Duration::from_secs(20);
    let mut registry = OutlierStatsRegistry::new(c);
    // The registry's first channel is at the same address.
    let mut first = registry.add_channel(addr(0));
    assert_ne!(first.stats.serial, 0);
    let now = Instant::from_nanos(3);
    assert!(registry.try_eject(&mut first, now));
    let mut loose = OutlierChannelState::new(addr(0));
    assert!(!registry.refresh(&mut loose));
    assert!(!loose.is_ejected());
    assert!(!registry.note_uneject(&mut loose));
    assert!(loose.try_eject(now));
    assert_eq!(registry.remaining_ejection(&loose, now), Some(Duration::from_secs(20)));
    // Lifting its ejection leaves the registered channel alone.
    assert!(registry.note_uneject(&mut loose));
    assert_eq!(registry.ejected_count(), 1);
    assert!(state(&registry, 0).is_ejected());
}

#[test]
fn a_removed_channel_is_left_to_its_holder() {
    let mut registry = pool(config(100, 100, 10), &[(0, 20)]);
    assert!(registry.run_housekeeping().is_some());
    let mut held = registry.remove_channel(&addr(0)).unwrap();
    assert!(held.is_ejected());
    assert_eq!(registry.ejected_count(), 0);
    // A new channel at the address, ejected as well, is another one.
    let mut anew = registry.add_channel(addr(0));
    assert!(registry.try_eject(&mut anew, Instant::from_nanos(9)));
    assert_eq!(registry.ejected_count(), 1);
    assert!(!registry.refresh(&mut held));
    assert!(registry.note_uneject(&mut held));
    assert!(!held.is_ejected());
    assert_eq!(held.ejection_multiplier(), 0);
    assert!(!registry.note_uneject(&mut held));
    assert_eq!(registry.ejected_count(), 1);
    assert!(state(&registry, 0).is_ejected());
    // Its outcomes count for nobody else.
    registry.record_outcome(&mut held, true);
    assert_eq!(held.counters(), (1, 0));
    assert_eq!(state(&registry, 0).counters(), (0, 0));
    assert!(registry.remove_channel(&addr(7)).is_none());
}

#[test]
fn an_empty_pool_sweeps_quietly() {
    let mut registry = OutlierStatsRegistry::new(config(100, 100, 10));
    assert!(registry.can_sweep());
    assert!(registry.run_housekeeping().is_none());
}

#[test]
fn no_request_volume_needs_traffic_everywhere() {
    // An idle channel has no failure percentage.
    let registry = pool(config(100, 100, 0), &[(0, 3), (0, 0)]);
    assert!(!registry.can_sweep());
    let mut registry = pool(config(100, 100, 0), &[(0, 3), (1, 0)]);
    assert!(registry.can_sweep());
    assert_eq!(registry.run_housekeeping().unwrap(), vec![addr(0)]);
}

#[test]
fn a_new_config_is_in_force_at_once() {
    let mut registry = pool(config(100, 0, 10), &[(0, 20)]);
    assert_eq!(registry.config().max_ejection_percent.get(), 100);
    let mut c = config(40, 100, 10);
    c.interval = Duration::from_secs(9);
    registry.set_config(c);
    assert_eq!(registry.config().max_ejection_percent.get(), 40);
    assert_eq!(registry.config().interval, Duration::from_secs(9));
    assert_eq!(registry.run_housekeeping().unwrap(), vec![addr(0)]);
}

#[test]
fn no_ejection_lasts_longer_than_the_maximum() {
    let mut c = config(100, 100, 10);
    c.base_ejection_time = Duration::from_secs(30);
    c.max_ejection_time = Duration::from_secs(10);
    let mut registry = pool(c, &[(0, 20)]);
    let t0 = Instant::from_nanos(1_000);
    let mut s = state(&registry, 0);
    assert!(registry.try_eject(&mut s, t0));
    assert_eq!(registry.remaining_ejection(&s, t0), Some(Duration::from_secs(10)));
    registry.set_ejection_multiplier(&mut s, 7);
    assert_eq!(registry.remaining_ejection(&s, t0), Some(Duration::from_secs(10)));
    // Without multiplier there is nothing to wait for.
    registry.set_ejection_multiplier(&mut s, 0);
    assert_eq!(registry.remaining_ejection(&s, t0), Some(Duration::from_nanos(0)));
}

#[test]
fn remaining_time_runs_down() {
    let mut registry = pool(config(100, 100, 10), &[(0, 20)]);
    let t0 = Instant::from_nanos(1_000);
    let mut s = state(&registry, 0);
    assert!(registry.try_eject(&mut s, t0));
    let mut s = state(&registry, 0);
    assert!(!registry.try_eject(&mut s, Instant::from_nanos(2_000)));
    let s = state(&registry, 0);
    let mut last = Duration::from_secs(30);
    for secs in 0..40u64 {
        let now = Instant::from_nanos(1_000 + Duration::from_secs(secs).nanos);
        let left = registry.remaining_ejection(&s, now).unwrap();
        assert!(left.nanos <= last.nanos);
        last = left;
    }
    assert_eq!(last, Duration::from_nanos(0));
}

#[test]
fn multipliers_stay_in_range() {
    let mut s = OutlierChannelState::new(addr(1));
    s.decrement_multiplier();
    assert_eq!(s.ejection_multiplier(), 0);
    s.set_ejection_multiplier(u32::MAX);
    assert!(s.try_eject(Instant::from_nanos(3)));
    assert_eq!(s.ejection_multiplier(), u32::MAX);
    assert_eq!(s.ejected_duration(Instant::from_nanos(10)), Some(Duration::from_nanos(7)));
    s.record_outcome(true);
    s.record_outcome(false);
    assert_eq!(s.counters(), (1, 1));
}

#[test]
fn the_clock_runs_forward() {
    let registry = OutlierStatsRegistry::new(config(100, 100, 10));
    let first = registry.now();
    let second = registry.now();
    assert!(second.nanos >= first.nanos);
}

#[test]
fn a_lifted_ejection_leaves_no_trace() {
    let mut registry = pool(config(100, 100, 10), &[(3, 4), (1, 0)]);
    let mut s = state(&registry, 0);
    registry.set_ejection_multiplier(&mut s, 2);
    let mut s = state(&registry, 0);
    assert!(registry.try_eject(&mut s, Instant::from_nanos(8)));
    assert_eq!(registry.ejected_count(), 1);
    assert_eq!(state(&registry, 0).ejection_multiplier(), 3);
    let mut s = state(&registry, 0);
    assert!(registry.note_uneject(&mut s));
    assert_eq!(registry.ejected_count(), 0);
    let s = state(&registry, 0);
    assert!(!s.is_ejected());
    assert_eq!(s.ejection_multiplier(), 2);
    assert_eq!(s.counters(), (3, 4));
}
