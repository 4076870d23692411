use grpc_lb::address_list::compile_endpoints;
use grpc_lb::lb_types::{
    ChannelController, ConnectivityState, IdlePicker, LbEvent, PickResult, Picker, Subchannel,
    SubchannelState,
};
use grpc_lb::name_resolution::{Address, Endpoint, ResolverUpdate};
use grpc_lb::pick_first::{PickFirstBuilder, PickFirstConfig, PickFirstPolicy};
use grpc_lb::pick_first_resolver::{MadeSubchannel, ResolverStep};
use grpc_lb::pick_first_spec::{SteadyState, Timer};
use grpc_lb::state_cache::StateCache;
use grpc_lb::time::Duration;

fn state(connectivity_state: ConnectivityState) -> SubchannelState {
    SubchannelState { connectivity_state, last_connection_error: None }
}

fn failed(error: &str) -> SubchannelState {
    SubchannelState {
        connectivity_state: ConnectivityState::TransientFailure,
        last_connection_error: Some(error.to_string()),
    }
}

fn endpoint(addrs: &[&str]) -> Endpoint {
    Endpoint { addresses: addrs.iter().map(|a| Address::tcp(a)).collect() }
}

fn subchannel(id: u64, addr: &str) -> Subchannel {
    Subchannel { id, address: Address::tcp(addr) }
}

/// Each event as a short text.
fn told(controller: &mut ChannelController) -> Vec<String> {
    controller
        .events
        .drain(..)
        .map(|event| match event {
            LbEvent::NewSubchannel(address) => format!("new {}", address.address),
            LbEvent::Connect(sc) => format!("connect {}", sc.address.address),
            LbEvent::UpdatePicker(s) => match s.picker {
                Picker::Queuing(_) => format!("{:?} queue", s.connectivity_state),
                Picker::Failing(p) => format!("{:?} fail {}", s.connectivity_state, p.error),
                Picker::OneSubchannel(p) => {
                    format!("{:?} use {}", s.connectivity_state, p.sc.address.address)
                }
                Picker::Idle(p) => {
                    format!("{:?} idle {}", s.connectivity_state, p.triggered_work)
                }
            },
            LbEvent::RequestResolution => "resolve".to_string(),
        })
        .collect()
}

/// Hands a report to the policy, and new subchannels that are in state `made`. No
/// result comes back if the policy cannot take them up.
fn report(
    policy: &mut PickFirstPolicy,
    endpoints: Vec<Endpoint>,
    made: ConnectivityState,
    controller: &mut ChannelController,
) -> Option<Result<(), String>> {
    let update = ResolverUpdate { endpoints: Ok(endpoints) };
    match policy.resolver_update(update, None, controller) {
        ResolverStep::Handled(result) => Some(result),
        ResolverStep::NewList(addresses) => {
            let asked = controller
                .events
                .iter()
                .filter(|event| matches!(event, LbEvent::NewSubchannel(_)))
                .count();
            let made: Vec<MadeSubchannel> =
                (0..asked).map(|_| MadeSubchannel { id: 9, state: state(made) }).collect();
            if !policy.can_take_up(&addresses, &made) {
                return None;
            }
            policy.subchannels_made(addresses, made, controller);
            Some(Ok(()))
        }
    }
}

/// A policy that has just been told of these addresses.
fn connecting(addrs: &[&str]) -> (PickFirstPolicy, ChannelController) {
    let mut policy = PickFirstBuilder {}.build();
    let mut controller = ChannelController::new();
    let result =
        report(&mut policy, vec![endpoint(addrs)], ConnectivityState::Idle, &mut controller);
    assert_eq!(result, Some(Ok(())));
    told(&mut controller);
    (policy, controller)
}

fn texts(addresses: &[Address]) -> Vec<&str> {
    addresses.iter().map(|a| a.address.as_str()).collect()
}

#[test]
fn the_policy_has_its_name() {
    assert_eq!(PickFirstBuilder {}.name(), "pick_first");
    assert_eq!(Timer::delay(), Duration::from_millis(250));
}

#[test]
fn addresses_keep_their_order_within_families() {
    let unix = Address {
        network_type: "unix".to_string(),
        address: "/run/a:b".to_string(),
        attributes: String::new(),
    };
    let mut first = endpoint(&["1.1.1.1", "1.1.1.2", "::1"]);
    first.addresses.push(unix);
    let list = compile_endpoints(&vec![first, endpoint(&["::1", "1.1.1.1", "1.1.1.3"])]);
    assert_eq!(texts(&list), vec!["::1", "1.1.1.1", "/run/a:b", "1.1.1.2", "1.1.1.3"]);
}

#[test]
fn families_alternate_while_there_are_both() {
    let list = compile_endpoints(&vec![endpoint(&["a", "b", "c"]), endpoint(&[":1", ":2"])]);
    assert_eq!(texts(&list), vec![":1", "a", ":2", "b", "c"]);
    assert!(compile_endpoints(&vec![]).is_empty());
    assert!(compile_endpoints(&vec![endpoint(&[])]).is_empty());
}

#[test]
fn shuffling_loses_no_address() {
    let policy = PickFirstBuilder {}.build();
    let config = PickFirstConfig { shuffle_address_list: true };
    let names: Vec<String> = (0..40).map(|i| format!("host{i:02}")).collect();
    let endpoints = || names.iter().map(|n| endpoint(&[n.as_str()])).collect::<Vec<_>>();
    let mut orders = Vec::new();
    for _ in 0..5 {
        let list = policy.compile_address(endpoints(), Some(&config));
        let mut sorted = texts(&list);
        sorted.sort();
        assert_eq!(sorted, names);
        orders.push(list);
    }
    // Forty endpoints do not come out in order five times.
    assert!(orders.iter().any(|list| texts(list) != names));
    // Without the option the order is that of the report.
    let off = PickFirstConfig { shuffle_address_list: false };
    assert_eq!(texts(&policy.compile_address(endpoints(), Some(&off))), names);
    assert_eq!(texts(&policy.compile_address(endpoints(), None)), names);
}

#[test]
fn a_report_starts_a_pass() {
    let mut policy = PickFirstBuilder {}.build();
    let mut controller = ChannelController::new();
    let endpoints = vec![endpoint(&["a", "b"])];
    let result = report(&mut policy, endpoints, ConnectivityState::Idle, &mut controller);
    assert_eq!(result, Some(Ok(())));
    assert_eq!(told(&mut controller), vec!["new a", "new b", "connect a", "Connecting queue"]);
    assert_eq!(policy.frontier_index, 0);
    assert_eq!(policy.subchannels[1].id, 9);
}

#[test]
fn a_ready_subchannel_of_a_report_is_used_at_once() {
    let (mut policy, mut controller) = connecting(&["a"]);
    let endpoints = vec![endpoint(&["b", "c"])];
    report(&mut policy, endpoints, ConnectivityState::Ready, &mut controller);
    assert_eq!(told(&mut controller), vec!["new b", "new c", "Ready use b"]);
    assert_eq!(policy.subchannels.len(), 1);
    assert!(policy.timer.is_none());
}

#[test]
fn the_selected_subchannel_wins_over_earlier_ones() {
    let (mut policy, mut controller) = connecting(&["b"]);
    let sc = policy.subchannels[0].clone();
    policy.subchannel_update(sc, &state(ConnectivityState::Ready), &mut controller);
    told(&mut controller);
    // The list is a, b: a is new and ready, b is selected.
    let made = vec![MadeSubchannel { id: 1, state: state(ConnectivityState::Ready) }];
    let addresses = vec![Address::tcp("a"), Address::tcp("b")];
    let ready = policy.rebuild_subchannels(addresses, made).unwrap();
    assert_eq!(ready.id, 9);
    assert_eq!(ready.address, Address::tcp("b"));
    assert_eq!(policy.subchannels.len(), 2);
    assert_eq!(policy.subchannels[0].id, 1);
}

#[test]
fn a_switch_takes_the_first_ready_subchannel() {
    let mut policy = PickFirstBuilder {}.build();
    let mut controller = ChannelController::new();
    let addresses = vec![Address::tcp("a"), Address::tcp("b"), Address::tcp("c")];
    let made = vec![
        MadeSubchannel { id: 1, state: state(ConnectivityState::Idle) },
        MadeSubchannel { id: 2, state: state(ConnectivityState::Ready) },
        MadeSubchannel { id: 3, state: state(ConnectivityState::Ready) },
    ];
    policy.subchannels_made(addresses, made, &mut controller);
    assert_eq!(told(&mut controller), vec!["Ready use b"]);
    assert_eq!(policy.selected.as_ref().unwrap().id, 2);
}

#[test]
fn each_missing_subchannel_is_asked_for_once() {
    let (mut policy, mut controller) = connecting(&["b"]);
    let kept = policy.subchannels[0].id;
    let update = ResolverUpdate { endpoints: Ok(vec![endpoint(&["a", "b", "c", "a"])]) };
    let addresses = match policy.resolver_update(update, None, &mut controller) {
        ResolverStep::NewList(addresses) => addresses,
        other => panic!("{other:?}"),
    };
    assert_eq!(told(&mut controller), vec!["new a", "new c"]);
    assert_eq!(texts(&addresses), vec!["a", "b", "c"]);
    let made = |ids: &[u64]| -> Vec<MadeSubchannel> {
        ids.iter()
            .map(|id| MadeSubchannel { id: *id, state: state(ConnectivityState::Idle) })
            .collect()
    };
    // One answer too few, or too many, does not fit.
    assert!(!policy.can_take_up(&addresses, &made(&[5])));
    assert!(!policy.can_take_up(&addresses, &made(&[5, 6, 7])));
    // Nor does a list that names an address twice.
    let twice = vec![Address::tcp("a"), Address::tcp("a")];
    assert!(!policy.can_take_up(&twice, &made(&[5, 6])));
    policy.subchannels_made(addresses, made(&[5, 6]), &mut controller);
    let ids: Vec<u64> = policy.subchannels.iter().map(|sc| sc.id).collect();
    assert_eq!(ids, vec![5, kept, 6]);
    assert_eq!(told(&mut controller), vec!["connect a"]);
}

#[test]
fn a_report_of_failed_subchannels_needs_an_error() {
    let mut policy = PickFirstBuilder {}.build();
    let mut controller = ChannelController::new();
    let endpoints = vec![endpoint(&["a", "b"])];
    let made = ConnectivityState::TransientFailure;
    assert_eq!(report(&mut policy, endpoints, made, &mut controller), None);
    assert_eq!(told(&mut controller), vec!["new a", "new b"]);
    // With an error from before there is something to report.
    policy.last_connection_error = Some("refused".to_string());
    let endpoints = vec![endpoint(&["a", "b"])];
    assert_eq!(report(&mut policy, endpoints, made, &mut controller), Some(Ok(())));
    assert_eq!(
        told(&mut controller),
        vec!["new a", "new b", "TransientFailure fail refused", "resolve"]
    );
    assert_eq!(policy.frontier_index, 2);
}

#[test]
fn an_empty_report_is_an_error() {
    let (mut policy, mut controller) = connecting(&["a"]);
    let result = report(&mut policy, vec![endpoint(&[])], ConnectivityState::Idle, &mut controller);
    assert_eq!(result, Some(Err("empty address list".to_string())));
    assert_eq!(
        told(&mut controller),
        vec!["TransientFailure fail empty address list", "resolve"]
    );
    assert!(policy.subchannels.is_empty());
    assert!(policy.selected.is_none());
}

#[test]
fn a_resolver_failure_is_reported_where_there_is_nothing_better() {
    let mut policy = PickFirstBuilder {}.build();
    let mut controller = ChannelController::new();
    let update = || ResolverUpdate { endpoints: Err("no such host".to_string()) };
    match policy.resolver_update(update(), None, &mut controller) {
        ResolverStep::Handled(result) => assert_eq!(result, Err("no such host".to_string())),
        other => panic!("{other:?}"),
    }
    assert_eq!(told(&mut controller), vec!["TransientFailure fail no such host", "resolve"]);
    // A policy that connects keeps quiet.
    let (mut policy, mut controller) = connecting(&["a"]);
    match policy.resolver_update(update(), None, &mut controller) {
        ResolverStep::Handled(result) => assert_eq!(result, Ok(())),
        other => panic!("{other:?}"),
    }
    assert!(told(&mut controller).is_empty());
    assert!(policy.timer.is_none());
}

#[test]
fn reports_of_unknown_subchannels_are_ignored() {
    let (mut policy, mut controller) = connecting(&["a", "b"]);
    let stranger = subchannel(4, "c");
    assert!(policy.can_update(&stranger, &state(ConnectivityState::Ready)));
    policy.subchannel_update(stranger, &state(ConnectivityState::Ready), &mut controller);
    assert!(told(&mut controller).is_empty());
    assert!(policy.selected.is_none());
}

#[test]
fn the_end_of_a_pass_needs_an_error() {
    let (mut policy, mut controller) = connecting(&["a", "b"]);
    let silent = state(ConnectivityState::TransientFailure);
    let sc1 = policy.subchannels[0].clone();
    let sc2 = policy.subchannels[1].clone();
    // The pass goes on to b, so no error is needed.
    assert!(policy.can_update(&sc1, &silent));
    policy.subchannel_update(sc1, &silent, &mut controller);
    assert_eq!(told(&mut controller), vec!["connect b"]);
    // Here it ends.
    assert!(!policy.can_update(&sc2, &silent));
    assert!(policy.can_update(&sc2, &failed("reset")));
    assert!(policy.can_update(&sc2, &state(ConnectivityState::Connecting)));
    policy.subchannel_update(sc2, &failed("reset"), &mut controller);
    assert_eq!(told(&mut controller), vec!["TransientFailure fail reset", "resolve"]);
}

#[test]
fn a_pass_skips_subchannels_that_have_failed() {
    let (mut policy, mut controller) = connecting(&["a", "b", "c"]);
    policy.subchannel_states.insert(
        Address::tcp("b"),
        state(ConnectivityState::TransientFailure),
    );
    let sc1 = policy.subchannels[0].clone();
    policy.subchannel_update(sc1, &failed("refused"), &mut controller);
    assert_eq!(told(&mut controller), vec!["connect c"]);
    assert_eq!(policy.frontier_index, 2);
}

#[test]
fn expired_timers_push_the_frontier_to_the_end() {
    let (mut policy, mut controller) = connecting(&["a", "b"]);
    assert_eq!(policy.timer.unwrap().serial, 1);
    // Nothing to do before the timer expires.
    policy.work(&mut controller);
    assert!(told(&mut controller).is_empty());
    assert!(policy.timer_fired(1));
    assert!(policy.timer.unwrap().expired());
    policy.work(&mut controller);
    assert_eq!(told(&mut controller), vec!["connect b"]);
    // The first timer was replaced.
    assert!(!policy.timer_fired(1));
    assert!(!policy.timer.unwrap().expired());
    assert!(policy.timer_fired(2));
    policy.work(&mut controller);
    assert!(told(&mut controller).is_empty());
    assert_eq!(policy.frontier_index, 2);
    assert_eq!(policy.connectivity_state, ConnectivityState::Connecting);
}

#[test]
fn selection_stops_the_timer() {
    let (mut policy, mut controller) = connecting(&["a", "b"]);
    let sc2 = policy.subchannels[1].clone();
    policy.subchannel_update(sc2, &state(ConnectivityState::Ready), &mut controller);
    assert_eq!(told(&mut controller), vec!["Ready use b"]);
    assert!(!policy.timer_fired(1));
    assert_eq!(policy.subchannels.len(), 1);
    // Another report of the selected subchannel changes nothing.
    let sc2 = policy.subchannels[0].clone();
    policy.subchannel_update(sc2, &state(ConnectivityState::Ready), &mut controller);
    assert!(told(&mut controller).is_empty());
}

#[test]
fn a_lost_connection_makes_the_channel_idle() {
    let (mut policy, mut controller) = connecting(&["a"]);
    let sc = policy.subchannels[0].clone();
    policy.subchannel_update(sc.clone(), &state(ConnectivityState::Ready), &mut controller);
    told(&mut controller);
    policy.subchannel_update(sc, &failed("broken pipe"), &mut controller);
    assert_eq!(told(&mut controller), vec!["Idle idle false"]);
    // The error of the selected subchannel is not kept.
    assert!(policy.last_connection_error.is_none());
    // So a pass would have nothing to report.
    assert!(!policy.can_work());
    assert!(!policy.can_exit_idle());
}

#[test]
fn an_idle_channel_connects_when_there_is_work() {
    let (mut policy, mut controller) = connecting(&["a"]);
    let sc = policy.subchannels[0].clone();
    policy.subchannel_update(sc.clone(), &state(ConnectivityState::Ready), &mut controller);
    policy.subchannel_update(sc, &state(ConnectivityState::Idle), &mut controller);
    told(&mut controller);
    assert!(policy.can_work());
    policy.work(&mut controller);
    assert_eq!(told(&mut controller), vec!["connect a", "Connecting queue"]);
    // Connecting is not published twice.
    assert!(policy.can_exit_idle());
    policy.exit_idle(&mut controller);
    assert_eq!(told(&mut controller), vec!["connect a"]);
}

#[test]
fn idle_pickers_ask_for_work_once() {
    let mut picker = IdlePicker::new();
    let (first, schedule) = picker.pick();
    assert!(matches!(first, PickResult::Queue));
    assert!(schedule);
    let (second, schedule) = picker.pick();
    assert!(matches!(second, PickResult::Queue));
    assert!(!schedule);
}

#[test]
fn failing_pickers_tell_the_error() {
    let (mut policy, mut controller) = connecting(&["a"]);
    let sc = policy.subchannels[0].clone();
    policy.subchannel_update(sc, &failed("refused"), &mut controller);
    match controller.events.remove(0) {
        LbEvent::UpdatePicker(mut s) => match s.picker.pick() {
            (PickResult::Fail(message), false) => assert_eq!(message, "refused"),
            other => panic!("{other:?}"),
        },
        other => panic!("{other:?}"),
    }
}

#[test]
fn every_threshold_th_failure_asks_for_addresses() {
    let mut steady = SteadyState::new(3);
    let mut controller = ChannelController::new();
    let mut asked = Vec::new();
    for _ in 0..7 {
        steady.subchannel_nonready(&mut controller, subchannel(1, "a"), &failed("x"));
        asked.push(told(&mut controller).len());
    }
    assert_eq!(asked, vec![0, 0, 1, 0, 0, 1, 0]);
    assert_eq!(steady.failure_count, 1);
    steady.subchannel_nonready(
        &mut controller,
        subchannel(1, "a"),
        &state(ConnectivityState::Connecting),
    );
    assert!(told(&mut controller).is_empty());
    steady.subchannel_nonready(
        &mut controller,
        subchannel(1, "a"),
        &state(ConnectivityState::Idle),
    );
    assert_eq!(told(&mut controller), vec!["connect a"]);
    assert_eq!(steady.failure_count, 1);
}

#[test]
fn the_state_cache_keeps_the_latest_state() {
    let mut cache = StateCache::new();
    assert!(cache.get(&Address::tcp("a")).is_none());
    cache.insert(Address::tcp("a"), state(ConnectivityState::Idle));
    cache.insert(Address::tcp("b"), state(ConnectivityState::Connecting));
    cache.insert(Address::tcp("a"), failed("x"));
    let a = cache.get(&Address::tcp("a")).unwrap();
    assert_eq!(a.connectivity_state, ConnectivityState::TransientFailure);
    assert_eq!(a.last_connection_error.as_deref(), Some("x"));
    let b = cache.get(&Address::tcp("b")).unwrap();
    assert_eq!(b.connectivity_state, ConnectivityState::Connecting);
    // An address with other attributes is another address.
    let mut other = Address::tcp("a");
    other.attributes = "zone".to_string();
    assert!(cache.get(&other).is_none());
}

#[test]
fn the_channel_always_knows_the_policy() {
    let (mut policy, mut controller) = connecting(&["a", "b"]);
    let mut known = ConnectivityState::Connecting;
    let mut settle = |policy: &PickFirstPolicy, controller: &mut ChannelController| {
        for event in controller.events.drain(..) {
            match event {
                LbEvent::UpdatePicker(s) => known = s.connectivity_state,
                LbEvent::Connect(sc) => {
                    assert!(policy.subchannels.iter().any(|l| l.address == sc.address));
                }
                _ => {}
            }
        }
        assert_eq!(known, policy.connectivity_state);
    };
    let a = policy.subchannels[0].clone();
    let b = policy.subchannels[1].clone();
    for report in [
        (&a, failed("one")),
        (&b, state(ConnectivityState::Connecting)),
        (&a, state(ConnectivityState::Idle)),
        (&b, failed("two")),
        (&a, state(ConnectivityState::Connecting)),
        (&a, state(ConnectivityState::Ready)),
        (&b, state(ConnectivityState::Ready)),
        (&a, state(ConnectivityState::Idle)),
    ] {
        assert!(policy.can_update(report.0, &report.1));
        policy.subchannel_update(report.0.clone(), &report.1, &mut controller);
        settle(&policy, &mut controller);
    }
    assert_eq!(policy.connectivity_state, ConnectivityState::Idle);
    policy.work(&mut controller);
    settle(&policy, &mut controller);
    assert_eq!(policy.connectivity_state, ConnectivityState::Connecting);
}
