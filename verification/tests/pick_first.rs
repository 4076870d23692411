use grpc_lb::lb_types::{
    ChannelController, ConnectivityState, LbEvent, LbState, PickResult, SubchannelState,
};
use grpc_lb::name_resolution::{Address, Endpoint, ResolverUpdate};
use grpc_lb::pick_first::{PickFirstBuilder, PickFirstConfig, PickFirstPolicy};
use grpc_lb::pick_first_resolver::{MadeSubchannel, ResolverStep};
use grpc_lb::pick_first_spec::Shuffler;

// A channel that makes idle subchannels, numbered from one.
struct Channel {
    made: u64,
    controller: ChannelController,
}

impl Channel {
    fn update(
        &mut self,
        policy: &mut PickFirstPolicy,
        endpoints: Result<Vec<Endpoint>, String>,
        config: Option<&PickFirstConfig>,
    ) -> Result<(), String> {
        let update = ResolverUpdate { endpoints };
        match policy.resolver_update(update, config, &mut self.controller) {
            ResolverStep::Handled(result) => result,
            ResolverStep::NewList(addresses) => {
                let mut made = Vec::new();
                for event in &self.controller.events {
                    if let LbEvent::NewSubchannel(_) = event {
                        self.made += 1;
                        made.push(MadeSubchannel { id: self.made, state: idle() });
                    }
                }
                assert!(policy.can_take_up(&addresses, &made));
                policy.subchannels_made(addresses, made, &mut self.controller);
                Ok(())
            }
        }
    }

    fn next(&mut self) -> Option<LbEvent> {
        if self.controller.events.is_empty() {
            None
        } else {
            Some(self.controller.events.remove(0))
        }
    }

    fn expect_nothing(&mut self) {
        assert!(self.controller.events.is_empty(), "{:?}", self.controller.events);
    }

    fn expect_new_subchannel(&mut self) -> Address {
        match self.next() {
            Some(LbEvent::NewSubchannel(address)) => address,
            other => panic!("expected NewSubchannel, got {:?}", other),
        }
    }

    fn expect_connect(&mut self) -> String {
        match self.next() {
            Some(LbEvent::Connect(sc)) => sc.address.address,
            other => panic!("expected Connect, got {:?}", other),
        }
    }

    fn expect_picker_update(&mut self) -> LbState {
        match self.next() {
            Some(LbEvent::UpdatePicker(state)) => state,
            other => panic!("expected UpdatePicker, got {:?}", other),
        }
    }

    fn expect_request_resolution(&mut self) {
        match self.next() {
            Some(LbEvent::RequestResolution) => {}
            other => panic!("expected RequestResolution, got {:?}", other),
        }
    }
}

fn idle() -> SubchannelState {
    SubchannelState { connectivity_state: ConnectivityState::Idle, last_connection_error: None }
}

fn ready() -> SubchannelState {
    SubchannelState { connectivity_state: ConnectivityState::Ready, last_connection_error: None }
}

fn failed(error: &str) -> SubchannelState {
    SubchannelState {
        connectivity_state: ConnectivityState::TransientFailure,
        last_connection_error: Some(error.to_string()),
    }
}

// Endpoints with one address each, all with the same attributes.
fn create_endpoints(addrs: Vec<&str>, attrs: &str) -> Vec<Endpoint> {
    addrs
        .into_iter()
        .map(|a| {
            let mut address = Address::tcp(a);
            address.attributes = attrs.to_string();
            Endpoint { addresses: vec![address] }
        })
        .collect()
}

fn setup() -> (PickFirstPolicy, Channel) {
    let mut policy = PickFirstBuilder {}.build();
    // Deterministic shuffling: reverse the endpoints.
    policy.shuffler = Shuffler::Reverse;
    (policy, Channel { made: 0, controller: ChannelController::new() })
}

fn simulate_connection(addrs: Vec<&str>) -> (PickFirstPolicy, Channel) {
    let (mut policy, mut channel) = setup();
    let addrs_len = addrs.len();
    let endpoints = create_endpoints(addrs, "");
    channel.update(&mut policy, Ok(endpoints), None).unwrap();

    for _ in 0..addrs_len {
        channel.expect_new_subchannel();
    }
    channel.expect_connect();
    let state = channel.expect_picker_update();
    assert_eq!(state.connectivity_state, ConnectivityState::Connecting);
    (policy, channel)
}

fn simulate_successful_connection(addrs: Vec<&str>) -> (PickFirstPolicy, Channel) {
    let (mut policy, mut channel) = simulate_connection(addrs);
    let sc1 = policy.subchannels[0].clone();
    policy.subchannel_update(sc1, &ready(), &mut channel.controller);
    (policy, channel)
}

fn simulate_failed_connection(addrs: Vec<&str>) -> (PickFirstPolicy, Channel) {
    let (mut policy, mut channel) = simulate_connection(addrs);
    let sc1 = policy.subchannels[0].clone();
    policy.subchannel_update(sc1, &failed("connection refused"), &mut channel.controller);
    (policy, channel)
}

// The first address can be connected to, and the picker becomes ready with the
// right subchannel.
#[test]
fn test_pick_first_basic_connection() {
    let (_, mut channel) = simulate_successful_connection(vec!["addr1", "addr2"]);

    let mut state = channel.expect_picker_update();
    assert_eq!(state.connectivity_state, ConnectivityState::Ready);
    match state.picker.pick().0 {
        PickResult::Pick(pick) => assert_eq!(pick.subchannel.address.address, "addr1"),
        other => panic!("unexpected pick result {:?}", other),
    }
}

// If the first address fails, the second is tried.
#[test]
fn test_pick_first_failover() {
    let (mut policy, mut channel) = simulate_failed_connection(vec!["addr1", "addr2"]);

    assert_eq!(channel.expect_connect(), "addr2");

    let sc2 = policy.subchannels[1].clone();
    policy.subchannel_update(sc2, &ready(), &mut channel.controller);

    let state = channel.expect_picker_update();
    assert_eq!(state.connectivity_state, ConnectivityState::Ready);
}

// A selected subchannel that is still in a new list stays selected.
#[test]
fn test_pick_first_stickiness() {
    let (mut policy, mut channel) = simulate_successful_connection(vec!["addr1", "addr2"]);

    let state = channel.expect_picker_update();
    assert_eq!(state.connectivity_state, ConnectivityState::Ready);

    let endpoints_new = create_endpoints(vec!["addr2", "addr1", "addr3"], "");
    channel.update(&mut policy, Ok(endpoints_new), None).unwrap();

    // The subchannel for addr2 was let go, and addr3 is new.
    assert_eq!(channel.expect_new_subchannel().address, "addr2");
    assert_eq!(channel.expect_new_subchannel().address, "addr3");

    // No connection and no new picker.
    channel.expect_nothing();

    assert_eq!(policy.selected.as_ref().unwrap().address.address, "addr1");
}

// If all addresses fail during a pass, requests fail and new addresses are asked
// for.
#[test]
fn test_pick_first_exhaustion() {
    let (_policy, mut channel) = simulate_failed_connection(vec!["addr1"]);

    let state = channel.expect_picker_update();
    assert_eq!(state.connectivity_state, ConnectivityState::TransientFailure);
    channel.expect_request_resolution();
}

// Shuffling and interleaving follow the shuffler and the config.
#[test]
fn test_pick_first_shuffling_and_interleaving_deterministic() {
    let (mut policy, mut channel) = setup();
    let config = PickFirstConfig { shuffle_address_list: true };

    let endpoints = vec![
        Endpoint { addresses: vec![Address::tcp("::1"), Address::tcp("127.0.0.1")] },
        Endpoint { addresses: vec![Address::tcp("::2")] },
        Endpoint { addresses: vec![Address::tcp("127.0.0.2")] },
    ];
    channel.update(&mut policy, Ok(endpoints), Some(&config)).unwrap();

    const NUM_ADDRS: usize = 4;
    let mut resulting_addrs = Vec::with_capacity(NUM_ADDRS);
    for _ in 0..NUM_ADDRS {
        resulting_addrs.push(channel.expect_new_subchannel().address);
    }

    // Reversed, the endpoints have ::2, ::1 and 127.0.0.2, 127.0.0.1.
    let expected = vec!["::2", "127.0.0.2", "::1", "127.0.0.1"];
    assert_eq!(resulting_addrs, expected, "Interleaving or shuffling failed");
}

// An address that occurs several times in one endpoint or across endpoints gets
// one subchannel.
#[test]
fn test_pick_first_duplicate_de_duplication() {
    let (mut policy, mut channel) = setup();

    let unknown = |a: &str| Address {
        network_type: String::new(),
        address: a.to_string(),
        attributes: String::new(),
    };
    let endpoints = vec![
        Endpoint { addresses: vec![unknown("addr1"), unknown("addr1")] },
        Endpoint { addresses: vec![unknown("addr2"), unknown("addr1")] },
    ];
    channel.update(&mut policy, Ok(endpoints), None).unwrap();

    assert_eq!(channel.expect_new_subchannel().address, "addr1");
    assert_eq!(channel.expect_new_subchannel().address, "addr2");

    while let Some(event) = channel.next() {
        if let LbEvent::NewSubchannel(_) = event {
            panic!("Duplicate subchannel created");
        }
    }
    assert_eq!(policy.subchannels.len(), 2, "De-duplication failed");
}

// A report without addresses clears the subchannels, makes requests fail and asks
// for new addresses.
#[test]
fn test_pick_first_empty_update_clears_state() {
    let (mut policy, mut channel) = simulate_successful_connection(vec!["addr1", "addr2"]);

    let state = channel.expect_picker_update();
    assert_eq!(state.connectivity_state, ConnectivityState::Ready);
    while channel.next().is_some() {}

    let res = channel.update(&mut policy, Ok(vec![]), None);
    assert!(res.is_err());

    let state = channel.expect_picker_update();
    assert_eq!(state.connectivity_state, ConnectivityState::TransientFailure);
    channel.expect_request_resolution();
}

// If the timer expires during a pass, the next address is tried.
#[test]
fn test_pick_first_timer_advancement() {
    let (mut policy, mut channel) = simulate_connection(vec!["addr1", "addr2"]);

    let serial = policy.timer.as_ref().unwrap().serial;
    assert!(policy.timer_fired(serial));
    policy.work(&mut channel.controller);

    assert_eq!(channel.expect_connect(), "addr2");
}

// Once all addresses have failed, a subchannel that becomes idle is connected
// again.
#[test]
fn test_pick_first_steady_state_retries() {
    let (mut policy, mut channel) = simulate_failed_connection(vec!["addr1"]);
    let sc1 = policy.subchannels[0].clone();

    let state = channel.expect_picker_update();
    assert_eq!(state.connectivity_state, ConnectivityState::TransientFailure);
    channel.expect_request_resolution();

    assert!(policy.steady_state.is_some());

    policy.subchannel_update(sc1, &idle(), &mut channel.controller);
    assert_eq!(channel.expect_connect(), "addr1");
}

// In steady state an address that becomes ready is used at once. One that becomes
// idle is connected again, but is not used before it is ready.
#[test]
fn test_pick_first_steady_state_multi_backend() {
    let (mut policy, mut channel) = simulate_failed_connection(vec!["addr1", "addr2"]);
    let sc1 = policy.subchannels[0].clone();

    assert_eq!(channel.expect_connect(), "addr2");

    // While addr2 is connecting, addr1 becomes idle.
    policy.subchannel_update(sc1.clone(), &idle(), &mut channel.controller);

    // It is not connected again during the first pass.
    channel.expect_nothing();

    // addr2 fails, which ends the first pass.
    let sc2 = policy.subchannels[1].clone();
    policy.subchannel_update(sc2, &failed("connection refused"), &mut channel.controller);

    let state = channel.expect_picker_update();
    assert_eq!(state.connectivity_state, ConnectivityState::TransientFailure);
    channel.expect_request_resolution();
    assert_eq!(channel.expect_connect(), "addr1");

    assert!(policy.steady_state.is_some());

    policy.subchannel_update(sc1.clone(), &idle(), &mut channel.controller);
    assert_eq!(channel.expect_connect(), "addr1");

    policy.subchannel_update(sc1, &ready(), &mut channel.controller);
    let mut state = channel.expect_picker_update();
    assert_eq!(state.connectivity_state, ConnectivityState::Ready);
    match state.picker.pick().0 {
        PickResult::Pick(pick) => assert_eq!(pick.subchannel.address.address, "addr1"),
        other => panic!("unexpected pick result {:?}", other),
    }
}

// A subchannel that becomes idle during the first pass is connected when the pass
// ends.
#[test]
fn test_pick_first_steady_state_stuck_idle_prevention() {
    let (mut policy, mut channel) = simulate_failed_connection(vec!["addr1", "addr2"]);
    let sc1 = policy.subchannels[0].clone();

    assert_eq!(channel.expect_connect(), "addr2");

    policy.subchannel_update(sc1, &idle(), &mut channel.controller);
    channel.expect_nothing();

    let sc2 = policy.subchannels[1].clone();
    policy.subchannel_update(sc2, &failed("connection refused"), &mut channel.controller);

    let state = channel.expect_picker_update();
    assert_eq!(state.connectivity_state, ConnectivityState::TransientFailure);
    channel.expect_request_resolution();
    assert_eq!(channel.expect_connect(), "addr1");
}

// The same address with other attributes is another address.
#[test]
fn test_pick_first_address_update_with_attributes() {
    let addr = "addr1";
    let (mut policy, mut channel) = simulate_connection(vec![addr]);

    let endpoints_updated = create_endpoints(vec![addr], "metadata_value");
    channel.update(&mut policy, Ok(endpoints_updated), None).unwrap();

    let mut found_new_subchannel = false;
    while let Some(event) = channel.next() {
        if let LbEvent::NewSubchannel(_) = event {
            found_new_subchannel = true;
            break;
        }
    }
    assert!(
        found_new_subchannel,
        "Policy failed to recreate subchannel when address attributes mutated."
    );
}

// A failure of the resolver does not disturb connecting while there are addresses.
#[test]
fn test_pick_first_resolver_error_during_connecting() {
    let (mut policy, mut channel) = simulate_connection(vec!["addr1"]);

    let resolver_error = "dns resolution failed".to_string();
    channel.update(&mut policy, Err(resolver_error), None).unwrap();

    channel.expect_nothing();
    assert!(
        !policy.subchannels.is_empty(),
        "Subchannels erroneously cleared by resolver error."
    );
}

// The policy waits for all connections before requests fail.
#[test]
fn test_pick_first_happy_eyeballs_out_of_order_failure() {
    let (mut policy, mut channel) = simulate_connection(vec!["addr1", "addr2"]);

    // The timer expires, and addr2 is tried as well.
    let serial = policy.timer.as_ref().unwrap().serial;
    assert!(policy.timer_fired(serial));
    policy.work(&mut channel.controller);
    assert_eq!(channel.expect_connect(), "addr2");

    // addr2 fails first.
    let sc2 = policy.subchannels[1].clone();
    policy.subchannel_update(sc2, &failed("addr2 failed"), &mut channel.controller);
    channel.expect_nothing();

    // With addr1 failing as well, the pass is over.
    let sc1 = policy.subchannels[0].clone();
    policy.subchannel_update(sc1, &failed("addr1 failed"), &mut channel.controller);
    let state = channel.expect_picker_update();
    assert_eq!(state.connectivity_state, ConnectivityState::TransientFailure);
}

// Failures in steady state replace the last error.
#[test]
fn test_pick_first_steady_state_freshest_error() {
    let (mut policy, mut channel) = simulate_failed_connection(vec!["addr1"]);

    let state = channel.expect_picker_update();
    assert_eq!(state.connectivity_state, ConnectivityState::TransientFailure);
    channel.expect_request_resolution();
    assert!(policy.steady_state.is_some());

    let sc1 = policy.subchannels[0].clone();
    policy.subchannel_update(
        sc1,
        &failed("steady state network drop"),
        &mut channel.controller,
    );

    assert_eq!(
        policy.last_connection_error.as_deref(),
        Some("steady state network drop")
    );
}

// When the selected subchannel is lost, the channel becomes idle. The first
// request schedules work, and work connects again.
#[test]
fn test_pick_first_disconnect_to_idle_and_reconnect() {
    let (mut policy, mut channel) = simulate_successful_connection(vec!["addr1"]);

    let mut state = channel.expect_picker_update();
    assert_eq!(state.connectivity_state, ConnectivityState::Ready);
    let sc1 = match state.picker.pick().0 {
        PickResult::Pick(pick) => {
            assert_eq!(pick.subchannel.address.address, "addr1");
            pick.subchannel
        }
        other => panic!("unexpected pick result {:?}", other),
    };

    policy.subchannel_update(sc1, &idle(), &mut channel.controller);

    let mut state = channel.expect_picker_update();
    assert_eq!(state.connectivity_state, ConnectivityState::Idle);
    channel.expect_nothing();

    // A request is queued and schedules work.
    let (pick_result, schedule) = state.picker.pick();
    assert!(matches!(pick_result, PickResult::Queue));
    assert!(schedule);

    policy.work(&mut channel.controller);
    assert_eq!(channel.expect_connect(), "addr1");
    let state = channel.expect_picker_update();
    assert_eq!(state.connectivity_state, ConnectivityState::Connecting);
}
