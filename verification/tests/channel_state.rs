use grpc_lb::channel_state::{EndpointAddress, OutlierChannelState};
use grpc_lb::time::Instant;

fn addr(port: u16) -> EndpointAddress {
    EndpointAddress::new("10.0.0.1", port)
}

#[test]
fn channel_state_records_and_resets() {
    let mut s = OutlierChannelState::new(addr(8080));
    s.record_success();
    s.record_success();
    s.record_failure();
    assert_eq!(s.snapshot_and_reset(), (2, 1));
    assert_eq!(s.snapshot_and_reset(), (0, 0));
}

#[test]
fn channel_state_try_eject_uneject_transitions_atomically() {
    let now = Instant::from_nanos(1);
    let mut s = OutlierChannelState::new(addr(8080));
    assert!(!s.is_ejected());
    assert!(s.try_eject(now));
    assert!(s.is_ejected());
    // Second call is a no-op.
    assert!(!s.try_eject(now));
    assert!(s.try_uneject());
    assert!(!s.is_ejected());
    assert!(!s.try_uneject());
}

#[test]
fn channel_state_remembers_its_address() {
    let s = OutlierChannelState::new(addr(9090));
    assert_eq!(s.addr(), &addr(9090));
}
