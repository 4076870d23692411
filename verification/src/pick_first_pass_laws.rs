//! How the `pick_first` policy makes its way through the address list, told by
//! the list, the states that are known, and what subchannels report.

use crate::lb_types::{
    ConnectivityState, LbEventView, LbStateView, PickerView, SubchannelStateView, SubchannelView,
};
use crate::name_resolution::AddressView;
use crate::pick_first_lemmas::lemma_noted_listed;
use crate::pick_first_spec::{next_index, PolicyView, SteadyState, Timer};
use vstd::prelude::*;

verus! {

/// An address is listed if some subchannel has it.
proof fn lemma_listed_at(policy: PolicyView, address: AddressView)
    ensures
        policy.current(address) <==> exists|i: int|
            0 <= i < policy.subchannels.len() && (#[trigger] policy.subchannels[i]).address
                == address,
{
    if policy.current(address) {
        let i = choose|i: int|
            0 <= i < policy.subchannels.len() && #[trigger] policy.subchannels[i].address
                == address;
        assert(policy.subchannels[i].address == address);
    }
    if exists|i: int|
        0 <= i < policy.subchannels.len() && (#[trigger] policy.subchannels[i]).address
            == address {
        let i = choose|i: int|
            0 <= i < policy.subchannels.len() && (#[trigger] policy.subchannels[i]).address
                == address;
        assert(policy.subchannels[i].address == address);
    }
}

/// The frontier stops at the first subchannel that has not failed.
proof fn lemma_stops_at(policy: PolicyView, from: int, k: int)
    requires
        0 <= from <= k < policy.subchannels.len(),
        policy.states[policy.subchannels[k].address].connectivity_state
            != ConnectivityState::TransientFailure,
        forall|i: int|
            from <= i < k ==> policy.states[(
            #[trigger] policy.subchannels[i]).address].connectivity_state
                == ConnectivityState::TransientFailure,
    ensures
        policy.first_viable(from) == k,
    decreases k - from,
{
    if from < k {
        assert(policy.states[policy.subchannels[from].address].connectivity_state
            == ConnectivityState::TransientFailure);
        lemma_stops_at(policy, from + 1, k);
    }
}

/// The frontier leaves the list if all the rest has failed.
proof fn lemma_runs_out(policy: PolicyView, from: int)
    requires
        0 <= from <= policy.subchannels.len(),
        forall|i: int|
            from <= i < policy.subchannels.len() ==> policy.states[(
            #[trigger] policy.subchannels[i]).address].connectivity_state
                == ConnectivityState::TransientFailure,
    ensures
        policy.first_viable(from) == policy.subchannels.len(),
    decreases policy.subchannels.len() - from,
{
    if from < policy.subchannels.len() {
        assert(policy.states[policy.subchannels[from].address].connectivity_state
            == ConnectivityState::TransientFailure);
        lemma_runs_out(policy, from + 1);
    }
}

/// The report of a subchannel whose address is not listed changes nothing.
pub proof fn law_unlisted_report(policy: PolicyView, sc: SubchannelView, state: SubchannelStateView)
    requires
        forall|i: int|
            0 <= i < policy.subchannels.len() ==> (#[trigger] policy.subchannels[i]).address
                != sc.address,
    ensures
        policy.subchannel_update(sc, state).policy == policy,
        policy.subchannel_update(sc, state).events.len() == 0,
{
    lemma_listed_at(policy, sc.address);
}

/// While the selected subchannel says that it is ready, only its state is noted.
pub proof fn law_selected_ready_report(
    policy: PolicyView,
    sc: SubchannelView,
    state: SubchannelStateView,
)
    requires
        exists|i: int|
            0 <= i < policy.subchannels.len() && (#[trigger] policy.subchannels[i]).address
                == sc.address,
        policy.selected is Some,
        policy.selected->0.address == sc.address,
        state.connectivity_state == ConnectivityState::Ready,
    ensures
        policy.subchannel_update(sc, state).policy == (PolicyView {
            states: policy.states.insert(sc.address, state),
            ..policy
        }),
        policy.subchannel_update(sc, state).events.len() == 0,
{
    lemma_listed_at(policy, sc.address);
}

/// When the selected subchannel says that it is not ready, the channel becomes
/// idle and nothing is selected. The list, the frontier, the timer and the last
/// error stay.
pub proof fn law_selected_lost_report(
    policy: PolicyView,
    sc: SubchannelView,
    state: SubchannelStateView,
)
    requires
        exists|i: int|
            0 <= i < policy.subchannels.len() && (#[trigger] policy.subchannels[i]).address
                == sc.address,
        policy.selected is Some,
        policy.selected->0.address == sc.address,
        state.connectivity_state != ConnectivityState::Ready,
    ensures
        policy.subchannel_update(sc, state).policy == (PolicyView {
            states: policy.states.insert(sc.address, state),
            selected: None,
            connectivity_state: ConnectivityState::Idle,
            ..policy
        }),
        policy.subchannel_update(sc, state).events == seq![
            LbEventView::UpdatePicker(
                LbStateView {
                    connectivity_state: ConnectivityState::Idle,
                    picker: PickerView::Idle { triggered_work: false },
                },
            ),
        ],
{
    lemma_listed_at(policy, sc.address);
}

/// A listed subchannel that says that it is ready, and is not selected, is
/// selected in whatever state the policy is: requests go to it, and all other
/// subchannels are let go.
pub proof fn law_ready_report(policy: PolicyView, sc: SubchannelView, state: SubchannelStateView)
    requires
        exists|i: int|
            0 <= i < policy.subchannels.len() && (#[trigger] policy.subchannels[i]).address
                == sc.address,
        policy.selected is Some ==> policy.selected->0.address != sc.address,
        state.connectivity_state == ConnectivityState::Ready,
    ensures
        policy.subchannel_update(sc, state).policy == (PolicyView {
            states: policy.states.insert(sc.address, state),
            selected: Some(sc),
            subchannels: seq![sc],
            connectivity_state: ConnectivityState::Ready,
            timer: None,
            steady_state: None,
            ..policy
        }),
        policy.subchannel_update(sc, state).events == seq![
            LbEventView::UpdatePicker(
                LbStateView {
                    connectivity_state: ConnectivityState::Ready,
                    picker: PickerView::OneSubchannel { sc },
                },
            ),
        ],
{
    lemma_listed_at(policy, sc.address);
}

/// What a count of failures makes of a report: a failure is counted, and new
/// addresses are asked for exactly when the failures reach the threshold, where
/// counting starts over. An idle subchannel is connected, and nothing else is
/// asked for.
pub proof fn law_count_of_failures(
    steady: SteadyState,
    sc: SubchannelView,
    state: ConnectivityState,
)
    requires
        steady.failure_count < usize::MAX,
    ensures
        steady.told(state).failure_threshold == steady.failure_threshold,
        state == ConnectivityState::TransientFailure && steady.failure_count + 1
            >= steady.failure_threshold ==> steady.asks(sc, state) == seq![
            LbEventView::RequestResolution,
        ] && steady.told(state).failure_count == 0,
        state == ConnectivityState::TransientFailure && steady.failure_count + 1
            < steady.failure_threshold ==> steady.asks(sc, state).len() == 0 && steady.told(
            state,
        ).failure_count == steady.failure_count + 1,
        state == ConnectivityState::Idle ==> steady.asks(sc, state) == seq![
            LbEventView::Connect(sc),
        ] && steady.told(state).failure_count == steady.failure_count,
        state == ConnectivityState::Connecting || state == ConnectivityState::Ready
            ==> steady.asks(sc, state).len() == 0 && steady.told(state).failure_count
            == steady.failure_count,
{
}

/// In steady state a report of failure from a listed subchannel that is not
/// selected leads to exactly one request for new addresses if it brings the
/// failures to the threshold, and to nothing otherwise. Its state and its error
/// are noted; all else stays.
pub proof fn law_failure_in_steady_state(
    policy: PolicyView,
    sc: SubchannelView,
    state: SubchannelStateView,
    steady: SteadyState,
)
    requires
        exists|i: int|
            0 <= i < policy.subchannels.len() && (#[trigger] policy.subchannels[i]).address
                == sc.address,
        policy.selected is Some ==> policy.selected->0.address != sc.address,
        policy.steady_state == Some(steady),
        steady.failure_count < usize::MAX,
        state.connectivity_state == ConnectivityState::TransientFailure,
    ensures
        ({
            let outcome = policy.subchannel_update(sc, state);
            let reached = steady.failure_count + 1 >= steady.failure_threshold;
            &&& reached ==> outcome.events == seq![LbEventView::RequestResolution]
            &&& !reached ==> outcome.events.len() == 0
            &&& outcome.policy == (PolicyView {
                states: policy.states.insert(sc.address, state),
                last_connection_error: if state.last_connection_error is Some {
                    state.last_connection_error
                } else {
                    policy.last_connection_error
                },
                steady_state: Some(
                    SteadyState {
                        failure_threshold: steady.failure_threshold,
                        failure_count: if reached {
                            0
                        } else {
                            (steady.failure_count + 1) as usize
                        },
                    },
                ),
                ..policy
            })
        }),
{
    lemma_listed_at(policy, sc.address);
}

/// In steady state a listed subchannel that becomes idle is connected, and one
/// that is connecting is left alone. Its state is noted; all else stays.
pub proof fn law_retry_in_steady_state(
    policy: PolicyView,
    sc: SubchannelView,
    state: SubchannelStateView,
)
    requires
        exists|i: int|
            0 <= i < policy.subchannels.len() && (#[trigger] policy.subchannels[i]).address
                == sc.address,
        policy.selected is Some ==> policy.selected->0.address != sc.address,
        policy.steady_state is Some,
        state.connectivity_state == ConnectivityState::Idle || state.connectivity_state
            == ConnectivityState::Connecting,
    ensures
        ({
            let outcome = policy.subchannel_update(sc, state);
            &&& state.connectivity_state == ConnectivityState::Idle ==> outcome.events == seq![
                LbEventView::Connect(sc),
            ]
            &&& state.connectivity_state == ConnectivityState::Connecting
                ==> outcome.events.len() == 0
            &&& outcome.policy == (PolicyView {
                states: policy.states.insert(sc.address, state),
                ..policy
            })
        }),
{
    lemma_listed_at(policy, sc.address);
}

/// As long as any subchannel of the list is connecting once a report is noted,
/// the first pass is open: nothing is published, new addresses are not asked for,
/// and steady state does not begin.
pub proof fn law_connecting_keeps_pass_open(
    policy: PolicyView,
    sc: SubchannelView,
    state: SubchannelStateView,
    i: int,
)
    requires
        policy.wf(),
        policy.steady_state is None,
        policy.selected is Some ==> policy.selected->0.address != sc.address,
        state.connectivity_state != ConnectivityState::Ready,
        0 <= i < policy.subchannels.len(),
        policy.states.insert(
            sc.address,
            state,
        )[policy.subchannels[i].address].connectivity_state == ConnectivityState::Connecting,
    ensures
        ({
            let outcome = policy.subchannel_update(sc, state);
            &&& forall|e: int|
                0 <= e < outcome.events.len() ==> #[trigger] outcome.events[e] is Connect
            &&& outcome.policy.connectivity_state == policy.connectivity_state
            &&& outcome.policy.steady_state is None
            &&& outcome.policy.selected == policy.selected
        }),
{
    let noted = policy.noted(sc.address, state);
    let moved = noted.first_pass_moved(sc.address, state.connectivity_state).policy;
    lemma_noted_listed(policy, sc.address, state);
    assert(noted.connectivity(i) == ConnectivityState::Connecting);
    assert(moved.connectivity(i) == ConnectivityState::Connecting);
    assert(moved.any_connecting());
}

/// When the frontier's subchannel fails during the first pass, a connection is
/// started on the next subchannel that has not failed, with a timer of its own.
/// Nothing is published.
pub proof fn law_failover(
    policy: PolicyView,
    sc: SubchannelView,
    state: SubchannelStateView,
    k: int,
)
    requires
        policy.wf(),
        policy.steady_state is None,
        policy.selected is Some ==> policy.selected->0.address != sc.address,
        state.connectivity_state == ConnectivityState::TransientFailure,
        policy.frontier_index < k < policy.subchannels.len(),
        policy.subchannels[policy.frontier_index].address == sc.address,
        policy.states[policy.subchannels[k].address].connectivity_state
            != ConnectivityState::TransientFailure,
        forall|i: int|
            policy.frontier_index < i < k ==> policy.states[(
            #[trigger] policy.subchannels[i]).address].connectivity_state
                == ConnectivityState::TransientFailure,
    ensures
        ({
            let outcome = policy.subchannel_update(sc, state);
            let serial = policy.timers_started.wrapping_add(1);
            &&& outcome.events == seq![LbEventView::Connect(policy.subchannels[k])]
            &&& outcome.policy == (PolicyView {
                states: policy.states.insert(sc.address, state).insert(
                    policy.subchannels[k].address,
                    SubchannelStateView {
                        connectivity_state: ConnectivityState::Connecting,
                        last_connection_error: None,
                    },
                ),
                last_connection_error: if state.last_connection_error is Some {
                    state.last_connection_error
                } else {
                    policy.last_connection_error
                },
                frontier_index: k,
                timer: Some(Timer { serial, expired: false }),
                timers_started: serial,
                ..policy
            })
        }),
{
    let f = policy.frontier_index;
    let noted = policy.noted(sc.address, state);
    lemma_noted_listed(policy, sc.address, state);
    assert(policy.subchannels[f].address == sc.address);
    assert(policy.current(sc.address));
    assert forall|i: int| 0 <= i < policy.subchannels.len() && i != f implies (
    #[trigger] policy.subchannels[i]).address != sc.address by {
        assert(policy.subchannels[i].address != policy.subchannels[f].address);
    }
    assert(policy.subchannels[k].address != sc.address);
    assert forall|i: int| f + 1 <= i < k implies noted.states[(
    #[trigger] noted.subchannels[i]).address].connectivity_state
        == ConnectivityState::TransientFailure by {
        assert(policy.subchannels[i].address != sc.address);
    }
    lemma_stops_at(noted, f + 1, k);
    let moved = noted.first_pass_moved(sc.address, state.connectivity_state);
    assert(moved.policy.frontier_index == k);
}

/// A report during the first pass that is not a failure at the frontier is only
/// noted, as long as the frontier is in the list.
pub proof fn law_other_reports_are_noted(
    policy: PolicyView,
    sc: SubchannelView,
    state: SubchannelStateView,
)
    requires
        exists|i: int|
            0 <= i < policy.subchannels.len() && (#[trigger] policy.subchannels[i]).address
                == sc.address,
        policy.steady_state is None,
        policy.selected is Some ==> policy.selected->0.address != sc.address,
        state.connectivity_state != ConnectivityState::Ready,
        0 <= policy.frontier_index < policy.subchannels.len(),
        state.connectivity_state != ConnectivityState::TransientFailure
            || policy.subchannels[policy.frontier_index].address != sc.address,
    ensures
        ({
            let outcome = policy.subchannel_update(sc, state);
            let told = state.connectivity_state == ConnectivityState::TransientFailure
                && state.last_connection_error is Some;
            &&& outcome.events.len() == 0
            &&& outcome.policy == (PolicyView {
                states: policy.states.insert(sc.address, state),
                last_connection_error: if told {
                    state.last_connection_error
                } else {
                    policy.last_connection_error
                },
                ..policy
            })
        }),
{
    lemma_listed_at(policy, sc.address);
}

/// When the list is at its end, but some subchannel is connecting, a report during
/// the first pass is only noted.
pub proof fn law_end_of_list_waits(
    policy: PolicyView,
    sc: SubchannelView,
    state: SubchannelStateView,
    i: int,
)
    requires
        policy.wf(),
        exists|j: int|
            0 <= j < policy.subchannels.len() && (#[trigger] policy.subchannels[j]).address
                == sc.address,
        policy.steady_state is None,
        policy.selected is Some ==> policy.selected->0.address != sc.address,
        state.connectivity_state != ConnectivityState::Ready,
        policy.frontier_index >= policy.subchannels.len(),
        0 <= i < policy.subchannels.len(),
        policy.states.insert(
            sc.address,
            state,
        )[policy.subchannels[i].address].connectivity_state == ConnectivityState::Connecting,
    ensures
        ({
            let outcome = policy.subchannel_update(sc, state);
            &&& outcome.events.len() == 0
            &&& outcome.policy.states == policy.states.insert(sc.address, state)
            &&& outcome.policy.frontier_index == policy.frontier_index
            &&& outcome.policy.timer == policy.timer
            &&& outcome.policy.subchannels == policy.subchannels
            &&& outcome.policy.connectivity_state == policy.connectivity_state
            &&& outcome.policy.steady_state is None
        }),
{
    lemma_listed_at(policy, sc.address);
    let noted = policy.noted(sc.address, state);
    assert(noted.connectivity(i) == ConnectivityState::Connecting);
}

/// When the frontier's subchannel fails and all behind it have failed, but one
/// before it is connecting, the frontier leaves the list, and the pass waits.
pub proof fn law_last_failure_waits(
    policy: PolicyView,
    sc: SubchannelView,
    state: SubchannelStateView,
    i: int,
)
    requires
        policy.wf(),
        policy.steady_state is None,
        policy.selected is Some ==> policy.selected->0.address != sc.address,
        state.connectivity_state == ConnectivityState::TransientFailure,
        policy.frontier_index < policy.subchannels.len(),
        policy.subchannels[policy.frontier_index].address == sc.address,
        forall|j: int|
            policy.frontier_index < j < policy.subchannels.len() ==> policy.states[(
            #[trigger] policy.subchannels[j]).address].connectivity_state
                == ConnectivityState::TransientFailure,
        0 <= i < policy.frontier_index,
        policy.states[policy.subchannels[i].address].connectivity_state
            == ConnectivityState::Connecting,
    ensures
        policy.subchannel_update(sc, state).events.len() == 0,
        policy.subchannel_update(sc, state).policy == (PolicyView {
            states: policy.states.insert(sc.address, state),
            last_connection_error: if state.last_connection_error is Some {
                state.last_connection_error
            } else {
                policy.last_connection_error
            },
            frontier_index: policy.subchannels.len() as int,
            ..policy
        }),
{
    let f = policy.frontier_index;
    let noted = policy.noted(sc.address, state);
    lemma_noted_listed(policy, sc.address, state);
    assert(policy.subchannels[f].address == sc.address);
    assert(policy.current(sc.address));
    assert forall|j: int| f + 1 <= j < noted.subchannels.len() implies noted.states[(
    #[trigger] noted.subchannels[j]).address].connectivity_state
        == ConnectivityState::TransientFailure by {
        assert(policy.subchannels[j].address != policy.subchannels[f].address);
    }
    lemma_runs_out(noted, f + 1);
    let moved = noted.first_pass_moved(sc.address, state.connectivity_state).policy;
    assert(policy.subchannels[i].address != policy.subchannels[f].address);
    assert(moved.connectivity(i) == ConnectivityState::Connecting);
}

/// The first pass ends with a report after which nothing is left to try and no
/// subchannel is connecting: the frontier is past the list, or its subchannel
/// failed and so have all behind it. Then requests fail with the last error, new
/// addresses are asked for, steady state begins, and exactly the idle subchannels
/// are connected, in order.
pub proof fn law_pass_ends(
    policy: PolicyView,
    sc: SubchannelView,
    state: SubchannelStateView,
    error: Seq<char>,
)
    requires
        policy.wf(),
        exists|i: int|
            0 <= i < policy.subchannels.len() && (#[trigger] policy.subchannels[i]).address
                == sc.address,
        policy.steady_state is None,
        policy.selected is Some ==> policy.selected->0.address != sc.address,
        state.connectivity_state != ConnectivityState::Ready,
        policy.frontier_index >= policy.subchannels.len() || (state.connectivity_state
            == ConnectivityState::TransientFailure
            && policy.subchannels[policy.frontier_index].address == sc.address && forall|i: int|
            policy.frontier_index < i < policy.subchannels.len() ==> policy.states[(
            #[trigger] policy.subchannels[i]).address].connectivity_state
                == ConnectivityState::TransientFailure),
        forall|i: int|
            0 <= i < policy.subchannels.len() ==> policy.states.insert(sc.address, state)[(
            #[trigger] policy.subchannels[i]).address].connectivity_state
                != ConnectivityState::Connecting,
        Some(error) == (if state.connectivity_state == ConnectivityState::TransientFailure
            && state.last_connection_error is Some {
            state.last_connection_error
        } else {
            policy.last_connection_error
        }),
    ensures
        ({
            let outcome = policy.subchannel_update(sc, state);
            let states = policy.states.insert(sc.address, state);
            &&& outcome.events == seq![
                LbEventView::UpdatePicker(
                    LbStateView {
                        connectivity_state: ConnectivityState::TransientFailure,
                        picker: PickerView::Failing { error },
                    },
                ),
                LbEventView::RequestResolution,
            ] + policy.subchannels.filter(
                |s: SubchannelView|
                    states[s.address].connectivity_state == ConnectivityState::Idle,
            ).map_values(|s: SubchannelView| LbEventView::Connect(s))
            &&& outcome.policy == (PolicyView {
                states,
                connectivity_state: ConnectivityState::TransientFailure,
                last_connection_error: Some(error),
                timer: None,
                steady_state: Some(
                    SteadyState {
                        failure_threshold: policy.subchannels.len() as usize,
                        failure_count: 0,
                    },
                ),
                frontier_index: if policy.frontier_index >= policy.subchannels.len() {
                    policy.frontier_index
                } else {
                    policy.subchannels.len() as int
                },
                ..policy
            })
        }),
{
    let f = policy.frontier_index;
    let len = policy.subchannels.len();
    let states = policy.states.insert(sc.address, state);
    let noted = policy.noted(sc.address, state);
    lemma_listed_at(policy, sc.address);
    lemma_noted_listed(policy, sc.address, state);
    if f < len {
        assert forall|i: int| f + 1 <= i < len implies noted.states[(
        #[trigger] noted.subchannels[i]).address].connectivity_state
            == ConnectivityState::TransientFailure by {
            assert(policy.subchannels[i].address != policy.subchannels[f].address);
        }
        lemma_runs_out(noted, f + 1);
    }
    let moved = noted.first_pass_moved(sc.address, state.connectivity_state);
    assert(moved.policy.states == states);
    assert(moved.policy.subchannels == policy.subchannels);
    assert(!moved.policy.any_connecting()) by {
        assert forall|i: int| 0 <= i < len implies #[trigger] moved.policy.connectivity(i)
            != ConnectivityState::Connecting by {
            assert(states[policy.subchannels[i].address].connectivity_state
                != ConnectivityState::Connecting);
        }
    }
    assert(moved.policy.exhausted());
    let idle = |s: SubchannelView|
        states[s.address].connectivity_state == ConnectivityState::Idle;
    let idle_now = |s: SubchannelView|
        moved.policy.states[s.address].connectivity_state == ConnectivityState::Idle;
    assert(idle =~= idle_now);
    assert(moved.policy.idle_subchannels() == policy.subchannels.filter(idle));
    let connects = policy.subchannels.filter(idle).map_values(
        |s: SubchannelView| LbEventView::Connect(s),
    );
    assert(policy.subchannel_update(sc, state).events =~= seq![
        LbEventView::UpdatePicker(
            LbStateView {
                connectivity_state: ConnectivityState::TransientFailure,
                picker: PickerView::Failing { error },
            },
        ),
        LbEventView::RequestResolution,
    ] + connects);
}

/// A pass starts with a connection on the first subchannel that has not failed,
/// in whatever state the policy is. It gets a timer of its own, nothing is
/// selected, and the channel is told that the policy is connecting, unless it
/// knows that.
pub proof fn law_pass_starts(policy: PolicyView, k: int)
    requires
        policy.listed(),
        0 <= k < policy.subchannels.len(),
        policy.states[policy.subchannels[k].address].connectivity_state
            != ConnectivityState::TransientFailure,
        forall|i: int|
            0 <= i < k ==> policy.states[(
            #[trigger] policy.subchannels[i]).address].connectivity_state
                == ConnectivityState::TransientFailure,
    ensures
        ({
            let outcome = policy.start_pass();
            let serial = policy.timers_started.wrapping_add(1);
            &&& outcome.events == (if policy.connectivity_state == ConnectivityState::Connecting {
                seq![LbEventView::Connect(policy.subchannels[k])]
            } else {
                seq![
                    LbEventView::Connect(policy.subchannels[k]),
                    LbEventView::UpdatePicker(
                        LbStateView {
                            connectivity_state: ConnectivityState::Connecting,
                            picker: PickerView::Queuing,
                        },
                    ),
                ]
            })
            &&& outcome.policy == (PolicyView {
                connectivity_state: ConnectivityState::Connecting,
                selected: None,
                frontier_index: k,
                states: policy.states.insert(
                    policy.subchannels[k].address,
                    SubchannelStateView {
                        connectivity_state: ConnectivityState::Connecting,
                        last_connection_error: None,
                    },
                ),
                timer: Some(Timer { serial, expired: false }),
                timers_started: serial,
                ..policy
            })
        }),
{
    let free = PolicyView { selected: None, ..policy };
    assert forall|i: int| 0 <= i < k implies free.states[(
    #[trigger] free.subchannels[i]).address].connectivity_state
        == ConnectivityState::TransientFailure by {
        assert(policy.states[policy.subchannels[i].address].connectivity_state
            == ConnectivityState::TransientFailure);
    }
    lemma_stops_at(free, 0, k);
    assert(free.advanced(true).frontier_index == k);
    let outcome = policy.start_pass();
    if policy.connectivity_state == ConnectivityState::Connecting {
        assert(outcome.events =~= seq![LbEventView::Connect(policy.subchannels[k])]);
    } else {
        assert(outcome.events =~= seq![
            LbEventView::Connect(policy.subchannels[k]),
            LbEventView::UpdatePicker(
                LbStateView {
                    connectivity_state: ConnectivityState::Connecting,
                    picker: PickerView::Queuing,
                },
            ),
        ]);
    }
}

/// A pass in which all subchannels have failed already is over at once: requests
/// fail with the last error, and new addresses are asked for.
pub proof fn law_pass_without_hope(policy: PolicyView, error: Seq<char>)
    requires
        policy.listed(),
        policy.last_connection_error == Some(error),
        forall|i: int|
            0 <= i < policy.subchannels.len() ==> policy.states[(
            #[trigger] policy.subchannels[i]).address].connectivity_state
                == ConnectivityState::TransientFailure,
    ensures
        policy.start_pass().policy == (PolicyView {
            connectivity_state: ConnectivityState::TransientFailure,
            selected: None,
            frontier_index: policy.subchannels.len() as int,
            ..policy
        }),
        policy.start_pass().events == seq![
            LbEventView::UpdatePicker(
                LbStateView {
                    connectivity_state: ConnectivityState::TransientFailure,
                    picker: PickerView::Failing { error },
                },
            ),
            LbEventView::RequestResolution,
        ],
{
    let free = PolicyView { selected: None, ..policy };
    assert forall|i: int| 0 <= i < free.subchannels.len() implies free.states[(
    #[trigger] free.subchannels[i]).address].connectivity_state
        == ConnectivityState::TransientFailure by {
        assert(policy.states[policy.subchannels[i].address].connectivity_state
            == ConnectivityState::TransientFailure);
    }
    lemma_runs_out(free, 0);
    assert(policy.start_pass().events =~= seq![
        LbEventView::UpdatePicker(
            LbStateView {
                connectivity_state: ConnectivityState::TransientFailure,
                picker: PickerView::Failing { error },
            },
        ),
        LbEventView::RequestResolution,
    ]);
}

/// Work of an idle policy is the start of a pass.
pub proof fn law_idle_work(policy: PolicyView)
    requires
        policy.connectivity_state == ConnectivityState::Idle,
    ensures
        policy.work() == policy.start_pass(),
{
}

/// When the timer has expired, and the policy is not idle, a connection is started
/// on the next subchannel behind the frontier that has not failed. Those that are
/// connecting go on, and nothing is published.
pub proof fn law_timer_work(policy: PolicyView, k: int)
    requires
        policy.listed(),
        policy.connectivity_state != ConnectivityState::Idle,
        policy.timer is Some,
        policy.timer->0.expired,
        policy.frontier_index < k < policy.subchannels.len(),
        policy.states[policy.subchannels[k].address].connectivity_state
            != ConnectivityState::TransientFailure,
        forall|i: int|
            policy.frontier_index < i < k ==> policy.states[(
            #[trigger] policy.subchannels[i]).address].connectivity_state
                == ConnectivityState::TransientFailure,
    ensures
        ({
            let serial = policy.timers_started.wrapping_add(1);
            &&& policy.work().events == seq![LbEventView::Connect(policy.subchannels[k])]
            &&& policy.work().policy == (PolicyView {
                frontier_index: k,
                states: policy.states.insert(
                    policy.subchannels[k].address,
                    SubchannelStateView {
                        connectivity_state: ConnectivityState::Connecting,
                        last_connection_error: None,
                    },
                ),
                timer: Some(Timer { serial, expired: false }),
                timers_started: serial,
                ..policy
            })
        }),
{
    lemma_stops_at(policy, policy.frontier_index + 1, k);
}

/// When the timer has expired and no subchannel behind the frontier is left to
/// try, the frontier leaves the list, and nothing is asked for.
pub proof fn law_timer_work_at_end(policy: PolicyView)
    requires
        policy.listed(),
        policy.connectivity_state != ConnectivityState::Idle,
        policy.timer is Some,
        policy.timer->0.expired,
        policy.frontier_index < policy.subchannels.len(),
        forall|i: int|
            policy.frontier_index < i < policy.subchannels.len() ==> policy.states[(
            #[trigger] policy.subchannels[i]).address].connectivity_state
                == ConnectivityState::TransientFailure,
    ensures
        policy.work().events.len() == 0,
        policy.work().policy == (PolicyView {
            frontier_index: policy.subchannels.len() as int,
            ..policy
        }),
{
    lemma_runs_out(policy, policy.frontier_index + 1);
}

/// Behind the list an expired timer leads to nothing.
pub proof fn law_timer_work_behind_list(policy: PolicyView)
    requires
        policy.listed(),
        policy.connectivity_state != ConnectivityState::Idle,
        policy.frontier_index >= policy.subchannels.len(),
    ensures
        policy.work().events.len() == 0,
        policy.work().policy == (PolicyView {
            frontier_index: policy.work().policy.frontier_index,
            ..policy
        }),
        policy.work().policy.frontier_index >= policy.subchannels.len(),
{
}

/// A policy that is not idle has nothing to do while no timer has expired.
pub proof fn law_nothing_to_do(policy: PolicyView)
    requires
        policy.connectivity_state != ConnectivityState::Idle,
        policy.timer is None || !policy.timer->0.expired,
    ensures
        policy.work().policy == policy,
        policy.work().events.len() == 0,
{
}

/// A timer expires under its own serial number and under no other. The timer of a
/// new connection has another number than the last one that was started, so a
/// timer that was replaced never makes the new one expire.
pub proof fn law_timers_are_told_apart(policy: PolicyView, sc: SubchannelView, serial: u64)
    ensures
        policy.timer is Some && policy.timer->0.serial == serial ==> policy.timer_fired(serial) == (
        PolicyView { timer: Some(Timer { serial, expired: true }), ..policy }),
        policy.timer is None || policy.timer->0.serial != serial ==> policy.timer_fired(serial)
            == policy,
        policy.timer is Some && policy.timer->0.serial == serial <==> policy.awaits(serial),
        policy.connect(sc).policy.timer is Some,
        !policy.connect(sc).policy.timer->0.expired,
        policy.connect(sc).policy.timer->0.serial != policy.timers_started,
        policy.connect(sc).policy.timer->0.serial == policy.connect(sc).policy.timers_started,
        policy.connect(sc).events == seq![LbEventView::Connect(sc)],
{
}

/// A state is published whenever it is not connecting again: also if it is the
/// one that was published last, since its picker may be new.
pub proof fn law_states_are_published(
    policy: PolicyView,
    state: ConnectivityState,
    picker: PickerView,
)
    ensures
        policy.publish(state, picker).policy == (PolicyView { connectivity_state: state, ..policy }),
        policy.connectivity_state == ConnectivityState::Connecting && state
            == ConnectivityState::Connecting ==> policy.publish(state, picker).events.len() == 0,
        policy.connectivity_state != ConnectivityState::Connecting || state
            != ConnectivityState::Connecting ==> policy.publish(state, picker).events == seq![
            LbEventView::UpdatePicker(LbStateView { connectivity_state: state, picker }),
        ],
{
}

/// Failing publishes the given error, or else the last one, keeps it, and asks for
/// new addresses. Nothing else changes.
pub proof fn law_failure_is_reported(
    policy: PolicyView,
    error: Option<Seq<char>>,
    message: Seq<char>,
)
    requires
        error == Some(message) || (error is None && policy.last_connection_error == Some(message)),
    ensures
        policy.fail(error).policy == (PolicyView {
            connectivity_state: ConnectivityState::TransientFailure,
            last_connection_error: Some(message),
            ..policy
        }),
        policy.fail(error).events == seq![
            LbEventView::UpdatePicker(
                LbStateView {
                    connectivity_state: ConnectivityState::TransientFailure,
                    picker: PickerView::Failing { error: message },
                },
            ),
            LbEventView::RequestResolution,
        ],
{
    assert(policy.fail(error).events =~= seq![
        LbEventView::UpdatePicker(
            LbStateView {
                connectivity_state: ConnectivityState::TransientFailure,
                picker: PickerView::Failing { error: message },
            },
        ),
        LbEventView::RequestResolution,
    ]);
}

/// The frontier moves to the first subchannel that has not failed, from the list's
/// start or from behind where it was, and nothing else changes.
pub proof fn law_frontier_moves(policy: PolicyView, reset: bool, k: int)
    requires
        policy.listed(),
        reset || policy.frontier_index < policy.subchannels.len(),
        reset || policy.frontier_index < k,
        0 <= k <= policy.subchannels.len(),
        k < policy.subchannels.len() ==> policy.states[
            policy.subchannels[k].address
        ].connectivity_state != ConnectivityState::TransientFailure,
        forall|i: int|
            (reset || policy.frontier_index < i) && 0 <= i < k ==> policy.states[(
            #[trigger] policy.subchannels[i]).address].connectivity_state
                == ConnectivityState::TransientFailure,
    ensures
        policy.advanced(reset) == (PolicyView { frontier_index: k, ..policy }),
{
    let from = if reset {
        0
    } else {
        next_index(policy.frontier_index)
    };
    if k < policy.subchannels.len() {
        lemma_stops_at(policy, from, k);
    } else {
        lemma_runs_out(policy, from);
    }
}

/// A pass has something to report exactly if some subchannel has not failed or
/// there is an error from before.
pub proof fn law_pass_can_report(policy: PolicyView)
    ensures
        policy.pass_reportable() <==> policy.last_connection_error is Some || exists|i: int|
            0 <= i < policy.subchannels.len() && policy.states[(
            #[trigger] policy.subchannels[i]).address].connectivity_state
                != ConnectivityState::TransientFailure,
        policy.work_reportable() <==> policy.connectivity_state != ConnectivityState::Idle
            || policy.pass_reportable(),
{
    if exists|i: int|
        0 <= i < policy.subchannels.len() && policy.states[(
        #[trigger] policy.subchannels[i]).address].connectivity_state
            != ConnectivityState::TransientFailure {
        let i = choose|i: int|
            0 <= i < policy.subchannels.len() && policy.states[(
            #[trigger] policy.subchannels[i]).address].connectivity_state
                != ConnectivityState::TransientFailure;
        assert(policy.viable(i));
    }
    if exists|i: int| 0 <= i < policy.subchannels.len() && #[trigger] policy.viable(i) {
        let i = choose|i: int| 0 <= i < policy.subchannels.len() && #[trigger] policy.viable(i);
        assert(policy.states[policy.subchannels[i].address].connectivity_state
            != ConnectivityState::TransientFailure);
    }
}

/// The policy can handle every report of a subchannel that is not listed, that is
/// selected, that is ready, that comes in steady state, or that comes when there
/// is an error to report; and every one after which a subchannel is connecting.
pub proof fn law_reports_can_be_handled(
    policy: PolicyView,
    sc: SubchannelView,
    state: SubchannelStateView,
)
    requires
        policy.wf(),
        ({
            ||| forall|i: int|
                0 <= i < policy.subchannels.len() ==> (#[trigger] policy.subchannels[i]).address
                    != sc.address
            ||| policy.selected is Some && policy.selected->0.address == sc.address
            ||| state.connectivity_state == ConnectivityState::Ready
            ||| policy.steady_state is Some
            ||| policy.last_connection_error is Some
            ||| state.connectivity_state == ConnectivityState::TransientFailure
                && state.last_connection_error is Some
            ||| exists|i: int|
                0 <= i < policy.subchannels.len() && policy.states.insert(sc.address, state)[(
                #[trigger] policy.subchannels[i]).address].connectivity_state
                    == ConnectivityState::Connecting
        }),
    ensures
        policy.update_reportable(sc, state),
{
    lemma_listed_at(policy, sc.address);
    let noted = policy.noted(sc.address, state);
    let moved = noted.first_pass_moved(sc.address, state.connectivity_state).policy;
    lemma_noted_listed(policy, sc.address, state);
    if exists|i: int|
        0 <= i < policy.subchannels.len() && policy.states.insert(sc.address, state)[(
        #[trigger] policy.subchannels[i]).address].connectivity_state
            == ConnectivityState::Connecting {
        let i = choose|i: int|
            0 <= i < policy.subchannels.len() && policy.states.insert(sc.address, state)[(
            #[trigger] policy.subchannels[i]).address].connectivity_state
                == ConnectivityState::Connecting;
        assert(noted.connectivity(i) == ConnectivityState::Connecting);
        assert(moved.connectivity(i) == ConnectivityState::Connecting);
    }
}

} // verus!
