//! What holds of the `pick_first` policy whatever its inputs are.

use crate::address_list::lemma_push_contains;
use crate::lb_types::{
    ConnectivityState, LbEventView, LbStateView, PickerView, SubchannelStateView, SubchannelView,
};
use crate::name_resolution::AddressView;
use crate::pick_first_lemmas::{
    law_frontier_skips_failed, lemma_adopted_listed, lemma_entries, lemma_entries_distinct,
    lemma_entry_state, lemma_missing_step, lemma_noted_listed, lemma_refreshed_keeps_invariant,
    lemma_same_list, missing_before,
};
use crate::pick_first_spec::{
    entry_states, entry_subchannels, EntryView, MadeView, Outcome, PolicyView, SteadyState,
    EMPTY_ADDRESS_LIST,
};
use crate::state_cache::state_map;
use vstd::prelude::*;

verus! {

/// The state that was published last, if any was.
pub open spec fn published(events: Seq<LbEventView>) -> Option<LbStateView>
    decreases events.len(),
{
    if events.len() == 0 {
        None
    } else {
        match events.last() {
            LbEventView::UpdatePicker(state) => Some(state),
            _ => published(events.drop_last()),
        }
    }
}

/// The picker that goes with the policy's state.
pub open spec fn fitting_picker(policy: PolicyView) -> PickerView {
    match policy.connectivity_state {
        ConnectivityState::Idle => PickerView::Idle { triggered_work: false },
        ConnectivityState::Connecting => PickerView::Queuing,
        ConnectivityState::Ready => PickerView::OneSubchannel { sc: policy.selected->0 },
        ConnectivityState::TransientFailure => PickerView::Failing {
            error: policy.last_connection_error->0,
        },
    }
}

/// The channel knows the policy's state: it is the one that was published last,
/// with the picker that goes with it, or it has not changed.
pub open spec fn told_truly(before: PolicyView, outcome: Outcome) -> bool {
    match published(outcome.events) {
        Some(state) => {
            &&& state.connectivity_state == outcome.policy.connectivity_state
            &&& state.picker == fitting_picker(outcome.policy)
        },
        None => outcome.policy.connectivity_state == before.connectivity_state,
    }
}

/// The channel knows the policy's connectivity from all that it was told so far.
/// Before it is told anything the policy is idle.
pub open spec fn informed(log: Seq<LbEventView>, policy: PolicyView) -> bool {
    match published(log) {
        Some(state) => state.connectivity_state == policy.connectivity_state,
        None => policy.connectivity_state == ConnectivityState::Idle,
    }
}

/// A channel that knows the policy's connectivity goes on to know it as long as
/// each input tells the channel truly.
pub proof fn law_channel_stays_informed(
    log: Seq<LbEventView>,
    policy: PolicyView,
    outcome: Outcome,
)
    requires
        informed(log, policy),
        told_truly(policy, outcome),
    ensures
        informed(log + outcome.events, outcome.policy),
{
    lemma_published_join(log, outcome.events);
}

proof fn lemma_publish_told(before: PolicyView, middle: PolicyView, state: ConnectivityState)
    requires
        middle.connectivity_state == before.connectivity_state,
    ensures
        ({
            let after = PolicyView { connectivity_state: state, ..middle };
            told_truly(before, middle.publish(state, fitting_picker(after)))
        }),
{
    let after = PolicyView { connectivity_state: state, ..middle };
    let outcome = middle.publish(state, fitting_picker(after));
    if outcome.events.len() > 0 {
        assert(published(outcome.events.drop_last()) is None);
    }
}

/// What is asked for besides does not change what was published.
proof fn lemma_published_and(events: Seq<LbEventView>, event: LbEventView)
    requires
        !(event is UpdatePicker),
    ensures
        published(events.push(event)) == published(events),
{
    assert(events.push(event).drop_last() =~= events);
}

/// Of two runs of requests the later one counts, if anything is published there.
proof fn lemma_published_join(front: Seq<LbEventView>, back: Seq<LbEventView>)
    ensures
        published(front + back) == (match published(back) {
            Some(state) => Some(state),
            None => published(front),
        }),
    decreases back.len(),
{
    if back.len() == 0 {
        assert(front + back =~= front);
    } else {
        assert((front + back).drop_last() =~= front + back.drop_last());
        assert((front + back).last() == back.last());
        lemma_published_join(front, back.drop_last());
    }
}

proof fn lemma_nothing_published(events: Seq<LbEventView>)
    requires
        forall|i: int| 0 <= i < events.len() ==> !(#[trigger] events[i] is UpdatePicker),
    ensures
        published(events) is None,
    decreases events.len(),
{
    if events.len() > 0 {
        let less = events.drop_last();
        assert forall|i: int| 0 <= i < less.len() implies !(#[trigger] less[i] is UpdatePicker) by {
            assert(less[i] == events[i]);
        }
        assert(!(events[events.len() - 1] is UpdatePicker));
        lemma_nothing_published(less);
    }
}

proof fn lemma_fail_told(before: PolicyView, middle: PolicyView, error: Option<Seq<char>>)
    requires
        error is Some || middle.last_connection_error is Some,
    ensures
        told_truly(before, middle.fail(error)),
        published(middle.fail(error).events) is Some,
{
    let message = match error {
        Some(e) => e,
        None => middle.last_connection_error->0,
    };
    let with_error = PolicyView { last_connection_error: Some(message), ..middle };
    let told = with_error.publish(
        ConnectivityState::TransientFailure,
        PickerView::Failing { error: message },
    );
    lemma_published_and(told.events, LbEventView::RequestResolution);
}

proof fn lemma_pass_told(before: PolicyView, middle: PolicyView)
    requires
        middle.listed(),
        middle.pass_reportable(),
        middle.connectivity_state == before.connectivity_state,
    ensures
        told_truly(before, middle.start_pass()),
{
    let free = PolicyView { selected: None, ..middle };
    lemma_free_pass(middle);
    let ready = free.advanced(true);
    if ready.frontier_in_list() {
        let connecting = ready.connect(ready.subchannels[ready.frontier_index]);
        lemma_publish_told(before, connecting.policy, ConnectivityState::Connecting);
        assert(published(connecting.events.drop_last()) is None);
        lemma_published_join(
            connecting.events,
            connecting.policy.publish(ConnectivityState::Connecting, PickerView::Queuing).events,
        );
    } else {
        lemma_fail_told(before, ready, None);
    }
}

/// A pass that finds no subchannel to connect has an error to report.
proof fn lemma_free_pass(policy: PolicyView)
    requires
        policy.listed(),
        policy.pass_reportable(),
    ensures
        ({
            let ready = PolicyView { selected: None, ..policy }.advanced(true);
            ready.frontier_in_list() || ready.last_connection_error is Some
        }),
{
    let free = PolicyView { selected: None, ..policy };
    lemma_same_list(policy, free);
    law_frontier_skips_failed(free, true);
    if policy.last_connection_error is None {
        let i = choose|i: int| 0 <= i < policy.subchannels.len() && #[trigger] policy.viable(i);
        assert(free.viable(i));
    }
}

/// After any report of a subchannel the channel knows the policy's state.
pub proof fn law_update_told_truly(
    policy: PolicyView,
    sc: SubchannelView,
    state: SubchannelStateView,
)
    requires
        policy.wf(),
        policy.update_reportable(sc, state),
    ensures
        told_truly(policy, policy.subchannel_update(sc, state)),
{
    let noted = policy.noted(sc.address, state);
    let outcome = policy.subchannel_update(sc, state);
    let connectivity = state.connectivity_state;
    if !policy.current(sc.address) {
    } else if policy.is_selected(sc.address) {
        lemma_publish_told(
            policy,
            PolicyView { selected: None, ..noted },
            ConnectivityState::Idle,
        );
    } else if connectivity == ConnectivityState::Ready {
        assert(published(outcome.events.drop_last()) is None);
    } else if noted.steady_state is Some {
        if outcome.events.len() > 0 {
            assert(published(outcome.events.drop_last()) is None);
        }
    } else {
        let moved = noted.first_pass_moved(sc.address, connectivity);
        if moved.events.len() > 0 {
            assert(published(moved.events.drop_last()) is None);
        }
        if moved.policy.exhausted() {
            let quiet = PolicyView { timer: None, ..moved.policy };
            let failed = quiet.fail(None);
            lemma_fail_told(policy, quiet, None);
            let connects = moved.policy.idle_subchannels().map_values(
                |idle: SubchannelView| LbEventView::Connect(idle),
            );
            lemma_nothing_published(connects);
            lemma_published_join(failed.events, connects);
            lemma_published_join(moved.events, failed.events + connects);
        }
    }
}

/// After work the channel knows the policy's state.
pub proof fn law_work_told_truly(policy: PolicyView)
    requires
        policy.wf(),
        policy.work_reportable(),
    ensures
        told_truly(policy, policy.work()),
{
    if policy.connectivity_state == ConnectivityState::Idle {
        lemma_pass_told(policy, policy);
    } else {
        let events = policy.push_frontier().events;
        if events.len() > 0 {
            assert(published(events.drop_last()) is None);
        }
    }
}

/// After a report with addresses the channel knows the policy's state, before and
/// after the missing subchannels were made.
pub proof fn law_report_told_truly(
    policy: PolicyView,
    addresses: Seq<AddressView>,
    made: Seq<MadeView>,
)
    requires
        policy.wf(),
        policy.refreshed().can_switch(policy.refreshed().entries(addresses, made)),
    ensures
        told_truly(policy, policy.announced(addresses)),
        told_truly(policy, policy.resolved(addresses, made)),
{
    let fresh = policy.refreshed();
    let entries = fresh.entries(addresses, made);
    let adopted = fresh.adopted(entries);
    lemma_refreshed_keeps_invariant(policy);
    lemma_adopted_listed(fresh, entries);
    lemma_nothing_published(policy.requests(addresses));
    let switched = fresh.switched(entries);
    match fresh.ready_entry(entries) {
        Some(sc) => {
            if switched.events.len() > 0 {
                assert(published(switched.events.drop_last()) is None);
            }
        },
        None => {
            lemma_pass_told(policy, adopted);
        },
    }
    lemma_published_join(policy.requests(addresses), switched.events);
}

/// A report asks for a subchannel exactly once for each address that the policy
/// has none for, and for no other.
pub proof fn law_missing_asked_once(policy: PolicyView, addresses: Seq<AddressView>, a: AddressView)
    requires
        addresses.no_duplicates(),
    ensures
        policy.missing(addresses).no_duplicates(),
        policy.missing(addresses).contains(a) <==> addresses.contains(a) && !policy.current(a),
        policy.announced(addresses).events.len() == policy.missing(addresses).len(),
        forall|i: int|
            0 <= i < policy.missing(addresses).len() ==> #[trigger] policy.announced(
                addresses,
            ).events[i] == LbEventView::NewSubchannel(policy.missing(addresses)[i]),
    decreases addresses.len(),
{
    reveal(Seq::filter);
    if addresses.len() > 0 {
        let front = addresses.drop_last();
        let last = addresses.last();
        assert(addresses =~= front.push(last));
        law_missing_asked_once(policy, front, a);
        law_missing_asked_once(policy, front, last);
        lemma_push_contains(front, last, a);
        lemma_push_contains(policy.missing(front), last, a);
        assert(!front.contains(last)) by {
            if front.contains(last) {
                let i = front.index_of(last);
                assert(addresses[i] == addresses[addresses.len() - 1]);
            }
        }
    }
}

/// The new list has one subchannel for each address, in order, and a state for
/// each address and no other. Subchannels that the policy has are kept with their
/// states.
pub proof fn law_list_is_rebuilt(
    policy: PolicyView,
    addresses: Seq<AddressView>,
    made: Seq<MadeView>,
    k: int,
)
    requires
        policy.listed(),
        policy.answers(addresses, made),
        0 <= k < addresses.len(),
    ensures
        ({
            let list = policy.adopted(policy.entries(addresses, made));
            &&& list.subchannels.len() == addresses.len()
            &&& list.subchannels[k].address == addresses[k]
            &&& list.states.dom() == addresses.to_set()
            &&& policy.current(addresses[k]) ==> policy.subchannels.contains(list.subchannels[k])
                && list.states[addresses[k]] == policy.states[addresses[k]]
        }),
{
    let entries = policy.entries(addresses, made);
    let list = policy.adopted(entries);
    lemma_entries_distinct(policy, addresses, made);
    lemma_entries(policy, addresses, made, k);
    lemma_entry_state(entries, k);
    if policy.current(addresses[k]) {
        let i = choose|i: int|
            0 <= i < policy.subchannels.len() && #[trigger] policy.subchannels[i].address
                == addresses[k];
        assert(policy.held(addresses[k]) == policy.subchannels[i]);
    }
    assert forall|a: AddressView| list.states.dom().contains(a) == addresses.to_set().contains(
        a,
    ) by {
        if addresses.contains(a) {
            let i = addresses.index_of(a);
            lemma_entries(policy, addresses, made, i);
            lemma_entry_state(entries, i);
        } else {
            assert forall|i: int| 0 <= i < entries.len() implies (
            #[trigger] entries[i]).subchannel.address != a by {
                lemma_entries(policy, addresses, made, i);
            }
            lemma_no_entry(entries, a);
        }
    }
    assert(list.states.dom() =~= addresses.to_set());
}

/// What no entry has the address of has no state.
pub proof fn lemma_no_entry(entries: Seq<EntryView>, a: AddressView)
    requires
        forall|i: int| 0 <= i < entries.len() ==> (#[trigger] entries[i]).subchannel.address != a,
    ensures
        !state_map(entry_states(entries)).dom().contains(a),
    decreases entries.len(),
{
    if entries.len() > 0 {
        let front = entries.drop_last();
        assert(entry_states(entries).drop_last() =~= entry_states(front));
        assert(entry_states(entries).last().0 == entries[entries.len() - 1].subchannel.address);
        assert forall|i: int| 0 <= i < front.len() implies (
        #[trigger] front[i]).subchannel.address != a by {
            assert(front[i] == entries[i]);
        }
        lemma_no_entry(front, a);
    }
}

/// The subchannels that were made stand in the new list in the order in which
/// they were asked for, each with the state that it was made with.
pub proof fn law_made_are_listed(
    policy: PolicyView,
    addresses: Seq<AddressView>,
    made: Seq<MadeView>,
    j: int,
) -> (k: int)
    requires
        policy.answers(addresses, made),
        0 <= j < made.len(),
    ensures
        0 <= k < addresses.len(),
        addresses[k] == policy.missing(addresses)[j],
        ({
            let list = policy.adopted(policy.entries(addresses, made));
            &&& list.subchannels[k] == (SubchannelView { id: made[j].id, address: addresses[k] })
            &&& list.states[addresses[k]] == made[j].state
        }),
{
    assert(addresses.take(addresses.len() as int) =~= addresses);
    let k = lemma_missing_place(policy, addresses, addresses.len() as int, j);
    lemma_entries_distinct(policy, addresses, made);
    lemma_entries(policy, addresses, made, k);
    lemma_entry_state(policy.entries(addresses, made), k);
    k
}

proof fn lemma_missing_place(
    policy: PolicyView,
    addresses: Seq<AddressView>,
    end: int,
    j: int,
) -> (k: int)
    requires
        0 <= end <= addresses.len(),
        0 <= j < policy.missing(addresses.take(end)).len(),
    ensures
        0 <= k < end,
        !policy.current(addresses[k]),
        missing_before(policy, addresses, k) == j,
        addresses[k] == policy.missing(addresses.take(end))[j],
        end == addresses.len() ==> addresses[k] == policy.missing(addresses)[j],
    decreases end,
{
    reveal(Seq::filter);
    if end == addresses.len() {
        assert(addresses.take(end) =~= addresses);
    }
    if end == 0 {
        assert(addresses.take(end) =~= Seq::<AddressView>::empty());
        0
    } else {
        lemma_missing_step(policy, addresses, end - 1);
        if !policy.current(addresses[end - 1]) && j == missing_before(policy, addresses, end - 1) {
            end - 1
        } else {
            lemma_missing_place(policy, addresses, end - 1, j)
        }
    }
}

/// After a failure of the resolver the channel knows the policy's state.
pub proof fn law_resolver_failure_told_truly(policy: PolicyView, error: Seq<char>)
    requires
        policy.wf(),
    ensures
        told_truly(policy, policy.resolver_failed(error)),
{
    if policy.fails_with_resolver() {
        lemma_fail_told(policy, policy.refreshed(), Some(error));
    }
}

/// A report without addresses leaves nothing selected and nothing to connect to.
/// Requests fail, and new addresses are asked for.
pub proof fn law_empty_report_clears(policy: PolicyView)
    ensures
        ({
            let outcome = policy.resolved_nothing();
            &&& outcome.policy.subchannels.len() == 0
            &&& outcome.policy.selected is None
            &&& outcome.policy.timer is None
            &&& outcome.policy.steady_state is None
            &&& outcome.policy.connectivity_state == ConnectivityState::TransientFailure
            &&& outcome.events == seq![
                LbEventView::UpdatePicker(
                    LbStateView {
                        connectivity_state: ConnectivityState::TransientFailure,
                        picker: PickerView::Failing { error: EMPTY_ADDRESS_LIST@ },
                    },
                ),
                LbEventView::RequestResolution,
            ]
        }),
        told_truly(policy, policy.resolved_nothing()),
{
    let outcome = policy.resolved_nothing();
    lemma_fail_told(
        policy,
        PolicyView { subchannels: Seq::empty(), selected: None, ..policy.refreshed() },
        Some(EMPTY_ADDRESS_LIST@),
    );
    assert(outcome.events =~= seq![
        LbEventView::UpdatePicker(
            LbStateView {
                connectivity_state: ConnectivityState::TransientFailure,
                picker: PickerView::Failing { error: EMPTY_ADDRESS_LIST@ },
            },
        ),
        LbEventView::RequestResolution,
    ]);
}

/// A failure of the resolver does not disturb a policy that has addresses and
/// has not failed: it asks for nothing and keeps what it has.
pub proof fn law_resolver_failure_disturbs_nothing(policy: PolicyView, error: Seq<char>)
    requires
        policy.subchannels.len() > 0,
        policy.connectivity_state != ConnectivityState::TransientFailure,
    ensures
        ({
            let outcome = policy.resolver_failed(error);
            &&& outcome.events.len() == 0
            &&& outcome.policy.subchannels == policy.subchannels
            &&& outcome.policy.states == policy.states
            &&& outcome.policy.selected == policy.selected
            &&& outcome.policy.frontier_index == policy.frontier_index
            &&& outcome.policy.connectivity_state == policy.connectivity_state
            &&& outcome.policy.last_connection_error == policy.last_connection_error
        }),
{
}

/// The selected subchannel stays selected if it is ready and still listed. The
/// channel notices nothing but new subchannels.
pub proof fn law_selected_stays(
    policy: PolicyView,
    addresses: Seq<AddressView>,
    made: Seq<MadeView>,
)
    requires
        policy.wf(),
        policy.selected is Some,
        policy.states[policy.selected->0.address].connectivity_state == ConnectivityState::Ready,
        addresses.contains(policy.selected->0.address),
        policy.refreshed().answers(addresses, made),
    ensures
        ({
            let outcome = policy.resolved(addresses, made);
            &&& outcome.policy.selected == policy.selected
            &&& outcome.policy.connectivity_state == policy.connectivity_state
            &&& outcome.policy.subchannels == entry_subchannels(
                policy.refreshed().entries(addresses, made),
            )
            &&& outcome.events == policy.requests(addresses)
        }),
{
    let address = policy.selected->0.address;
    let fresh = policy.refreshed();
    let entries = fresh.entries(addresses, made);
    let k = addresses.index_of(address);
    lemma_refreshed_keeps_invariant(policy);
    lemma_entries_distinct(fresh, addresses, made);
    lemma_entries(fresh, addresses, made, k);
    assert(fresh.current(address));
    assert(fresh.sticky(entries[k]));
    let i = choose|i: int| 0 <= i < entries.len() && #[trigger] fresh.sticky(entries[i]);
    assert(entries[i].subchannel.address == address);
    assert(policy.resolved(addresses, made).events =~= policy.requests(addresses));
}

/// A subchannel that becomes ready is used at once, and all others are let go.
pub proof fn law_ready_is_used(policy: PolicyView, sc: SubchannelView, state: SubchannelStateView)
    requires
        policy.current(sc.address),
        !policy.is_selected(sc.address),
        state.connectivity_state == ConnectivityState::Ready,
    ensures
        ({
            let outcome = policy.subchannel_update(sc, state);
            &&& outcome.policy.selected == Some(sc)
            &&& outcome.policy.subchannels == seq![sc]
            &&& outcome.policy.connectivity_state == ConnectivityState::Ready
            &&& outcome.policy.timer is None
            &&& outcome.policy.steady_state is None
            &&& outcome.events == seq![
                LbEventView::UpdatePicker(
                    LbStateView {
                        connectivity_state: ConnectivityState::Ready,
                        picker: PickerView::OneSubchannel { sc },
                    },
                ),
            ]
        }),
{
}

/// Reports of subchannels that are not listed are ignored.
pub proof fn law_outdated_is_ignored(
    policy: PolicyView,
    sc: SubchannelView,
    state: SubchannelStateView,
)
    requires
        !policy.current(sc.address),
    ensures
        policy.subchannel_update(sc, state) == (Outcome { policy, events: Seq::empty() }),
{
}

/// When the selected subchannel is lost, the channel becomes idle, and nothing is
/// connected until there is work.
pub proof fn law_loss_makes_idle(policy: PolicyView, sc: SubchannelView, state: SubchannelStateView)
    requires
        policy.current(sc.address),
        policy.is_selected(sc.address),
        state.connectivity_state != ConnectivityState::Ready,
    ensures
        ({
            let outcome = policy.subchannel_update(sc, state);
            &&& outcome.policy.selected is None
            &&& outcome.policy.subchannels == policy.subchannels
            &&& outcome.policy.connectivity_state == ConnectivityState::Idle
            &&& outcome.events == seq![
                LbEventView::UpdatePicker(
                    LbStateView {
                        connectivity_state: ConnectivityState::Idle,
                        picker: PickerView::Idle { triggered_work: false },
                    },
                ),
            ]
        }),
{
}

/// Work of an idle policy connects the first subchannel that has not failed, if
/// there is one.
pub proof fn law_idle_work_connects(policy: PolicyView, first: int)
    requires
        policy.wf(),
        policy.connectivity_state == ConnectivityState::Idle,
        0 <= first < policy.subchannels.len(),
        policy.viable(first),
        forall|i: int| 0 <= i < first ==> !#[trigger] policy.viable(i),
    ensures
        ({
            let outcome = policy.work();
            &&& outcome.policy.connectivity_state == ConnectivityState::Connecting
            &&& outcome.policy.frontier_index == first
            &&& outcome.policy.connectivity(first) == ConnectivityState::Connecting
            &&& outcome.events == seq![
                LbEventView::Connect(policy.subchannels[first]),
                LbEventView::UpdatePicker(
                    LbStateView {
                        connectivity_state: ConnectivityState::Connecting,
                        picker: PickerView::Queuing,
                    },
                ),
            ]
        }),
{
    let free = PolicyView { selected: None, ..policy };
    lemma_same_list(policy, free);
    law_frontier_skips_failed(free, true);
    let moved = free.advanced(true);
    assert forall|i: int| policy.viable(i) == #[trigger] free.viable(i) by {}
    assert(free.viable(first));
    if moved.frontier_index < first {
        assert(moved.viable(moved.frontier_index));
        assert(policy.viable(moved.frontier_index));
    }
    assert(moved.frontier_index == first);
    assert(policy.work().events =~= seq![
        LbEventView::Connect(policy.subchannels[first]),
        LbEventView::UpdatePicker(
            LbStateView {
                connectivity_state: ConnectivityState::Connecting,
                picker: PickerView::Queuing,
            },
        ),
    ]);
}

/// When the timer of a connection has expired, the next subchannel that has not
/// failed is tried as well, with a timer of its own. Nothing else changes.
pub proof fn law_expired_timer_tries_next(policy: PolicyView, next: int)
    requires
        policy.wf(),
        policy.connectivity_state != ConnectivityState::Idle,
        policy.timer matches Some(timer) && timer.expired,
        policy.frontier_index < next < policy.subchannels.len(),
        policy.viable(next),
        forall|i: int| policy.frontier_index < i < next ==> !#[trigger] policy.viable(i),
    ensures
        ({
            let outcome = policy.work();
            &&& outcome.events == seq![LbEventView::Connect(policy.subchannels[next])]
            &&& outcome.policy.frontier_index == next
            &&& outcome.policy.connectivity(next) == ConnectivityState::Connecting
            &&& outcome.policy.connectivity_state == policy.connectivity_state
            &&& outcome.policy.selected == policy.selected
            &&& outcome.policy.subchannels == policy.subchannels
            &&& outcome.policy.timer matches Some(timer) && !timer.expired
        }),
{
    law_frontier_skips_failed(policy, false);
    let moved = policy.advanced(false);
    if moved.frontier_index < next {
        assert(moved.viable(moved.frontier_index));
        assert(policy.viable(moved.frontier_index));
    }
    assert(moved.frontier_index == next);
}

/// A policy that is not idle has no work before its timer expires.
pub proof fn law_no_work_before_expiry(policy: PolicyView)
    requires
        policy.connectivity_state != ConnectivityState::Idle,
        policy.timer matches Some(timer) ==> !timer.expired,
    ensures
        policy.work() == (Outcome { policy, events: Seq::empty() }),
{
}

/// A timer that another one has replaced, or that was stopped, has no effect.
pub proof fn law_stopped_timer_is_ignored(policy: PolicyView, serial: u64)
    requires
        !policy.awaits(serial),
    ensures
        policy.timer_fired(serial) == policy,
{
}

/// The error that a subchannel tells when it fails is kept, unless that
/// subchannel is the selected one.
pub proof fn law_freshest_error_is_kept(
    policy: PolicyView,
    sc: SubchannelView,
    state: SubchannelStateView,
)
    requires
        policy.wf(),
        policy.current(sc.address),
        !policy.is_selected(sc.address),
        state.connectivity_state == ConnectivityState::TransientFailure,
        state.last_connection_error is Some,
    ensures
        policy.subchannel_update(sc, state).policy.last_connection_error
            == state.last_connection_error,
{
}

/// While a subchannel is connecting, or the list is not at its end, reports of
/// failures during the first pass do not make requests fail: nothing is
/// published.
pub proof fn law_pass_waits_for_all(
    policy: PolicyView,
    sc: SubchannelView,
    state: SubchannelStateView,
)
    requires
        policy.wf(),
        policy.steady_state is None,
        policy.current(sc.address),
        !policy.is_selected(sc.address),
        state.connectivity_state != ConnectivityState::Ready,
        !policy.noted(sc.address, state).first_pass_moved(
            sc.address,
            state.connectivity_state,
        ).policy.exhausted(),
    ensures
        ({
            let outcome = policy.subchannel_update(sc, state);
            &&& outcome.policy.connectivity_state == policy.connectivity_state
            &&& outcome.policy.steady_state is None
            &&& forall|i: int|
                0 <= i < outcome.events.len() ==> #[trigger] outcome.events[i] is Connect
        }),
{
}

/// Once all subchannels have failed in the first pass, requests fail with the
/// last error, new addresses are asked for, and subchannels that went idle
/// meanwhile are connected.
pub proof fn law_exhausted_pass_fails(
    policy: PolicyView,
    sc: SubchannelView,
    state: SubchannelStateView,
)
    requires
        policy.wf(),
        policy.update_reportable(sc, state),
        policy.steady_state is None,
        policy.current(sc.address),
        !policy.is_selected(sc.address),
        state.connectivity_state != ConnectivityState::Ready,
        policy.noted(sc.address, state).first_pass_moved(
            sc.address,
            state.connectivity_state,
        ).policy.exhausted(),
    ensures
        ({
            let noted = policy.noted(sc.address, state);
            let outcome = policy.subchannel_update(sc, state);
            &&& outcome.policy.connectivity_state == ConnectivityState::TransientFailure
            &&& outcome.policy.timer is None
            &&& outcome.policy.steady_state == Some(
                SteadyState {
                    failure_threshold: policy.subchannels.len() as usize,
                    failure_count: 0,
                },
            )
            &&& outcome.events == seq![
                LbEventView::UpdatePicker(
                    LbStateView {
                        connectivity_state: ConnectivityState::TransientFailure,
                        picker: PickerView::Failing { error: noted.last_connection_error->0 },
                    },
                ),
                LbEventView::RequestResolution,
            ] + noted.idle_subchannels().map_values(
                |idle: SubchannelView| LbEventView::Connect(idle),
            )
        }),
{
    let noted = policy.noted(sc.address, state);
    let moved = noted.first_pass_moved(sc.address, state.connectivity_state);
    lemma_noted_listed(policy, sc.address, state);
    if noted.frontier_failed(sc.address, state.connectivity_state) {
        let next = noted.advanced(false);
        if next.frontier_in_list() {
            assert(moved.policy.frontier_in_list());
        }
    }
    assert(moved.events.len() == 0);
    assert(moved.policy.idle_subchannels() =~= noted.idle_subchannels());
    assert(policy.subchannel_update(sc, state).events =~= seq![
        LbEventView::UpdatePicker(
            LbStateView {
                connectivity_state: ConnectivityState::TransientFailure,
                picker: PickerView::Failing { error: noted.last_connection_error->0 },
            },
        ),
        LbEventView::RequestResolution,
    ] + noted.idle_subchannels().map_values(|idle: SubchannelView| LbEventView::Connect(idle)));
}

/// Reports make the policy connect only subchannels of its list.
pub proof fn law_connects_listed_only(
    policy: PolicyView,
    sc: SubchannelView,
    state: SubchannelStateView,
    i: int,
)
    requires
        policy.wf(),
        policy.update_reportable(sc, state),
        0 <= i < policy.subchannel_update(sc, state).events.len(),
    ensures
        policy.subchannel_update(sc, state).events[i] matches LbEventView::Connect(target)
            ==> policy.current(target.address),
{
    let outcome = policy.subchannel_update(sc, state);
    let noted = policy.noted(sc.address, state);
    if outcome.events[i] is Connect && noted.steady_state is None {
        let target = outcome.events[i]->Connect_0;
        let moved = noted.first_pass_moved(sc.address, state.connectivity_state);
        if i < moved.events.len() {
            let next = noted.advanced(false);
            lemma_frontier_after_report(policy, sc, state);
            assert(policy.subchannels[next.frontier_index].address == target.address);
        } else {
            law_exhausted_pass_fails(policy, sc, state);
            let idle = noted.idle_subchannels();
            let pred = |s: SubchannelView|
                noted.states[s.address].connectivity_state == ConnectivityState::Idle;
            assert(idle == noted.subchannels.filter(pred));
            assert(idle[i - 2] == target);
            assert(idle.contains(target));
            noted.subchannels.lemma_filter_contains_rev(pred, target);
            let k = noted.subchannels.index_of(target);
            assert(policy.subchannels[k].address == target.address);
        }
    }
}

proof fn lemma_frontier_after_report(
    policy: PolicyView,
    sc: SubchannelView,
    state: SubchannelStateView,
)
    requires
        policy.wf(),
    ensures
        policy.noted(sc.address, state).advanced(false).frontier_index >= 0,
{
    lemma_noted_listed(policy, sc.address, state);
    law_frontier_skips_failed(policy.noted(sc.address, state), false);
}

/// In steady state a subchannel that becomes idle is connected again at once.
pub proof fn law_steady_state_reconnects(
    policy: PolicyView,
    sc: SubchannelView,
    state: SubchannelStateView,
)
    requires
        policy.steady_state is Some,
        policy.current(sc.address),
        !policy.is_selected(sc.address),
        state.connectivity_state == ConnectivityState::Idle,
    ensures
        policy.subchannel_update(sc, state).events == seq![LbEventView::Connect(sc)],
        policy.subchannel_update(sc, state).policy.steady_state == policy.steady_state,
{
}

/// The count after some failures in a row.
pub open spec fn after_failures(steady: SteadyState, failures: nat) -> SteadyState
    decreases failures,
{
    if failures == 0 {
        steady
    } else {
        after_failures(steady, (failures - 1) as nat).told(ConnectivityState::TransientFailure)
    }
}

/// In steady state new addresses are asked for at every `threshold`th failure,
/// and at no other.
pub proof fn law_failures_ask_again(threshold: usize, failures: nat)
    requires
        threshold > 0,
    ensures
        ({
            let start = SteadyState { failure_threshold: threshold, failure_count: 0 };
            let steady = after_failures(start, failures);
            &&& steady.failure_threshold == threshold
            &&& steady.failure_count == failures % threshold as nat
            &&& steady.full() <==> (failures + 1) % threshold as nat == 0
        }),
    decreases failures,
{
    let t = threshold as int;
    if failures > 0 {
        let less = (failures - 1) as nat;
        law_failures_ask_again(threshold, less);
        lemma_next_remainder(less as int, t);
    } else {
        vstd::arithmetic::div_mod::lemma_small_mod(0, threshold as nat);
    }
    lemma_next_remainder(failures as int, t);
}

proof fn lemma_next_remainder(n: int, t: int)
    requires
        n >= 0,
        t > 0,
    ensures
        (n + 1) % t == (if n % t + 1 >= t {
            0
        } else {
            n % t + 1
        }),
{
    vstd::arithmetic::div_mod::lemma_fundamental_div_mod(n, t);
    let q = n / t;
    let r = n % t;
    if r + 1 >= t {
        assert(n + 1 == (q + 1) * t + 0) by (nonlinear_arith)
            requires
                n == t * q + r,
                r + 1 == t,
        ;
        vstd::arithmetic::div_mod::lemma_fundamental_div_mod_converse(n + 1, t, q + 1, 0);
    } else {
        assert(n + 1 == q * t + (r + 1)) by (nonlinear_arith)
            requires
                n == t * q + r,
        ;
        vstd::arithmetic::div_mod::lemma_fundamental_div_mod_converse(n + 1, t, q, r + 1);
    }
}

} // verus!
