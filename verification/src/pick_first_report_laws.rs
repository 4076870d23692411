//! What the reports of the name resolver make of the `pick_first` policy, told by
//! the addresses of a report and the subchannels that were made for them.

use crate::address_list::compiled;
use crate::lb_types::{ConnectivityState, LbEventView, LbStateView, PickerView, SubchannelView};
use crate::name_resolution::{address_views, AddressView};
use crate::pick_first::PickFirstConfig;
use crate::pick_first_laws::lemma_no_entry;
use crate::pick_first_lemmas::{
    lemma_adopted_listed, lemma_entries, lemma_entries_distinct, lemma_entry_state, missing_before,
};
use crate::pick_first_pass_laws::{law_pass_starts, law_pass_without_hope};
use crate::pick_first_resolver::{
    handles, lemma_order_has_addresses, no_addresses, shuffled, shuffles, ResolverStep,
};
use crate::pick_first_spec::{
    distinct_entries, first_ready, EntryView, MadeView, PolicyView, Shuffler, Timer,
    EMPTY_ADDRESS_LIST,
};
use vstd::prelude::*;

verus! {

/// Some subchannel of `list` has this address.
pub open spec fn has_address(list: Seq<SubchannelView>, address: AddressView) -> bool {
    exists|i: int| 0 <= i < list.len() && (#[trigger] list[i]).address == address
}

proof fn lemma_has_address(policy: PolicyView, address: AddressView)
    ensures
        policy.current(address) == has_address(policy.subchannels, address),
{
    if policy.current(address) {
        let i = choose|i: int|
            0 <= i < policy.subchannels.len() && #[trigger] policy.subchannels[i].address
                == address;
        assert(policy.subchannels[i].address == address);
    }
    if has_address(policy.subchannels, address) {
        let i = choose|i: int|
            0 <= i < policy.subchannels.len() && (#[trigger] policy.subchannels[i]).address
                == address;
        assert(policy.subchannels[i].address == address);
    }
}

/// Of a report with addresses the policy keeps all that it has but its timer and
/// steady state, and asks for a subchannel for each address that none of its
/// subchannels has, once and in order.
pub proof fn law_report_is_announced(policy: PolicyView, addresses: Seq<AddressView>)
    ensures
        policy.announced(addresses).policy == (PolicyView {
            timer: None,
            steady_state: None,
            ..policy
        }),
        policy.announced(addresses).events == addresses.filter(
            |a: AddressView| !has_address(policy.subchannels, a),
        ).map_values(|a: AddressView| LbEventView::NewSubchannel(a)),
{
    let missing = |a: AddressView| !policy.current(a);
    let unheld = |a: AddressView| !has_address(policy.subchannels, a);
    assert forall|a: AddressView| #[trigger] missing(a) == unheld(a) by {
        lemma_has_address(policy, a);
    }
    assert(missing =~= unheld);
}

/// The place of an address in a list decides its subchannel: one that the policy
/// has is kept with its state, and the others are those that were made, taken in
/// the order in which they were asked for.
pub proof fn law_subchannels_of_a_list(
    policy: PolicyView,
    addresses: Seq<AddressView>,
    made: Seq<MadeView>,
    k: int,
)
    requires
        policy.wf(),
        made.len() == addresses.filter(
            |a: AddressView| !has_address(policy.subchannels, a),
        ).len(),
        0 <= k < addresses.len(),
    ensures
        ({
            let entries = policy.entries(addresses, made);
            let before = addresses.take(k).filter(
                |a: AddressView| !has_address(policy.subchannels, a),
            ).len() as int;
            &&& entries.len() == addresses.len()
            &&& forall|i: int|
                0 <= i < policy.subchannels.len() && (#[trigger] policy.subchannels[i]).address
                    == addresses[k] ==> entries[k] == (EntryView {
                    subchannel: policy.subchannels[i],
                    state: policy.states[addresses[k]],
                })
            &&& !has_address(policy.subchannels, addresses[k]) ==> before < made.len()
                && entries[k] == (EntryView {
                subchannel: SubchannelView { id: made[before].id, address: addresses[k] },
                state: made[before].state,
            })
        }),
{
    let missing = |a: AddressView| !policy.current(a);
    let unheld = |a: AddressView| !has_address(policy.subchannels, a);
    assert forall|a: AddressView| #[trigger] missing(a) == unheld(a) by {
        lemma_has_address(policy, a);
    }
    assert(missing =~= unheld);
    assert(made.len() == policy.missing(addresses).len());
    lemma_entries(policy, addresses, made, k);
    lemma_has_address(policy, addresses[k]);
    assert(missing_before(policy, addresses, k) == addresses.take(k).filter(unheld).len());
    assert forall|i: int|
        0 <= i < policy.subchannels.len() && (#[trigger] policy.subchannels[i]).address
            == addresses[k] implies policy.entries(addresses, made)[k] == (EntryView {
        subchannel: policy.subchannels[i],
        state: policy.states[addresses[k]],
    }) by {
        let j = choose|j: int|
            0 <= j < policy.subchannels.len() && #[trigger] policy.subchannels[j].address
                == addresses[k];
        assert(policy.subchannels[i].address == addresses[k]);
        assert(policy.subchannels[j].address == policy.subchannels[i].address);
        assert(i == j);
    }
}

/// A new list has the subchannels of its entries in order, and the state of each
/// under its address and under no other.
pub proof fn law_list_is_adopted(policy: PolicyView, entries: Seq<EntryView>, k: int)
    requires
        distinct_entries(entries),
        0 <= k < entries.len(),
    ensures
        ({
            let list = policy.adopted(entries);
            &&& list.subchannels.len() == entries.len()
            &&& list.subchannels[k] == entries[k].subchannel
            &&& list.states.dom().contains(entries[k].subchannel.address)
            &&& list.states[entries[k].subchannel.address] == entries[k].state
            &&& forall|a: AddressView|
                (forall|i: int|
                    0 <= i < entries.len() ==> (#[trigger] entries[i]).subchannel.address != a)
                    ==> !#[trigger] list.states.dom().contains(a)
            &&& list == (PolicyView { subchannels: list.subchannels, states: list.states, ..policy })
        }),
{
    let list = policy.adopted(entries);
    lemma_entry_state(entries, k);
    assert forall|a: AddressView|
        (forall|i: int|
            0 <= i < entries.len() ==> (#[trigger] entries[i]).subchannel.address
                != a) implies !#[trigger] list.states.dom().contains(a) by {
        lemma_no_entry(entries, a);
    }
}

/// The subchannel of the selected address is used on if it is ready in the new
/// list, also if others before it are.
pub proof fn law_ready_selected_is_kept(policy: PolicyView, entries: Seq<EntryView>, i: int)
    requires
        distinct_entries(entries),
        0 <= i < entries.len(),
        policy.selected is Some,
        policy.selected->0.address == entries[i].subchannel.address,
        entries[i].state.connectivity_state == ConnectivityState::Ready,
    ensures
        policy.ready_entry(entries) == Some(entries[i].subchannel),
        policy.switched(entries).policy == policy.adopted(entries),
        policy.switched(entries).events.len() == 0,
{
    assert(policy.sticky(entries[i]));
    let j = choose|j: int| 0 <= j < entries.len() && #[trigger] policy.sticky(entries[j]);
    assert(entries[j].subchannel.address == entries[i].subchannel.address);
    assert(i == j);
}

/// The first entry that is ready, found by its place.
proof fn lemma_first_ready_at(entries: Seq<EntryView>, k: int)
    requires
        0 <= k < entries.len(),
        entries[k].state.connectivity_state == ConnectivityState::Ready,
        forall|i: int|
            0 <= i < k ==> (#[trigger] entries[i]).state.connectivity_state
                != ConnectivityState::Ready,
    ensures
        first_ready(entries) == Some(entries[k].subchannel),
    decreases entries.len(),
{
    let front = entries.drop_last();
    if k < front.len() {
        assert forall|i: int| 0 <= i < k implies (
        #[trigger] front[i]).state.connectivity_state != ConnectivityState::Ready by {
            assert(front[i] == entries[i]);
        }
        assert(front[k] == entries[k]);
        lemma_first_ready_at(front, k);
    } else {
        assert forall|i: int| 0 <= i < front.len() implies (
        #[trigger] front[i]).state.connectivity_state != ConnectivityState::Ready by {
            assert(front[i] == entries[i]);
        }
        lemma_none_ready(front);
    }
}

proof fn lemma_none_ready(entries: Seq<EntryView>)
    requires
        forall|i: int|
            0 <= i < entries.len() ==> (#[trigger] entries[i]).state.connectivity_state
                != ConnectivityState::Ready,
    ensures
        first_ready(entries) is None,
    decreases entries.len(),
{
    if entries.len() > 0 {
        let front = entries.drop_last();
        assert(entries[entries.len() - 1].state.connectivity_state != ConnectivityState::Ready);
        assert forall|i: int| 0 <= i < front.len() implies (
        #[trigger] front[i]).state.connectivity_state != ConnectivityState::Ready by {
            assert(front[i] == entries[i]);
        }
        lemma_none_ready(front);
    }
}

/// Where the selected address is not ready in the new list, the first subchannel
/// that is ready is selected: requests go to it, and all others are let go.
pub proof fn law_first_ready_is_used(policy: PolicyView, entries: Seq<EntryView>, k: int)
    requires
        distinct_entries(entries),
        0 <= k < entries.len(),
        entries[k].state.connectivity_state == ConnectivityState::Ready,
        forall|i: int|
            0 <= i < k ==> (#[trigger] entries[i]).state.connectivity_state
                != ConnectivityState::Ready,
        forall|i: int|
            0 <= i < entries.len() && (#[trigger] entries[i]).state.connectivity_state
                == ConnectivityState::Ready && policy.selected is Some
                ==> policy.selected->0.address != entries[i].subchannel.address,
    ensures
        policy.ready_entry(entries) == Some(entries[k].subchannel),
        ({
            let outcome = policy.switched(entries);
            &&& outcome.policy == (PolicyView {
                selected: Some(entries[k].subchannel),
                subchannels: seq![entries[k].subchannel],
                connectivity_state: ConnectivityState::Ready,
                timer: None,
                steady_state: None,
                states: outcome.policy.states,
                ..policy
            })
            &&& outcome.policy.states[entries[k].subchannel.address] == entries[k].state
            &&& outcome.events == seq![
                LbEventView::UpdatePicker(
                    LbStateView {
                        connectivity_state: ConnectivityState::Ready,
                        picker: PickerView::OneSubchannel { sc: entries[k].subchannel },
                    },
                ),
            ]
        }),
{
    lemma_first_ready_at(entries, k);
    lemma_entry_state(entries, k);
    assert forall|i: int| 0 <= i < entries.len() implies !#[trigger] policy.sticky(entries[i]) by {
        assert(entries[i].state.connectivity_state == ConnectivityState::Ready
            && policy.selected is Some ==> policy.selected->0.address
            != entries[i].subchannel.address);
    }
}

proof fn lemma_no_ready_entry(policy: PolicyView, entries: Seq<EntryView>)
    requires
        forall|i: int|
            0 <= i < entries.len() ==> (#[trigger] entries[i]).state.connectivity_state
                != ConnectivityState::Ready,
    ensures
        policy.ready_entry(entries) is None,
{
    lemma_none_ready(entries);
    assert forall|i: int| 0 <= i < entries.len() implies !#[trigger] policy.sticky(entries[i]) by {
        assert(entries[i].state.connectivity_state != ConnectivityState::Ready);
    }
}

/// In every state of the policy, also where requests fail: if no subchannel of
/// the new list is ready, a connection is started on the first that has not
/// failed. The frontier is there, its timer runs, and the policy is connecting.
pub proof fn law_new_list_is_tried(
    policy: PolicyView,
    addresses: Seq<AddressView>,
    made: Seq<MadeView>,
    k: int,
)
    requires
        policy.wf(),
        policy.can_take_up(addresses, made),
        0 <= k < addresses.len(),
        forall|i: int|
            0 <= i < addresses.len() ==> (#[trigger] policy.entries(
                addresses,
                made,
            )[i]).state.connectivity_state != ConnectivityState::Ready,
        policy.entries(addresses, made)[k].state.connectivity_state
            != ConnectivityState::TransientFailure,
        forall|i: int|
            0 <= i < k ==> (#[trigger] policy.entries(
                addresses,
                made,
            )[i]).state.connectivity_state == ConnectivityState::TransientFailure,
    ensures
        ({
            let entries = policy.entries(addresses, made);
            let outcome = policy.rebuilt(addresses, made);
            let serial = policy.timers_started.wrapping_add(1);
            &&& outcome.events == (if policy.connectivity_state == ConnectivityState::Connecting {
                seq![LbEventView::Connect(entries[k].subchannel)]
            } else {
                seq![
                    LbEventView::Connect(entries[k].subchannel),
                    LbEventView::UpdatePicker(
                        LbStateView {
                            connectivity_state: ConnectivityState::Connecting,
                            picker: PickerView::Queuing,
                        },
                    ),
                ]
            })
            &&& outcome.policy.connectivity_state == ConnectivityState::Connecting
            &&& outcome.policy.selected is None
            &&& outcome.policy.frontier_index == k
            &&& outcome.policy.timer == Some(Timer { serial, expired: false })
            &&& outcome.policy.timers_started == serial
            &&& outcome.policy.subchannels.len() == addresses.len()
            &&& outcome.policy.subchannels[k] == entries[k].subchannel
            &&& outcome.policy.subchannels[k].address == addresses[k]
            &&& outcome.policy.states[addresses[k]].connectivity_state
                == ConnectivityState::Connecting
            &&& outcome.policy.last_connection_error == policy.last_connection_error
        }),
{
    let entries = policy.entries(addresses, made);
    let list = policy.adopted(entries);
    lemma_entries_distinct(policy, addresses, made);
    lemma_entries(policy, addresses, made, k);
    lemma_adopted_listed(policy, entries);
    lemma_no_ready_entry(policy, entries);
    assert forall|i: int| 0 <= i < k implies list.states[(
    #[trigger] list.subchannels[i]).address].connectivity_state
        == ConnectivityState::TransientFailure by {
        lemma_entry_state(entries, i);
        assert(list.subchannels[i] == entries[i].subchannel);
        assert(entries[i].state.connectivity_state == ConnectivityState::TransientFailure);
    }
    lemma_entry_state(entries, k);
    assert(list.subchannels[k] == entries[k].subchannel);
    law_pass_starts(list, k);
}

/// If all subchannels of the new list have failed already, requests fail with the
/// last error, and new addresses are asked for.
pub proof fn law_new_list_without_hope(
    policy: PolicyView,
    addresses: Seq<AddressView>,
    made: Seq<MadeView>,
    error: Seq<char>,
)
    requires
        policy.wf(),
        policy.can_take_up(addresses, made),
        policy.last_connection_error == Some(error),
        forall|i: int|
            0 <= i < addresses.len() ==> (#[trigger] policy.entries(
                addresses,
                made,
            )[i]).state.connectivity_state == ConnectivityState::TransientFailure,
    ensures
        ({
            let outcome = policy.rebuilt(addresses, made);
            &&& outcome.events == seq![
                LbEventView::UpdatePicker(
                    LbStateView {
                        connectivity_state: ConnectivityState::TransientFailure,
                        picker: PickerView::Failing { error },
                    },
                ),
                LbEventView::RequestResolution,
            ]
            &&& outcome.policy.connectivity_state == ConnectivityState::TransientFailure
            &&& outcome.policy.selected is None
            &&& outcome.policy.frontier_index == addresses.len()
            &&& outcome.policy.last_connection_error == Some(error)
        }),
{
    let entries = policy.entries(addresses, made);
    let list = policy.adopted(entries);
    lemma_entries_distinct(policy, addresses, made);
    lemma_adopted_listed(policy, entries);
    lemma_no_ready_entry(policy, entries);
    assert forall|i: int| 0 <= i < list.subchannels.len() implies list.states[(
    #[trigger] list.subchannels[i]).address].connectivity_state
        == ConnectivityState::TransientFailure by {
        lemma_entry_state(entries, i);
        assert(list.subchannels[i] == entries[i].subchannel);
        assert(entries[i].state.connectivity_state == ConnectivityState::TransientFailure);
    }
    law_pass_without_hope(list, error);
}

/// Going on with a list is a switch to its subchannels: those that are ready win.
pub proof fn law_rebuilt_list_is_switched_to(
    policy: PolicyView,
    addresses: Seq<AddressView>,
    made: Seq<MadeView>,
    k: int,
)
    requires
        policy.wf(),
        policy.can_take_up(addresses, made),
        0 <= k < addresses.len(),
        policy.entries(addresses, made)[k].state.connectivity_state == ConnectivityState::Ready,
    ensures
        ({
            let entries = policy.entries(addresses, made);
            let outcome = policy.rebuilt(addresses, made);
            &&& policy.selected is Some && policy.selected->0.address == addresses[k]
                ==> outcome.policy.selected == policy.selected && outcome.events.len() == 0
                && outcome.policy.subchannels.len() == addresses.len()
            &&& (forall|i: int|
                0 <= i < k ==> (#[trigger] entries[i]).state.connectivity_state
                    != ConnectivityState::Ready) && (forall|i: int|
                0 <= i < addresses.len() && (#[trigger] entries[i]).state.connectivity_state
                    == ConnectivityState::Ready && policy.selected is Some
                    ==> policy.selected->0.address != addresses[i]) ==> outcome.policy.selected
                == Some(entries[k].subchannel) && outcome.policy.connectivity_state
                == ConnectivityState::Ready && outcome.events == seq![
                LbEventView::UpdatePicker(
                    LbStateView {
                        connectivity_state: ConnectivityState::Ready,
                        picker: PickerView::OneSubchannel { sc: entries[k].subchannel },
                    },
                ),
            ]
        }),
{
    let entries = policy.entries(addresses, made);
    lemma_entries_distinct(policy, addresses, made);
    lemma_entries(policy, addresses, made, k);
    if policy.selected is Some && policy.selected->0.address == addresses[k] {
        law_ready_selected_is_kept(policy, entries, k);
    } else if (forall|i: int|
        0 <= i < k ==> (#[trigger] entries[i]).state.connectivity_state
            != ConnectivityState::Ready) && (forall|i: int|
        0 <= i < addresses.len() && (#[trigger] entries[i]).state.connectivity_state
            == ConnectivityState::Ready && policy.selected is Some
            ==> policy.selected->0.address != addresses[i]) {
        assert forall|i: int|
            0 <= i < entries.len() && (#[trigger] entries[i]).state.connectivity_state
                == ConnectivityState::Ready && policy.selected is Some
                implies policy.selected->0.address != entries[i].subchannel.address by {
            lemma_entries(policy, addresses, made, i);
        }
        law_first_ready_is_used(policy, entries, k);
    }
}

/// A report without addresses clears the list and the selection, makes requests
/// fail and asks for new addresses. The states that are known stay.
pub proof fn law_report_of_nothing(policy: PolicyView)
    ensures
        policy.resolved_nothing().policy == (PolicyView {
            connectivity_state: ConnectivityState::TransientFailure,
            subchannels: Seq::empty(),
            selected: None,
            last_connection_error: Some(EMPTY_ADDRESS_LIST@),
            timer: None,
            steady_state: None,
            ..policy
        }),
        policy.resolved_nothing().events == seq![
            LbEventView::UpdatePicker(
                LbStateView {
                    connectivity_state: ConnectivityState::TransientFailure,
                    picker: PickerView::Failing { error: EMPTY_ADDRESS_LIST@ },
                },
            ),
            LbEventView::RequestResolution,
        ],
{
    assert(policy.resolved_nothing().events =~= seq![
        LbEventView::UpdatePicker(
            LbStateView {
                connectivity_state: ConnectivityState::TransientFailure,
                picker: PickerView::Failing { error: EMPTY_ADDRESS_LIST@ },
            },
        ),
        LbEventView::RequestResolution,
    ]);
}

/// A failure of the resolver is reported exactly if the policy has no subchannels
/// or requests fail already. Either way no timer runs afterwards and steady state
/// is over.
pub proof fn law_report_of_failure(policy: PolicyView, error: Seq<char>)
    ensures
        policy.fails_with_resolver() <==> policy.subchannels.len() == 0
            || policy.connectivity_state == ConnectivityState::TransientFailure,
        ({
            let outcome = policy.resolver_failed(error);
            if policy.subchannels.len() == 0 || policy.connectivity_state
                == ConnectivityState::TransientFailure {
                &&& outcome.policy == (PolicyView {
                    connectivity_state: ConnectivityState::TransientFailure,
                    last_connection_error: Some(error),
                    timer: None,
                    steady_state: None,
                    ..policy
                })
                &&& outcome.events == seq![
                    LbEventView::UpdatePicker(
                        LbStateView {
                            connectivity_state: ConnectivityState::TransientFailure,
                            picker: PickerView::Failing { error },
                        },
                    ),
                    LbEventView::RequestResolution,
                ]
            } else {
                &&& outcome.policy == (PolicyView { timer: None, steady_state: None, ..policy })
                &&& outcome.events.len() == 0
            }
        }),
{
    if policy.subchannels.len() == 0 || policy.connectivity_state
        == ConnectivityState::TransientFailure {
        assert(policy.resolver_failed(error).events =~= seq![
            LbEventView::UpdatePicker(
                LbStateView {
                    connectivity_state: ConnectivityState::TransientFailure,
                    picker: PickerView::Failing { error },
                },
            ),
            LbEventView::RequestResolution,
        ]);
    }
}

/// A list can be taken up exactly if it names each address once, there is one
/// answer for each address that no subchannel has, and one of its subchannels has
/// not failed or there is an error from before.
pub proof fn law_lists_that_can_be_taken_up(
    policy: PolicyView,
    addresses: Seq<AddressView>,
    made: Seq<MadeView>,
)
    requires
        policy.wf(),
        addresses.len() <= usize::MAX,
    ensures
        policy.can_take_up(addresses, made) <==> {
            &&& addresses.no_duplicates()
            &&& made.len() == addresses.filter(
                |a: AddressView| !has_address(policy.subchannels, a),
            ).len()
            &&& policy.last_connection_error is Some || exists|k: int|
                0 <= k < addresses.len() && (#[trigger] policy.entries(
                    addresses,
                    made,
                )[k]).state.connectivity_state != ConnectivityState::TransientFailure
        },
{
    let missing = |a: AddressView| !policy.current(a);
    let unheld = |a: AddressView| !has_address(policy.subchannels, a);
    assert forall|a: AddressView| #[trigger] missing(a) == unheld(a) by {
        lemma_has_address(policy, a);
    }
    assert(missing =~= unheld);
    if policy.answers(addresses, made) {
        lemma_entries_distinct(policy, addresses, made);
    }
}

/// Endpoints are taken in the given order, or from back to front where that is how
/// they are shuffled. However they are shuffled, they are the same ones.
pub proof fn law_order_of_endpoints(
    shuffler: Shuffler,
    enabled: bool,
    endpoints: Seq<Seq<AddressView>>,
    order: Seq<Seq<AddressView>>,
    i: int,
)
    requires
        shuffled(shuffler, enabled, endpoints, order),
        0 <= i < endpoints.len(),
    ensures
        order.to_multiset() == endpoints.to_multiset(),
        order.len() == endpoints.len(),
        !enabled ==> order[i] == endpoints[i],
        enabled && shuffler == Shuffler::Reverse ==> order[i] == endpoints[endpoints.len() - 1 - i],
{
    broadcast use vstd::seq_lib::group_to_multiset_ensures;

    if enabled && shuffler == Shuffler::Reverse {
        endpoints.lemma_reverse_to_multiset();
    }
    assert(order.len() == order.to_multiset().len());
    assert(endpoints.len() == endpoints.to_multiset().len());
}

/// Endpoints are shuffled only by a config that says so.
pub proof fn law_shuffling_is_asked_for(config: Option<&PickFirstConfig>)
    ensures
        config is None ==> !shuffles(config),
        config matches Some(c) ==> (shuffles(config) <==> c.shuffle_address_list),
{
}

/// A report with any address at all is handed out as a new list that has it. The
/// policy asks for subchannels, and keeps those that it has, until it has the
/// others. A report without addresses is an error.
pub proof fn law_reports_are_handled(
    policy: PolicyView,
    enabled: bool,
    endpoints: Seq<Seq<AddressView>>,
    order: Seq<Seq<AddressView>>,
    asked: Seq<LbEventView>,
    after: PolicyView,
    asked_after: Seq<LbEventView>,
    step: ResolverStep,
)
    requires
        shuffled(policy.shuffler, enabled, endpoints, order),
        handles(policy, compiled(order), asked, after, asked_after, step),
    ensures
        asked.is_prefix_of(asked_after),
        forall|i: int, a: AddressView|
            0 <= i < endpoints.len() && #[trigger] endpoints[i].contains(a) ==> {
                &&& step matches ResolverStep::NewList(list) && exists|k: int|
                    0 <= k < list@.len() && (#[trigger] list@[k])@ == a
                &&& after.subchannels == policy.subchannels
                &&& after.selected == policy.selected
                &&& after.connectivity_state == policy.connectivity_state
                &&& forall|e: int|
                    asked.len() <= e < asked_after.len() ==> #[trigger] asked_after[e]
                        is NewSubchannel
            },
        (forall|i: int| 0 <= i < endpoints.len() ==> (#[trigger] endpoints[i]).len() == 0) ==> {
            &&& step matches ResolverStep::Handled(Err(message)) && message@
                == "empty address list"@
            &&& after.subchannels.len() == 0
            &&& after.selected is None
            &&& after.connectivity_state == ConnectivityState::TransientFailure
        },
        no_addresses(endpoints) <==> forall|i: int|
            0 <= i < endpoints.len() ==> (#[trigger] endpoints[i]).len() == 0,
{
    lemma_order_has_addresses(policy.shuffler, enabled, endpoints, order);
    assert forall|i: int, a: AddressView|
        0 <= i < endpoints.len() && #[trigger] endpoints[i].contains(a) implies {
        &&& step matches ResolverStep::NewList(list) && exists|k: int|
            0 <= k < list@.len() && (#[trigger] list@[k])@ == a
        &&& after.subchannels == policy.subchannels
        &&& after.selected == policy.selected
        &&& after.connectivity_state == policy.connectivity_state
        &&& forall|e: int|
            asked.len() <= e < asked_after.len() ==> #[trigger] asked_after[e] is NewSubchannel
    } by {
        let addresses = compiled(order);
        assert(addresses.contains(a));
        let k = addresses.index_of(a);
        let list = step->NewList_0;
        assert(address_views(list@)[k] == list@[k]@);
    }
}

/// A new policy is idle, has no subchannel, and awaits nothing.
pub proof fn law_new_policies()
    ensures
        ({
            let policy = PolicyView::initial();
            &&& policy.connectivity_state == ConnectivityState::Idle
            &&& policy.subchannels.len() == 0
            &&& policy.states.dom() == Set::<AddressView>::empty()
            &&& policy.selected is None
            &&& policy.frontier_index == 0
            &&& policy.last_connection_error is None
            &&& policy.shuffler == Shuffler::Random
            &&& policy.timer is None
            &&& policy.steady_state is None
            &&& policy.wf()
        }),
{
}

} // verus!
