//! What the `pick_first` policy keeps in order.

use crate::lb_types::{ConnectivityState, SubchannelStateView, SubchannelView};
use crate::name_resolution::AddressView;
use crate::pick_first_spec::{
    distinct_entries, entry_states, first_ready, next_index, EntryView, MadeView, PolicyView,
};
use crate::state_cache::state_map;
use vstd::prelude::*;

verus! {

proof fn lemma_first_viable(policy: PolicyView, from: int)
    requires
        0 <= from,
    ensures
        from <= policy.first_viable(from),
        policy.first_viable(from) <= policy.subchannels.len() || policy.first_viable(from) == from,
        policy.first_viable(from) < policy.subchannels.len() ==> policy.viable(
            policy.first_viable(from),
        ),
        forall|i: int| from <= i < policy.first_viable(from) ==> !#[trigger] policy.viable(i),
    decreases policy.subchannels.len() - from,
{
    if from < policy.subchannels.len() && !policy.viable(from) {
        lemma_first_viable(policy, from + 1);
    }
}

/// The frontier moves only forward, over subchannels that have failed, and stops
/// at the first that has not.
pub proof fn law_frontier_skips_failed(policy: PolicyView, reset: bool)
    requires
        policy.listed(),
    ensures
        ({
            let moved = policy.advanced(reset);
            let start = if reset {
                0
            } else {
                next_index(policy.frontier_index)
            };
            &&& start <= moved.frontier_index
            &&& moved.frontier_in_list() ==> moved.viable(moved.frontier_index)
            &&& forall|i: int| start <= i < moved.frontier_index ==> !#[trigger] policy.viable(i)
            &&& moved.listed()
        }),
{
    let start = if reset {
        0
    } else {
        next_index(policy.frontier_index)
    };
    lemma_first_viable(policy, start);
    let moved = policy.advanced(reset);
    if moved.frontier_in_list() {
        assert(policy.viable(moved.frontier_index));
    }
    assert forall|i: int| 0 <= i < moved.subchannels.len() implies moved.states.dom().contains(
        #[trigger] moved.subchannels[i].address,
    ) by {
        assert(policy.states.dom().contains(policy.subchannels[i].address));
    }
}

/// Starting a connection on a subchannel of the list keeps the list in order.
pub proof fn lemma_connect_listed(policy: PolicyView, sc: SubchannelView)
    requires
        policy.listed(),
    ensures
        policy.connect(sc).policy.listed(),
{
    let after = policy.connect(sc).policy;
    assert forall|i: int| 0 <= i < after.subchannels.len() implies after.states.dom().contains(
        #[trigger] after.subchannels[i].address,
    ) by {
        assert(policy.states.dom().contains(policy.subchannels[i].address));
    }
}

/// Moving the frontier during the first pass keeps the list in order.
pub proof fn lemma_moved_listed(
    policy: PolicyView,
    address: AddressView,
    state: ConnectivityState,
)
    requires
        policy.listed(),
    ensures
        policy.first_pass_moved(address, state).policy.listed(),
{
    law_frontier_skips_failed(policy, false);
    let moved = policy.advanced(false);
    if moved.frontier_in_list() {
        lemma_connect_listed(moved, moved.subchannels[moved.frontier_index]);
    }
}

/// Noting a report keeps the list in order.
pub proof fn lemma_noted_listed(
    policy: PolicyView,
    address: AddressView,
    state: SubchannelStateView,
)
    requires
        policy.listed(),
    ensures
        policy.noted(address, state).listed(),
{
    let noted = policy.noted(address, state);
    assert forall|i: int| 0 <= i < noted.subchannels.len() implies noted.states.dom().contains(
        #[trigger] noted.subchannels[i].address,
    ) by {
        assert(policy.states.dom().contains(policy.subchannels[i].address));
    }
}

/// The start of a pass keeps the invariant. The policy may be one whose selected
/// subchannel is no longer in the list.
pub proof fn lemma_pass_keeps_invariant(policy: PolicyView)
    requires
        policy.listed(),
    ensures
        policy.start_pass().policy.wf(),
{
    let free = PolicyView { selected: None, ..policy };
    assert(free.listed()) by {
        lemma_same_list(policy, free);
    }
    law_frontier_skips_failed(free, true);
    let ready = free.advanced(true);
    if ready.frontier_in_list() {
        let connecting = ready.connect(ready.subchannels[ready.frontier_index]).policy;
        lemma_connect_listed(ready, ready.subchannels[ready.frontier_index]);
        lemma_same_list(connecting, policy.start_pass().policy);
    } else {
        lemma_same_list(ready, policy.start_pass().policy);
    }
}

/// What does not touch the list, the states, the frontier or steady state keeps
/// the list in order.
pub proof fn lemma_same_list(before: PolicyView, after: PolicyView)
    requires
        before.listed(),
        after.subchannels == before.subchannels,
        after.states == before.states,
        after.frontier_index == before.frontier_index,
        after.steady_state matches Some(steady) ==> steady.wf(),
    ensures
        after.listed(),
{
    assert forall|i: int| 0 <= i < after.subchannels.len() implies after.states.dom().contains(
        #[trigger] after.subchannels[i].address,
    ) by {
        assert(before.states.dom().contains(before.subchannels[i].address));
    }
}

/// A policy that selects a subchannel whose state it knows is in order.
pub proof fn lemma_activate_keeps_invariant(policy: PolicyView, sc: SubchannelView)
    requires
        policy.listed(),
        policy.states.dom().contains(sc.address),
        policy.is_selected(sc.address) ==> policy.wf(),
    ensures
        policy.activate(sc).policy.wf(),
{
    if !policy.is_selected(sc.address) {
        let after = policy.activate(sc).policy;
        assert(after.subchannels[0].address == sc.address);
    }
}

/// The report of a subchannel keeps the invariant.
pub proof fn law_update_keeps_invariant(
    policy: PolicyView,
    sc: SubchannelView,
    state: SubchannelStateView,
)
    requires
        policy.wf(),
    ensures
        policy.subchannel_update(sc, state).policy.wf(),
{
    let noted = policy.noted(sc.address, state);
    let after = policy.subchannel_update(sc, state).policy;
    lemma_noted_listed(policy, sc.address, state);
    if policy.selected is Some {
        let i = choose|i: int|
            0 <= i < policy.subchannels.len() && #[trigger] policy.subchannels[i].address
                == policy.selected->0.address;
        assert(noted.subchannels[i].address == policy.selected->0.address);
    }
    assert(noted.wf());
    if !policy.current(sc.address) {
    } else if policy.is_selected(sc.address) {
        lemma_same_list(noted, after);
    } else if state.connectivity_state == ConnectivityState::Ready {
        lemma_activate_keeps_invariant(noted, sc);
    } else if noted.steady_state is Some {
        lemma_same_list(noted, after);
        lemma_same_selection(noted, after);
    } else {
        let moved = noted.first_pass_moved(sc.address, state.connectivity_state).policy;
        lemma_moved_listed(noted, sc.address, state.connectivity_state);
        lemma_same_list(moved, after);
        lemma_same_selection(noted, after);
    }
}

/// The selected subchannel stays in a list that does not change.
proof fn lemma_same_selection(before: PolicyView, after: PolicyView)
    requires
        before.wf(),
        after.subchannels == before.subchannels,
        after.selected == before.selected,
    ensures
        after.selected matches Some(sc) ==> after.current(sc.address),
{
    if before.selected is Some {
        let i = choose|i: int|
            0 <= i < before.subchannels.len() && #[trigger] before.subchannels[i].address
                == before.selected->0.address;
        assert(after.subchannels[i].address == before.selected->0.address);
    }
}

/// Work keeps the invariant.
pub proof fn law_work_keeps_invariant(policy: PolicyView)
    requires
        policy.wf(),
    ensures
        policy.work().policy.wf(),
{
    let after = policy.work().policy;
    lemma_pass_keeps_invariant(policy);
    if policy.connectivity_state != ConnectivityState::Idle {
        law_frontier_skips_failed(policy, false);
        let moved = policy.advanced(false);
        if moved.frontier_in_list() {
            lemma_connect_listed(moved, moved.subchannels[moved.frontier_index]);
        }
        lemma_same_selection(policy, after);
    }
}

/// An expired timer keeps the invariant.
pub proof fn law_timer_keeps_invariant(policy: PolicyView, serial: u64)
    requires
        policy.wf(),
    ensures
        policy.timer_fired(serial).wf(),
{
    let after = policy.timer_fired(serial);
    lemma_same_list(policy, after);
    lemma_same_selection(policy, after);
}

/// The states of entries with different addresses are found by their addresses.
pub proof fn lemma_entry_state(entries: Seq<EntryView>, k: int)
    requires
        distinct_entries(entries),
        0 <= k < entries.len(),
    ensures
        state_map(entry_states(entries)).dom().contains(entries[k].subchannel.address),
        state_map(entry_states(entries))[entries[k].subchannel.address] == entries[k].state,
    decreases entries.len(),
{
    let front = entries.drop_last();
    assert(entry_states(entries).drop_last() =~= entry_states(front));
    assert(entry_states(entries).last() == (
        entries.last().subchannel.address,
        entries.last().state,
    ));
    if k < front.len() {
        assert(distinct_entries(front)) by {
            assert forall|i: int, j: int|
                0 <= i < front.len() && 0 <= j < front.len() && i != j implies (
            #[trigger] front[i]).subchannel.address != (
            #[trigger] front[j]).subchannel.address by {
                assert(entries[i] == front[i] && entries[j] == front[j]);
            }
        }
        lemma_entry_state(front, k);
        assert(entries[k] == front[k]);
        assert(entries[k].subchannel.address != entries[entries.len() - 1].subchannel.address);
    }
}

/// A new list is in order, and a pass through it has something to report.
pub proof fn lemma_adopted_listed(policy: PolicyView, entries: Seq<EntryView>)
    requires
        policy.wf(),
        policy.can_switch(entries),
    ensures
        policy.adopted(entries).listed(),
        policy.adopted(entries).pass_reportable(),
{
    let adopted = policy.adopted(entries);
    assert forall|i: int| 0 <= i < entries.len() implies adopted.states.dom().contains(
        #[trigger] adopted.subchannels[i].address,
    ) by {
        lemma_entry_state(entries, i);
    }
    assert forall|i: int, j: int|
        0 <= i < entries.len() && 0 <= j < entries.len() && i
            != j implies #[trigger] adopted.subchannels[i].address
        != #[trigger] adopted.subchannels[j].address by {
        assert(entries[i].subchannel.address != entries[j].subchannel.address);
    }
    if policy.last_connection_error is None {
        let k = choose|k: int|
            0 <= k < entries.len() && (#[trigger] entries[k]).state.connectivity_state
                != ConnectivityState::TransientFailure;
        lemma_entry_state(entries, k);
        assert(adopted.subchannels[k] == entries[k].subchannel);
        assert(adopted.viable(k));
    }
}

/// The first entry that is ready is one of the entries.
proof fn lemma_first_ready(entries: Seq<EntryView>)
    ensures
        match first_ready(entries) {
            Some(sc) => exists|i: int|
                {
                    &&& 0 <= i < entries.len()
                    &&& (#[trigger] entries[i]).subchannel == sc
                    &&& entries[i].is_ready()
                    &&& forall|j: int| 0 <= j < i ==> !(#[trigger] entries[j]).is_ready()
                },
            None => forall|j: int| 0 <= j < entries.len() ==> !(#[trigger] entries[j]).is_ready(),
        },
    decreases entries.len(),
{
    if entries.len() > 0 {
        let front = entries.drop_last();
        lemma_first_ready(front);
        assert forall|j: int| 0 <= j < front.len() implies entries[j] == front[j] by {}
        if first_ready(front) is Some {
            let i = choose|i: int|
                {
                    &&& 0 <= i < front.len()
                    &&& (#[trigger] front[i]).subchannel == first_ready(front)->0
                    &&& front[i].is_ready()
                    &&& forall|j: int| 0 <= j < i ==> !(#[trigger] front[j]).is_ready()
                };
            assert(entries[i].subchannel == first_ready(entries)->0);
            assert forall|j: int| 0 <= j < i implies !(#[trigger] entries[j]).is_ready() by {
                assert(!front[j].is_ready());
            }
        } else {
            assert forall|j: int| 0 <= j < front.len() implies !(
            #[trigger] entries[j]).is_ready() by {
                assert(!front[j].is_ready());
            }
            assert(entries[entries.len() - 1] == entries.last());
        }
    }
}

/// A switch to a new list keeps the invariant.
pub proof fn law_switch_keeps_invariant(policy: PolicyView, entries: Seq<EntryView>)
    requires
        policy.wf(),
        policy.can_switch(entries),
    ensures
        policy.switched(entries).policy.wf(),
{
    let adopted = policy.adopted(entries);
    lemma_adopted_listed(policy, entries);
    match policy.ready_entry(entries) {
        Some(sc) => {
            lemma_first_ready(entries);
            let i = choose|i: int| 0 <= i < entries.len() && (#[trigger] entries[i]).subchannel == sc;
            assert(adopted.subchannels[i] == sc);
            lemma_entry_state(entries, i);
            assert(adopted.subchannels[i].address == sc.address);
            lemma_activate_keeps_invariant(adopted, sc);
        },
        None => {
            lemma_pass_keeps_invariant(adopted);
        },
    }
}

/// Which subchannels are connecting depends on the list and the states alone.
pub proof fn lemma_same_connecting(left: PolicyView, right: PolicyView)
    requires
        left.subchannels == right.subchannels,
        left.states == right.states,
    ensures
        left.any_connecting() == right.any_connecting(),
{
    assert forall|i: int| left.connectivity(i) == #[trigger] right.connectivity(i) by {}
    if left.any_connecting() {
        let i = choose|i: int|
            0 <= i < left.subchannels.len() && #[trigger] left.connectivity(i)
                == ConnectivityState::Connecting;
        assert(right.connectivity(i) == ConnectivityState::Connecting);
    }
    if right.any_connecting() {
        let i = choose|i: int|
            0 <= i < right.subchannels.len() && #[trigger] right.connectivity(i)
                == ConnectivityState::Connecting;
        assert(left.connectivity(i) == ConnectivityState::Connecting);
    }
}

/// The start of a resolver report keeps the invariant.
pub proof fn lemma_refreshed_keeps_invariant(policy: PolicyView)
    requires
        policy.wf(),
    ensures
        policy.refreshed().wf(),
{
    lemma_same_list(policy, policy.refreshed());
    lemma_same_selection(policy, policy.refreshed());
}

/// The resolver's failure keeps the invariant.
pub proof fn law_resolver_failure_keeps_invariant(policy: PolicyView, error: Seq<char>)
    requires
        policy.wf(),
    ensures
        policy.resolver_failed(error).policy.wf(),
{
    lemma_same_list(policy, policy.resolver_failed(error).policy);
    lemma_same_selection(policy, policy.resolver_failed(error).policy);
}

/// A report without addresses leaves a policy that is in order.
pub proof fn law_empty_report_keeps_invariant(policy: PolicyView)
    requires
        policy.wf(),
    ensures
        policy.resolved_nothing().policy.wf(),
{
}

/// A report with addresses keeps the invariant, before and after the missing
/// subchannels were made.
pub proof fn law_report_keeps_invariant(
    policy: PolicyView,
    addresses: Seq<AddressView>,
    made: Seq<MadeView>,
)
    requires
        policy.wf(),
        policy.refreshed().can_switch(policy.refreshed().entries(addresses, made)),
    ensures
        policy.announced(addresses).policy.wf(),
        policy.resolved(addresses, made).policy.wf(),
{
    lemma_refreshed_keeps_invariant(policy);
    law_switch_keeps_invariant(
        policy.refreshed(),
        policy.refreshed().entries(addresses, made),
    );
}

/// How many of the first `k` addresses the policy has no subchannel for.
pub open spec fn missing_before(policy: PolicyView, addresses: Seq<AddressView>, k: int) -> int {
    policy.missing(addresses.take(k)).len() as int
}

/// One address more is missing, or it is held.
pub proof fn lemma_missing_step(policy: PolicyView, addresses: Seq<AddressView>, k: int)
    requires
        0 <= k < addresses.len(),
    ensures
        policy.missing(addresses.take(k + 1)) == (if policy.current(addresses[k]) {
            policy.missing(addresses.take(k))
        } else {
            policy.missing(addresses.take(k)).push(addresses[k])
        }),
{
    reveal(Seq::filter);
    assert(addresses.take(k + 1).drop_last() =~= addresses.take(k));
    assert(addresses.take(k + 1).last() == addresses[k]);
}

/// What stands at each place of a list: a subchannel that the policy has, with
/// its known state, or the next of those that were made.
pub proof fn lemma_entries(
    policy: PolicyView,
    addresses: Seq<AddressView>,
    made: Seq<MadeView>,
    k: int,
)
    requires
        made.len() == policy.missing(addresses).len(),
        0 <= k < addresses.len(),
    ensures
        policy.entries(addresses, made).len() == addresses.len(),
        policy.entries(addresses, made)[k].subchannel.address == addresses[k],
        policy.current(addresses[k]) ==> policy.entries(addresses, made)[k] == (EntryView {
            subchannel: policy.held(addresses[k]),
            state: policy.states[addresses[k]],
        }),
        !policy.current(addresses[k]) ==> 0 <= missing_before(policy, addresses, k) < made.len()
            && policy.entries(addresses, made)[k] == (EntryView {
            subchannel: SubchannelView {
                id: made[missing_before(policy, addresses, k)].id,
                address: addresses[k],
            },
            state: made[missing_before(policy, addresses, k)].state,
        }),
    decreases addresses.len(),
{
    let n = addresses.len() as int;
    let front = addresses.drop_last();
    assert(addresses.take(n) =~= addresses);
    assert(addresses.take(n - 1) =~= front);
    lemma_missing_step(policy, addresses, n - 1);
    let less = if policy.current(addresses.last()) {
        made
    } else {
        made.drop_last()
    };
    assert(less.len() == policy.missing(front).len());
    lemma_entries_len(policy, front, less);
    if policy.current(addresses[k]) {
        let i = choose|i: int|
            0 <= i < policy.subchannels.len() && #[trigger] policy.subchannels[i].address
                == addresses[k];
        assert(policy.held(addresses[k]).address == addresses[k]);
    }
    if k < n - 1 {
        lemma_entries(policy, front, less, k);
        assert(front[k] == addresses[k]);
        assert(front.take(k) =~= addresses.take(k));
    }
}

proof fn lemma_entries_len(policy: PolicyView, addresses: Seq<AddressView>, made: Seq<MadeView>)
    ensures
        policy.entries(addresses, made).len() == addresses.len(),
    decreases addresses.len(),
{
    if addresses.len() > 0 {
        lemma_entries_len(policy, addresses.drop_last(), made);
        lemma_entries_len(policy, addresses.drop_last(), made.drop_last());
    }
}

/// The subchannels of a list that names each address once are different.
pub proof fn lemma_entries_distinct(
    policy: PolicyView,
    addresses: Seq<AddressView>,
    made: Seq<MadeView>,
)
    requires
        policy.answers(addresses, made),
    ensures
        distinct_entries(policy.entries(addresses, made)),
        policy.entries(addresses, made).len() == addresses.len(),
{
    let entries = policy.entries(addresses, made);
    lemma_entries_len(policy, addresses, made);
    assert forall|i: int, j: int|
        0 <= i < entries.len() && 0 <= j < entries.len() && i != j implies (
    #[trigger] entries[i]).subchannel.address != (#[trigger] entries[j]).subchannel.address by {
        lemma_entries(policy, addresses, made, i);
        lemma_entries(policy, addresses, made, j);
        assert(addresses[i] != addresses[j]);
    }
}

} // verus!
