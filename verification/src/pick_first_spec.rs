//! The `pick_first` policy as a state machine: what each input makes of its
//! state, and what the policy asks of its channel.

use crate::lb_types::{
    ConnectivityState, LbEventView, LbStateView, PickerView, SubchannelStateView, SubchannelView,
};
use crate::name_resolution::AddressView;
use crate::state_cache::state_map;
use vstd::prelude::*;

verus! {

/// The error when the resolver finds no addresses.
pub const EMPTY_ADDRESS_LIST: &'static str = "empty address list";

/// A connection attempt's timer, as specifications and code speak of it.
#[derive(Clone, Copy, Debug)]
pub struct Timer {
    /// Which of the policy's timers this is.
    pub serial: u64,
    /// Whether its time is up.
    pub expired: bool,
}

/// Progress of the policy once all addresses have failed.
#[derive(Clone, Copy, Debug)]
pub struct SteadyState {
    /// Failures after which new addresses are asked for. This approximates that
    /// every subchannel has failed once more.
    pub failure_threshold: usize,
    /// Failures since new addresses were asked for.
    pub failure_count: usize,
}

impl SteadyState {
    /// The count is below the threshold, unless that is zero.
    pub open spec fn wf(self) -> bool {
        self.failure_count < self.failure_threshold || self.failure_count == 0
    }

    /// One failure more would be as many as the threshold.
    pub open spec fn full(self) -> bool {
        self.failure_count + 1 >= self.failure_threshold
    }

    /// The count after a subchannel reported a state other than ready: failures
    /// are counted, and the count starts over when it is full.
    pub open spec fn told(self, state: ConnectivityState) -> SteadyState {
        if state != ConnectivityState::TransientFailure {
            self
        } else if self.full() {
            SteadyState { failure_count: 0, ..self }
        } else {
            SteadyState { failure_count: (self.failure_count + 1) as usize, ..self }
        }
    }

    /// What is asked for after `sc` reported a state other than ready: an idle
    /// one is connected again, and new addresses are due when the count is full.
    pub open spec fn asks(self, sc: SubchannelView, state: ConnectivityState) -> Seq<LbEventView> {
        if state == ConnectivityState::Idle {
            seq![LbEventView::Connect(sc)]
        } else if state == ConnectivityState::TransientFailure && self.full() {
            seq![LbEventView::RequestResolution]
        } else {
            Seq::empty()
        }
    }
}

/// How endpoints are shuffled.
#[derive(Clone, Copy, Debug, PartialEq, Eq, Structural)]
pub enum Shuffler {
    /// At random.
    Random,
    /// Back to front, which makes the outcome predictable.
    Reverse,
}

/// The policy's state, as specifications speak of it.
#[verifier::ext_equal]
pub struct PolicyView {
    pub connectivity_state: ConnectivityState,
    pub subchannels: Seq<SubchannelView>,
    pub states: Map<AddressView, SubchannelStateView>,
    pub selected: Option<SubchannelView>,
    pub frontier_index: int,
    pub last_connection_error: Option<Seq<char>>,
    pub shuffler: Shuffler,
    pub timer: Option<Timer>,
    pub timers_started: u64,
    pub steady_state: Option<SteadyState>,
}

/// What an input leads to: the next state, and what is asked of the channel.
#[verifier::ext_equal]
pub struct Outcome {
    pub policy: PolicyView,
    pub events: Seq<LbEventView>,
}

impl Outcome {
    /// This outcome with other events in front.
    pub open spec fn after(self, events: Seq<LbEventView>) -> Outcome {
        Outcome { policy: self.policy, events: events + self.events }
    }

    /// This outcome with one event more.
    pub open spec fn and(self, event: LbEventView) -> Outcome {
        Outcome { policy: self.policy, events: self.events.push(event) }
    }
}

/// The index after `index`. The largest one is followed by itself.
pub open spec fn next_index(index: int) -> int {
    if index < usize::MAX {
        index + 1
    } else {
        index
    }
}

impl PolicyView {
    /// The policy before its first input.
    pub open spec fn initial() -> PolicyView {
        PolicyView {
            connectivity_state: ConnectivityState::Idle,
            subchannels: Seq::empty(),
            states: Map::empty(),
            selected: None,
            frontier_index: 0,
            last_connection_error: None,
            shuffler: Shuffler::Random,
            timer: None,
            timers_started: 0,
            steady_state: None,
        }
    }

    /// Subchannels have different addresses, the state of each is known, and
    /// the count of failures is in bounds.
    pub open spec fn listed(self) -> bool {
        &&& forall|i: int, j: int|
            0 <= i < self.subchannels.len() && 0 <= j < self.subchannels.len() && i != j
                ==> #[trigger] self.subchannels[i].address != #[trigger] self.subchannels[j].address
        &&& forall|i: int|
            0 <= i < self.subchannels.len() ==> self.states.dom().contains(
                #[trigger] self.subchannels[i].address,
            )
        &&& self.steady_state matches Some(steady) ==> steady.wf()
        &&& 0 <= self.frontier_index <= usize::MAX
        &&& self.subchannels.len() <= usize::MAX
    }

    /// The policy's invariant: besides the above, the selected subchannel is in
    /// the list, and the channel is ready only while one is selected.
    pub open spec fn wf(self) -> bool {
        &&& self.listed()
        &&& self.selected matches Some(sc) ==> self.current(sc.address)
        &&& self.connectivity_state == ConnectivityState::Ready ==> self.selected is Some
    }

    /// Some subchannel has this address.
    pub open spec fn current(self, address: AddressView) -> bool {
        exists|i: int|
            0 <= i < self.subchannels.len() && #[trigger] self.subchannels[i].address == address
    }

    /// The selected subchannel has this address.
    pub open spec fn is_selected(self, address: AddressView) -> bool {
        self.selected matches Some(sc) && sc.address == address
    }

    /// The known connectivity of subchannel `i`.
    pub open spec fn connectivity(self, i: int) -> ConnectivityState {
        self.states[self.subchannels[i].address].connectivity_state
    }

    /// Subchannel `i` has not failed.
    pub open spec fn viable(self, i: int) -> bool {
        self.connectivity(i) != ConnectivityState::TransientFailure
    }

    /// Some subchannel is connecting.
    pub open spec fn any_connecting(self) -> bool {
        exists|i: int|
            0 <= i < self.subchannels.len() && #[trigger] self.connectivity(i)
                == ConnectivityState::Connecting
    }

    /// The first subchannel from `from` on that has not failed, or the end of
    /// the list.
    pub open spec fn first_viable(self, from: int) -> int
        decreases self.subchannels.len() - from,
    {
        if from < 0 || from >= self.subchannels.len() || self.viable(from) {
            from
        } else {
            self.first_viable(from + 1)
        }
    }

    /// The frontier is at a subchannel, not past the list.
    pub open spec fn frontier_in_list(self) -> bool {
        self.frontier_index < self.subchannels.len()
    }

    /// If a pass started now, it would find a subchannel that has not failed, or
    /// an error to report.
    pub open spec fn pass_reportable(self) -> bool {
        ||| self.last_connection_error is Some
        ||| exists|i: int| 0 <= i < self.subchannels.len() && #[trigger] self.viable(i)
    }

    /// The frontier moved to the next subchannel that has not failed, from the
    /// list's start if `reset` is set.
    pub open spec fn advanced(self, reset: bool) -> PolicyView {
        PolicyView {
            frontier_index: self.first_viable(
                if reset {
                    0
                } else {
                    next_index(self.frontier_index)
                },
            ),
            ..self
        }
    }

    /// A new state is published, unless it is connecting again.
    pub open spec fn publish(self, state: ConnectivityState, picker: PickerView) -> Outcome {
        if self.connectivity_state == state && state == ConnectivityState::Connecting {
            Outcome { policy: self, events: Seq::empty() }
        } else {
            Outcome {
                policy: PolicyView { connectivity_state: state, ..self },
                events: seq![
                    LbEventView::UpdatePicker(LbStateView { connectivity_state: state, picker }),
                ],
            }
        }
    }

    /// Requests fail with the given error, or else the last one, and new
    /// addresses are asked for.
    pub open spec fn fail(self, error: Option<Seq<char>>) -> Outcome {
        let message = match error {
            Some(e) => e,
            None => self.last_connection_error->0,
        };
        PolicyView { last_connection_error: Some(message), ..self }.publish(
            ConnectivityState::TransientFailure,
            PickerView::Failing { error: message },
        ).and(LbEventView::RequestResolution)
    }

    /// A connection is started on `sc`, along with a new timer.
    pub open spec fn connect(self, sc: SubchannelView) -> Outcome {
        Outcome {
            policy: PolicyView {
                states: self.states.insert(
                    sc.address,
                    SubchannelStateView {
                        connectivity_state: ConnectivityState::Connecting,
                        last_connection_error: None,
                    },
                ),
                timer: Some(
                    Timer { serial: self.timers_started.wrapping_add(1), expired: false },
                ),
                timers_started: self.timers_started.wrapping_add(1),
                ..self
            },
            events: seq![LbEventView::Connect(sc)],
        }
    }

    /// The selected subchannel was lost: the channel is idle.
    pub open spec fn drop_selected(self) -> Outcome {
        PolicyView { selected: None, ..self }.publish(
            ConnectivityState::Idle,
            PickerView::Idle { triggered_work: false },
        )
    }

    /// `sc` is selected and all other subchannels are let go, unless it is the
    /// selected one already.
    pub open spec fn activate(self, sc: SubchannelView) -> Outcome {
        if self.is_selected(sc.address) {
            Outcome { policy: self, events: Seq::empty() }
        } else {
            PolicyView {
                selected: Some(sc),
                subchannels: seq![sc],
                steady_state: None,
                timer: None,
                ..self
            }.publish(ConnectivityState::Ready, PickerView::OneSubchannel { sc })
        }
    }

    /// A pass through the list starts at the first subchannel that has not
    /// failed. If there is none, requests fail.
    pub open spec fn start_pass(self) -> Outcome {
        let ready = PolicyView { selected: None, ..self }.advanced(true);
        if ready.frontier_in_list() {
            let connecting = ready.connect(ready.subchannels[ready.frontier_index]);
            connecting.policy.publish(
                ConnectivityState::Connecting,
                PickerView::Queuing,
            ).after(connecting.events)
        } else {
            ready.fail(None)
        }
    }

    /// The frontier moves on, and a connection is started there if it is still
    /// in the list.
    pub open spec fn push_frontier(self) -> Outcome {
        let moved = self.advanced(false);
        if moved.frontier_in_list() {
            moved.connect(moved.subchannels[moved.frontier_index])
        } else {
            Outcome { policy: moved, events: Seq::empty() }
        }
    }

    /// The subchannels that are idle, in order.
    pub open spec fn idle_subchannels(self) -> Seq<SubchannelView> {
        self.subchannels.filter(
            |sc: SubchannelView|
                self.states[sc.address].connectivity_state == ConnectivityState::Idle,
        )
    }

    /// The first pass is over: requests fail, steady state begins, and the
    /// subchannels that went idle meanwhile are connected.
    pub open spec fn exhaust(self) -> Outcome {
        let failed = PolicyView { timer: None, ..self }.fail(None);
        Outcome {
            policy: PolicyView {
                steady_state: Some(
                    SteadyState {
                        failure_threshold: self.subchannels.len() as usize,
                        failure_count: 0,
                    },
                ),
                ..failed.policy
            },
            events: failed.events + self.idle_subchannels().map_values(
                |sc: SubchannelView| LbEventView::Connect(sc),
            ),
        }
    }

    /// The frontier's subchannel reported that it failed.
    pub open spec fn frontier_failed(self, address: AddressView, state: ConnectivityState) -> bool {
        &&& state == ConnectivityState::TransientFailure
        &&& self.frontier_in_list()
        &&& self.subchannels[self.frontier_index].address == address
    }

    /// The first pass after its frontier moved on, if it has to.
    pub open spec fn first_pass_moved(
        self,
        address: AddressView,
        state: ConnectivityState,
    ) -> Outcome {
        if self.frontier_failed(address, state) {
            self.push_frontier()
        } else {
            Outcome { policy: self, events: Seq::empty() }
        }
    }

    /// The frontier is past the list and nothing is connecting any more.
    pub open spec fn exhausted(self) -> bool {
        !self.frontier_in_list() && !self.any_connecting()
    }

    /// A report during the first pass is one that the policy can handle: if it
    /// ends the pass, there is an error to report.
    pub open spec fn first_pass_reportable(
        self,
        address: AddressView,
        state: ConnectivityState,
    ) -> bool {
        ||| self.last_connection_error is Some
        ||| !self.first_pass_moved(address, state).policy.exhausted()
    }

    /// During the first pass the subchannel at `address` reported a state other
    /// than ready.
    pub open spec fn first_pass(self, address: AddressView, state: ConnectivityState) -> Outcome {
        let moved = self.first_pass_moved(address, state);
        if moved.policy.exhausted() {
            moved.policy.exhaust().after(moved.events)
        } else {
            moved
        }
    }

    /// In steady state `sc` reported a state other than ready.
    pub open spec fn steady_pass(self, sc: SubchannelView, state: ConnectivityState) -> Outcome {
        let steady = self.steady_state->0;
        Outcome {
            policy: PolicyView { steady_state: Some(steady.told(state)), ..self },
            events: steady.asks(sc, state),
        }
    }

    /// The policy with the report of a subchannel noted: its state, and its
    /// error if it failed with one and is not selected.
    pub open spec fn noted(self, address: AddressView, state: SubchannelStateView) -> PolicyView {
        PolicyView {
            states: self.states.insert(address, state),
            last_connection_error: if !self.is_selected(address) && state.connectivity_state
                == ConnectivityState::TransientFailure && state.last_connection_error is Some {
                state.last_connection_error
            } else {
                self.last_connection_error
            },
            ..self
        }
    }

    /// The subchannel `sc` reported `state`.
    pub open spec fn subchannel_update(
        self,
        sc: SubchannelView,
        state: SubchannelStateView,
    ) -> Outcome {
        let noted = self.noted(sc.address, state);
        let ready = state.connectivity_state == ConnectivityState::Ready;
        if !self.current(sc.address) {
            Outcome { policy: self, events: Seq::empty() }
        } else if self.is_selected(sc.address) {
            if ready {
                Outcome { policy: noted, events: Seq::empty() }
            } else {
                noted.drop_selected()
            }
        } else if ready {
            noted.activate(sc)
        } else if noted.steady_state is Some {
            noted.steady_pass(sc, state.connectivity_state)
        } else {
            noted.first_pass(sc.address, state.connectivity_state)
        }
    }

    /// The report is one that the policy can handle: if it ends the first pass,
    /// there is an error to report.
    pub open spec fn update_reportable(
        self,
        sc: SubchannelView,
        state: SubchannelStateView,
    ) -> bool {
        let noted = self.noted(sc.address, state);
        ||| !self.current(sc.address)
        ||| self.is_selected(sc.address)
        ||| state.connectivity_state == ConnectivityState::Ready
        ||| noted.steady_state is Some
        ||| noted.first_pass_reportable(sc.address, state.connectivity_state)
    }

    /// The timer with this serial number runs.
    pub open spec fn awaits(self, serial: u64) -> bool {
        self.timer matches Some(timer) && timer.serial == serial
    }

    /// The time of the timer with this serial number is up. That matters only if
    /// no other timer has taken its place.
    pub open spec fn timer_fired(self, serial: u64) -> PolicyView {
        if self.awaits(serial) {
            PolicyView { timer: Some(Timer { serial, expired: true }), ..self }
        } else {
            self
        }
    }

    /// The policy was given time to work: an idle one starts to connect, and one
    /// whose timer expired moves its frontier on.
    pub open spec fn work(self) -> Outcome {
        if self.connectivity_state == ConnectivityState::Idle {
            self.start_pass()
        } else if self.timer matches Some(timer) && timer.expired {
            self.push_frontier()
        } else {
            Outcome { policy: self, events: Seq::empty() }
        }
    }

    /// The policy can be given time to work: if it is idle, a pass can start.
    pub open spec fn work_reportable(self) -> bool {
        self.connectivity_state == ConnectivityState::Idle ==> self.pass_reportable()
    }

    /// The policy at the start of a resolver report: no timer runs, and steady
    /// state is over.
    pub open spec fn refreshed(self) -> PolicyView {
        PolicyView { timer: None, steady_state: None, ..self }
    }

    /// The resolver failed: that is reported if the policy has nothing better.
    pub open spec fn resolver_failed(self, error: Seq<char>) -> Outcome {
        if self.fails_with_resolver() {
            self.refreshed().fail(Some(error))
        } else {
            Outcome { policy: self.refreshed(), events: Seq::empty() }
        }
    }

    /// The policy has no subchannels, or requests fail already.
    pub open spec fn fails_with_resolver(self) -> bool {
        self.subchannels.len() == 0 || self.connectivity_state
            == ConnectivityState::TransientFailure
    }

    /// The resolver found no addresses.
    pub open spec fn resolved_nothing(self) -> Outcome {
        PolicyView { subchannels: Seq::empty(), selected: None, ..self.refreshed() }.fail(
            Some(EMPTY_ADDRESS_LIST@),
        )
    }

    /// `entries` are the subchannels of a new list: those that the policy has
    /// already with their known states, and new ones.
    pub open spec fn adopted(self, entries: Seq<EntryView>) -> PolicyView {
        PolicyView {
            subchannels: entry_subchannels(entries),
            states: state_map(entry_states(entries)),
            ..self
        }
    }

    /// The subchannel of a new list that is to be used at once: the selected one
    /// if it is ready, or else the first that is ready.
    pub open spec fn ready_entry(self, entries: Seq<EntryView>) -> Option<SubchannelView> {
        if exists|i: int| 0 <= i < entries.len() && #[trigger] self.sticky(entries[i]) {
            let i = choose|i: int| 0 <= i < entries.len() && #[trigger] self.sticky(entries[i]);
            Some(entries[i].subchannel)
        } else {
            first_ready(entries)
        }
    }

    /// The entry is that of the selected subchannel, and it is ready.
    pub open spec fn sticky(self, entry: EntryView) -> bool {
        self.is_selected(entry.subchannel.address) && entry.is_ready()
    }

    /// The addresses of a list that the policy has no subchannel for, in order.
    pub open spec fn missing(self, addresses: Seq<AddressView>) -> Seq<AddressView> {
        addresses.filter(|a: AddressView| !self.current(a))
    }

    /// What is asked of the channel for a list: a subchannel for each address
    /// that the policy has none for, in order.
    pub open spec fn requests(self, addresses: Seq<AddressView>) -> Seq<LbEventView> {
        self.missing(addresses).map_values(|a: AddressView| LbEventView::NewSubchannel(a))
    }

    /// `made` answers the requests for a list, one answer for each. A list names
    /// each address once.
    pub open spec fn answers(self, addresses: Seq<AddressView>, made: Seq<MadeView>) -> bool {
        &&& addresses.no_duplicates()
        &&& made.len() == self.missing(addresses).len()
    }

    /// The subchannel that the policy has for an address.
    pub open spec fn held(self, address: AddressView) -> SubchannelView {
        let i = choose|i: int|
            0 <= i < self.subchannels.len() && #[trigger] self.subchannels[i].address == address;
        self.subchannels[i]
    }

    /// The subchannels of a list with their states. Those that the policy has are
    /// kept with their known states; the others are the ones that were made, in
    /// the order in which they were asked for.
    pub open spec fn entries(self, addresses: Seq<AddressView>, made: Seq<MadeView>) -> Seq<
        EntryView,
    >
        decreases addresses.len(),
    {
        if addresses.len() == 0 {
            Seq::empty()
        } else {
            let address = addresses.last();
            if self.current(address) {
                self.entries(addresses.drop_last(), made).push(
                    EntryView { subchannel: self.held(address), state: self.states[address] },
                )
            } else {
                self.entries(addresses.drop_last(), made.drop_last()).push(
                    EntryView {
                        subchannel: SubchannelView { id: made.last().id, address },
                        state: made.last().state,
                    },
                )
            }
        }
    }

    /// The resolver found addresses: their missing subchannels are asked for.
    pub open spec fn announced(self, addresses: Seq<AddressView>) -> Outcome {
        Outcome { policy: self.refreshed(), events: self.requests(addresses) }
    }

    /// The missing subchannels of a list were made: the policy switches to it.
    pub open spec fn rebuilt(self, addresses: Seq<AddressView>, made: Seq<MadeView>) -> Outcome {
        self.switched(self.entries(addresses, made))
    }

    /// All that a report with addresses leads to.
    pub open spec fn resolved(self, addresses: Seq<AddressView>, made: Seq<MadeView>) -> Outcome {
        let announced = self.announced(addresses);
        announced.policy.rebuilt(addresses, made).after(announced.events)
    }

    /// The policy switches to a new list: a subchannel that is ready is used, or
    /// else a pass starts.
    pub open spec fn switched(self, entries: Seq<EntryView>) -> Outcome {
        match self.ready_entry(entries) {
            Some(sc) => self.adopted(entries).activate(sc),
            None => self.adopted(entries).start_pass(),
        }
    }

    /// The policy can switch to a new list: it names each address once, and one
    /// of its subchannels has not failed, or there is an error to report.
    pub open spec fn can_switch(self, entries: Seq<EntryView>) -> bool {
        &&& distinct_entries(entries)
        &&& entries.len() <= usize::MAX
        &&& {
            ||| self.last_connection_error is Some
            ||| exists|k: int|
                0 <= k < entries.len() && (#[trigger] entries[k]).state.connectivity_state
                    != ConnectivityState::TransientFailure
        }
    }

    /// `made` answers the requests for a list, and the policy can switch to it.
    pub open spec fn can_take_up(self, addresses: Seq<AddressView>, made: Seq<MadeView>) -> bool {
        &&& self.answers(addresses, made)
        &&& self.can_switch(self.entries(addresses, made))
    }
}

/// A subchannel that was made on request, as specifications speak of it.
#[verifier::ext_equal]
pub struct MadeView {
    pub id: u64,
    pub state: SubchannelStateView,
}

/// A subchannel with its state, as specifications speak of them.
#[verifier::ext_equal]
pub struct EntryView {
    pub subchannel: SubchannelView,
    pub state: SubchannelStateView,
}

impl EntryView {
    /// The subchannel is ready.
    pub open spec fn is_ready(self) -> bool {
        self.state.connectivity_state == ConnectivityState::Ready
    }
}

/// The subchannels of some entries.
pub open spec fn entry_subchannels(entries: Seq<EntryView>) -> Seq<SubchannelView> {
    entries.map_values(|e: EntryView| e.subchannel)
}

/// The addresses of some entries, each with its state.
pub open spec fn entry_states(entries: Seq<EntryView>) -> Seq<(AddressView, SubchannelStateView)> {
    entries.map_values(|e: EntryView| (e.subchannel.address, e.state))
}

/// No two entries have the same address.
pub open spec fn distinct_entries(entries: Seq<EntryView>) -> bool {
    forall|i: int, j: int|
        0 <= i < entries.len() && 0 <= j < entries.len() && i != j ==> (
        #[trigger] entries[i]).subchannel.address != (#[trigger] entries[j]).subchannel.address
}

/// The first entry that is ready.
pub open spec fn first_ready(entries: Seq<EntryView>) -> Option<SubchannelView>
    decreases entries.len(),
{
    if entries.len() == 0 {
        None
    } else {
        match first_ready(entries.drop_last()) {
            Some(sc) => Some(sc),
            None => if entries.last().is_ready() {
                Some(entries.last().subchannel)
            } else {
                None
            },
        }
    }
}

} // verus!
