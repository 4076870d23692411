//! The `pick_first` load-balancing policy: all requests go to the first address
//! that a connection can be made to.

use crate::lb_types::{
    copy_text, subchannel_view, subchannel_views, text_view, ChannelController, ConnectivityState,
    FailingPicker, IdlePicker, LbEvent, LbEventView, LbState, OneSubchannelPicker, Picker,
    QueuingPicker, Subchannel, SubchannelState, SubchannelView,
};
use crate::pick_first_lemmas::{
    law_frontier_skips_failed, law_timer_keeps_invariant, law_update_keeps_invariant,
    law_work_keeps_invariant, lemma_moved_listed, lemma_noted_listed, lemma_pass_keeps_invariant,
    lemma_same_connecting,
};
use crate::pick_first_spec::{next_index, PolicyView, Shuffler, SteadyState, Timer};
use crate::state_cache::StateCache;
use crate::time::Duration;
use vstd::prelude::*;

verus! {

/// The policy's name in service configs.
pub const POLICY_NAME: &'static str = "pick_first";

/// How long the policy waits for a connection before it tries the next address
/// as well, in milliseconds.
pub const CONNECTION_DELAY_MILLIS: u64 = 250;

/// The policy's options in a service config.
#[derive(Clone, Copy, Debug)]
pub struct PickFirstConfig {
    /// Whether endpoints are shuffled before their addresses are tried.
    pub shuffle_address_list: bool,
}

/// Makes policies.
#[derive(Clone, Copy, Debug)]
pub struct PickFirstBuilder {}

/// The policy's state.
#[derive(Debug)]
pub struct PickFirstPolicy {
    /// What was last published.
    pub connectivity_state: ConnectivityState,
    /// The subchannels of the address list, in the order in which they are tried.
    pub subchannels: Vec<Subchannel>,
    /// The last known states of subchannels.
    pub subchannel_states: StateCache,
    /// The subchannel that requests go to.
    pub selected: Option<Subchannel>,
    /// The last subchannel on which a connection was started.
    pub frontier_index: usize,
    /// The last error of a subchannel that was not selected.
    pub last_connection_error: Option<String>,
    /// How endpoints are shuffled.
    pub shuffler: Shuffler,
    /// The timer of the last connection that was started.
    pub timer: Option<Timer>,
    /// How many timers were started, modulo the type's range.
    pub timers_started: u64,
    /// Set while all addresses have failed.
    pub steady_state: Option<SteadyState>,
}

impl View for PickFirstPolicy {
    type V = PolicyView;

    open spec fn view(&self) -> PolicyView {
        PolicyView {
            connectivity_state: self.connectivity_state,
            subchannels: subchannel_views(self.subchannels@),
            states: self.subchannel_states@,
            selected: subchannel_view(self.selected),
            frontier_index: self.frontier_index as int,
            last_connection_error: text_view(self.last_connection_error),
            shuffler: self.shuffler,
            timer: self.timer,
            timers_started: self.timers_started,
            steady_state: self.steady_state,
        }
    }
}

impl PickFirstBuilder {
    /// A policy that has had no input yet.
    pub fn build(&self) -> (policy: PickFirstPolicy)
        ensures
            policy@ == PolicyView::initial(),
            policy@.wf(),
    {
        let policy = PickFirstPolicy {
            connectivity_state: ConnectivityState::Idle,
            subchannels: Vec::new(),
            subchannel_states: StateCache::new(),
            selected: None,
            frontier_index: 0,
            last_connection_error: None,
            shuffler: Shuffler::Random,
            timer: None,
            timers_started: 0,
            steady_state: None,
        };
        assert(policy@ =~= PolicyView::initial());
        policy
    }

    /// The name of the policy.
    pub fn name(&self) -> (name: &'static str)
        ensures
            name@ == POLICY_NAME@,
    {
        POLICY_NAME
    }
}

impl Timer {
    /// A timer that has just been started.
    pub fn start(serial: u64) -> (timer: Timer)
        ensures
            timer == (Timer { serial, expired: false }),
    {
        Timer { serial, expired: false }
    }

    /// Whether the timer's time is up.
    pub fn expired(&self) -> (expired: bool)
        ensures
            expired == self.expired,
    {
        self.expired
    }

    /// After how long a timer expires.
    pub fn delay() -> (delay: Duration)
        ensures
            delay.nanos == CONNECTION_DELAY_MILLIS * 1_000_000,
    {
        Duration::from_millis(CONNECTION_DELAY_MILLIS)
    }
}

impl SteadyState {
    /// A count that starts now.
    pub fn new(threshold: usize) -> (steady: SteadyState)
        ensures
            steady == (SteadyState { failure_threshold: threshold, failure_count: 0 }),
            steady.wf(),
    {
        SteadyState { failure_threshold: threshold, failure_count: 0 }
    }

    /// Handles the report of a subchannel that is not ready: one that is idle is
    /// connected again, and failures are counted until new addresses are due.
    pub fn subchannel_nonready(
        &mut self,
        controller: &mut ChannelController,
        subchannel: Subchannel,
        state: &SubchannelState,
    )
        requires
            old(self).wf(),
        ensures
            *final(self) == old(self).told(state.connectivity_state),
            final(self).wf(),
            final(controller)@ == old(controller)@ + old(self).asks(
                subchannel@,
                state.connectivity_state,
            ),
    {
        match state.connectivity_state {
            ConnectivityState::Idle => {
                controller.emit(LbEvent::Connect(subchannel));
            },
            ConnectivityState::TransientFailure => {
                self.failure_count = self.failure_count + 1;
                if self.failure_count >= self.failure_threshold {
                    self.failure_count = 0;
                    controller.emit(LbEvent::RequestResolution);
                }
            },
            _ => {},
        }
    }
}

impl PickFirstPolicy {
    /// Publishes a new state, but not connecting twice in a row.
    pub fn update_picker(
        &mut self,
        connectivity_state: ConnectivityState,
        picker: Picker,
        controller: &mut ChannelController,
    )
        ensures
            final(self)@ == old(self)@.publish(connectivity_state, picker@).policy,
            final(controller)@ == old(controller)@ + old(self)@.publish(
                connectivity_state,
                picker@,
            ).events,
    {
        if self.connectivity_state == connectivity_state && connectivity_state
            == ConnectivityState::Connecting {
            return;
        }
        self.connectivity_state = connectivity_state;
        controller.emit(LbEvent::UpdatePicker(LbState { connectivity_state, picker }));
    }

    /// Fails requests with `error`, or else the last known one, and asks for new
    /// addresses. Returns the error.
    pub fn set_transient_failure(
        &mut self,
        controller: &mut ChannelController,
        error: Option<String>,
    ) -> (result: Result<(), String>)
        requires
            error is Some || old(self)@.last_connection_error is Some,
        ensures
            final(self)@ == old(self)@.fail(text_view(error)).policy,
            final(controller)@ == old(controller)@ + old(self)@.fail(text_view(error)).events,
            result is Err,
            Some(result->Err_0@) == final(self)@.last_connection_error,
    {
        if let Some(e) = error {
            self.last_connection_error = Some(e);
        }
        let message: String = match &self.last_connection_error {
            Some(e) => e.clone(),
            None => String::new(),
        };
        self.update_picker(
            ConnectivityState::TransientFailure,
            Picker::Failing(FailingPicker { error: message.clone() }),
            controller,
        );
        controller.emit(LbEvent::RequestResolution);
        Err(message)
    }

    /// Lets go of the selected subchannel, which lost its connection. The
    /// channel becomes idle.
    pub fn subchannel_drop(&mut self, controller: &mut ChannelController)
        ensures
            final(self)@ == old(self)@.drop_selected().policy,
            final(controller)@ == old(controller)@ + old(self)@.drop_selected().events,
    {
        self.selected = None;
        self.update_picker(
            ConnectivityState::Idle,
            Picker::Idle(IdlePicker::new()),
            controller,
        );
    }

    /// Whether `subchannel` has the address of the selected one.
    pub fn subchannel_is_selected(&self, subchannel: &Subchannel) -> (selected: bool)
        ensures
            selected == self@.is_selected(subchannel@.address),
    {
        match &self.selected {
            Some(sc) => sc.address == subchannel.address,
            None => false,
        }
    }

    /// Whether `subchannel` has the address of one in the list.
    pub fn subchannel_is_current(&self, subchannel: &Subchannel) -> (current: bool)
        ensures
            current == self@.current(subchannel@.address),
    {
        for k in 0..self.subchannels.len()
            invariant
                forall|j: int|
                    0 <= j < k ==> #[trigger] self@.subchannels[j].address != subchannel@.address,
        {
            assert(self@.subchannels[k as int] == self.subchannels@[k as int]@);
            if self.subchannels[k].address == subchannel.address {
                assert(self@.subchannels[k as int].address == subchannel@.address);
                return true;
            }
        }
        false
    }

    /// Selects `subchannel`, which is ready, and lets go of all others.
    pub fn subchannel_activate(
        &mut self,
        subchannel: Subchannel,
        controller: &mut ChannelController,
    )
        ensures
            final(self)@ == old(self)@.activate(subchannel@).policy,
            final(controller)@ == old(controller)@ + old(self)@.activate(subchannel@).events,
    {
        if self.subchannel_is_selected(&subchannel) {
            return;
        }
        self.selected = Some(subchannel.clone());
        let mut winner: Vec<Subchannel> = Vec::new();
        winner.push(subchannel.clone());
        self.subchannels = winner;
        self.steady_state = None;
        self.timer = None;
        assert(subchannel_views(self.subchannels@) =~= seq![subchannel@]);
        self.update_picker(
            ConnectivityState::Ready,
            Picker::OneSubchannel(OneSubchannelPicker { sc: subchannel }),
            controller,
        );
    }

    /// Moves the frontier to the next subchannel that has not failed, from the
    /// list's start if `reset` is set, and returns that subchannel.
    pub fn advance_frontier(&mut self, reset: bool) -> (next: Option<Subchannel>)
        requires
            old(self)@.listed(),
        ensures
            final(self)@ == old(self)@.advanced(reset),
            final(self)@.listed(),
            match next {
                Some(sc) => {
                    &&& final(self)@.frontier_in_list()
                    &&& sc@ == final(self)@.subchannels[final(self)@.frontier_index]
                },
                None => !final(self)@.frontier_in_list(),
            },
    {
        if reset {
            self.frontier_index = 0;
        } else if self.frontier_index < usize::MAX {
            self.frontier_index = self.frontier_index + 1;
        }
        let ghost start = self.frontier_index as int;
        while self.frontier_index < self.subchannels.len()
            invariant
                old(self)@.listed(),
                start == if reset {
                    0
                } else {
                    next_index(old(self)@.frontier_index)
                },
                self@ == (PolicyView { frontier_index: self.frontier_index as int, ..old(self)@ }),
                old(self)@.first_viable(self.frontier_index as int) == old(self)@.first_viable(
                    start,
                ),
            decreases self.subchannels.len() - self.frontier_index,
        {
            let sc = &self.subchannels[self.frontier_index];
            assert(self@.subchannels[self.frontier_index as int] == sc@);
            match self.subchannel_states.get(&sc.address) {
                Some(state) if state.connectivity_state != ConnectivityState::TransientFailure => {
                    assert(old(self)@.viable(self.frontier_index as int));
                    return Some(sc.clone());
                },
                _ => {},
            }
            self.frontier_index = self.frontier_index + 1;
        }
        None
    }

    /// Starts a connection on `sc`, along with the timer after which the next
    /// address is tried as well.
    pub fn trigger_subchannel_connection(
        &mut self,
        sc: Subchannel,
        controller: &mut ChannelController,
    )
        ensures
            final(self)@ == old(self)@.connect(sc@).policy,
            final(controller)@ == old(controller)@ + old(self)@.connect(sc@).events,
    {
        self.subchannel_states.insert(
            sc.address.clone(),
            SubchannelState {
                connectivity_state: ConnectivityState::Connecting,
                last_connection_error: None,
            },
        );
        controller.emit(LbEvent::Connect(sc));
        self.timers_started = self.timers_started.wrapping_add(1);
        self.timer = Some(Timer::start(self.timers_started));
    }

    /// Starts a pass through the list at its first subchannel that has not
    /// failed. If there is none, requests fail. No subchannel is selected then.
    pub fn start_connection_pass(&mut self, controller: &mut ChannelController)
        requires
            old(self)@.listed(),
            old(self)@.pass_reportable(),
        ensures
            final(self)@ == old(self)@.start_pass().policy,
            final(controller)@ == old(controller)@ + old(self)@.start_pass().events,
    {
        self.selected = None;
        proof {
            law_frontier_skips_failed(self@, true);
            if old(self)@.last_connection_error is None {
                let i = choose|i: int|
                    0 <= i < old(self)@.subchannels.len() && #[trigger] old(self)@.viable(i);
                assert(self@.viable(i));
            }
        }
        match self.advance_frontier(true) {
            Some(sc) => {
                self.trigger_subchannel_connection(sc, controller);
                self.update_picker(
                    ConnectivityState::Connecting,
                    Picker::Queuing(QueuingPicker {  }),
                    controller,
                );
            },
            None => {
                let _ = self.set_transient_failure(controller, None);
            },
        }
    }

    /// Whether some subchannel of the list is connecting.
    fn is_any_connecting(&self) -> (connecting: bool)
        requires
            self@.listed(),
        ensures
            connecting == self@.any_connecting(),
    {
        for k in 0..self.subchannels.len()
            invariant
                self@.listed(),
                forall|j: int|
                    0 <= j < k ==> #[trigger] self@.connectivity(j)
                        != ConnectivityState::Connecting,
        {
            let sc = &self.subchannels[k];
            assert(self@.subchannels[k as int] == sc@);
            match self.subchannel_states.get(&sc.address) {
                Some(state) if state.connectivity_state == ConnectivityState::Connecting => {
                    assert(self@.connectivity(k as int) == ConnectivityState::Connecting);
                    return true;
                },
                _ => {},
            }
        }
        false
    }

    /// Connects all subchannels of the list that are idle.
    fn connect_idle(&self, controller: &mut ChannelController)
        requires
            self@.listed(),
        ensures
            final(controller)@ == old(controller)@ + self@.idle_subchannels().map_values(
                |sc: SubchannelView| LbEventView::Connect(sc),
            ),
    {
        let ghost views = self@.subchannels;
        let ghost idle = |sc: SubchannelView|
            self@.states[sc.address].connectivity_state == ConnectivityState::Idle;
        let ghost connect = |sc: SubchannelView| LbEventView::Connect(sc);
        proof {
            reveal(Seq::filter);
        }
        for k in 0..self.subchannels.len()
            invariant
                self@.listed(),
                views == self@.subchannels,
                idle == (|sc: SubchannelView|
                    self@.states[sc.address].connectivity_state == ConnectivityState::Idle),
                connect == (|sc: SubchannelView| LbEventView::Connect(sc)),
                controller@ == old(controller)@ + views.take(k as int).filter(idle).map_values(
                    connect,
                ),
        {
            let sc = &self.subchannels[k];
            let ghost done = views.take(k as int).filter(idle);
            proof {
                reveal(Seq::filter);
                assert(views[k as int] == sc@);
                assert(views.take(k + 1).drop_last() =~= views.take(k as int));
                assert(views.take(k + 1).last() == sc@);
                assert(done.push(sc@).map_values(connect) =~= done.map_values(connect).push(
                    LbEventView::Connect(sc@),
                ));
            }
            match self.subchannel_states.get(&sc.address) {
                Some(state) if state.connectivity_state == ConnectivityState::Idle => {
                    controller.emit(LbEvent::Connect(sc.clone()));
                },
                _ => {},
            }
        }
        assert(views.take(views.len() as int) =~= views);
    }

    /// Handles the report of a subchannel that is not ready during the first
    /// pass. If it is the frontier's and failed, the next subchannel is tried.
    /// Once all have failed, requests fail and steady state begins.
    pub fn update_first_pass(
        &mut self,
        subchannel: Subchannel,
        state: &SubchannelState,
        controller: &mut ChannelController,
    )
        requires
            old(self)@.listed(),
            old(self)@.first_pass_reportable(subchannel@.address, state.connectivity_state),
        ensures
            final(self)@ == old(self)@.first_pass(
                subchannel@.address,
                state.connectivity_state,
            ).policy,
            final(controller)@ == old(controller)@ + old(self)@.first_pass(
                subchannel@.address,
                state.connectivity_state,
            ).events,
    {
        if self.frontier_index < self.subchannels.len() {
            assert(self@.subchannels[self.frontier_index as int]
                == self.subchannels@[self.frontier_index as int]@);
            if self.subchannels[self.frontier_index].address == subchannel.address
                && state.connectivity_state == ConnectivityState::TransientFailure {
                match self.advance_frontier(false) {
                    Some(next) => {
                        self.trigger_subchannel_connection(next, controller);
                    },
                    None => {},
                }
            }
        }
        let ghost moved = old(self)@.first_pass_moved(subchannel@.address, state.connectivity_state);
        proof {
            lemma_moved_listed(old(self)@, subchannel@.address, state.connectivity_state);
        }
        assert(self@ == moved.policy);
        assert(controller@ == old(controller)@ + moved.events);
        if self.frontier_index >= self.subchannels.len() && !self.is_any_connecting() {
            self.timer = None;
            let error = copy_text(&self.last_connection_error);
            let _ = self.set_transient_failure(controller, error);
            self.steady_state = Some(SteadyState::new(self.subchannels.len()));
            self.connect_idle(controller);
            assert(self@.idle_subchannels() =~= moved.policy.idle_subchannels());
            assert(self@ == moved.policy.exhaust().policy);
            assert(controller@ == old(controller)@ + old(self)@.first_pass(
                subchannel@.address,
                state.connectivity_state,
            ).events);
        }
    }

    /// Handles the report of a subchannel. One that is not in the list is
    /// ignored; one that is ready is selected; and the channel becomes idle when
    /// the selected one is no longer ready. All else is progress of the first
    /// pass or of steady state.
    pub fn subchannel_update(
        &mut self,
        subchannel: Subchannel,
        state: &SubchannelState,
        controller: &mut ChannelController,
    )
        requires
            old(self)@.wf(),
            old(self)@.update_reportable(subchannel@, state@),
        ensures
            final(self)@ == old(self)@.subchannel_update(subchannel@, state@).policy,
            final(controller)@ == old(controller)@ + old(self)@.subchannel_update(
                subchannel@,
                state@,
            ).events,
            final(self)@.wf(),
    {
        proof {
            law_update_keeps_invariant(old(self)@, subchannel@, state@);
        }
        if !self.subchannel_is_current(&subchannel) {
            return;
        }
        self.subchannel_states.insert(subchannel.address.clone(), state.clone());
        let ready: bool = state.connectivity_state == ConnectivityState::Ready;
        if self.subchannel_is_selected(&subchannel) {
            if !ready {
                self.subchannel_drop(controller);
            }
        } else if ready {
            self.subchannel_activate(subchannel, controller);
        } else {
            if state.connectivity_state == ConnectivityState::TransientFailure {
                if let Some(error) = &state.last_connection_error {
                    self.last_connection_error = Some(error.clone());
                }
            }
            proof {
                lemma_noted_listed(old(self)@, subchannel@.address, state@);
            }
            assert(self@ == old(self)@.noted(subchannel@.address, state@));
            match self.steady_state {
                Some(mut steady) => {
                    steady.subchannel_nonready(controller, subchannel, state);
                    self.steady_state = Some(steady);
                },
                None => {
                    self.update_first_pass(subchannel, state, controller);
                },
            }
        }
    }

    /// Notes that the timer with this serial number has expired. Returns whether
    /// work is to be scheduled on that account, which is not so if another timer
    /// has taken its place.
    pub fn timer_fired(&mut self, serial: u64) -> (schedule: bool)
        requires
            old(self)@.wf(),
        ensures
            schedule == old(self)@.awaits(serial),
            final(self)@ == old(self)@.timer_fired(serial),
            final(self)@.wf(),
    {
        let awaited: bool = match &self.timer {
            Some(timer) => timer.serial == serial,
            None => false,
        };
        if awaited {
            self.timer = Some(Timer { serial, expired: true });
            proof {
                law_timer_keeps_invariant(old(self)@, serial);
            }
        }
        awaited
    }

    /// Does scheduled work: connects if the channel is idle, and tries the next
    /// address if the timer has expired.
    pub fn work(&mut self, controller: &mut ChannelController)
        requires
            old(self)@.wf(),
            old(self)@.work_reportable(),
        ensures
            final(self)@ == old(self)@.work().policy,
            final(controller)@ == old(controller)@ + old(self)@.work().events,
            final(self)@.wf(),
    {
        proof {
            law_work_keeps_invariant(old(self)@);
        }
        if self.connectivity_state == ConnectivityState::Idle {
            self.exit_idle(controller);
        } else {
            let expired: bool = match &self.timer {
                Some(timer) => timer.expired(),
                None => false,
            };
            if expired {
                match self.advance_frontier(false) {
                    Some(next) => {
                        self.trigger_subchannel_connection(next, controller);
                    },
                    None => {},
                }
            }
        }
    }

    /// Starts a pass through the list, also if the channel is not idle.
    pub fn exit_idle(&mut self, controller: &mut ChannelController)
        requires
            old(self)@.wf(),
            old(self)@.pass_reportable(),
        ensures
            final(self)@ == old(self)@.start_pass().policy,
            final(controller)@ == old(controller)@ + old(self)@.start_pass().events,
            final(self)@.wf(),
    {
        proof {
            lemma_pass_keeps_invariant(old(self)@);
        }
        self.start_connection_pass(controller);
    }

    /// The connectivity of a listed subchannel once a report is noted.
    fn noted_connectivity(
        &self,
        k: usize,
        subchannel: &Subchannel,
        state: &SubchannelState,
    ) -> (connectivity: ConnectivityState)
        requires
            self@.listed(),
            k < self.subchannels@.len(),
        ensures
            connectivity == self@.noted(subchannel@.address, state@).connectivity(k as int),
    {
        let sc = &self.subchannels[k];
        assert(self@.subchannels[k as int] == sc@);
        if sc.address == subchannel.address {
            return state.connectivity_state;
        }
        match self.subchannel_states.get(&sc.address) {
            Some(known) => known.connectivity_state,
            None => ConnectivityState::Idle,
        }
    }

    /// Whether the policy can handle the report of a subchannel. It cannot if
    /// that ends the first pass and no subchannel has told an error.
    pub fn can_update(&self, subchannel: &Subchannel, state: &SubchannelState) -> (can: bool)
        requires
            self@.wf(),
        ensures
            can == self@.update_reportable(subchannel@, state@),
    {
        if !self.subchannel_is_current(subchannel) || self.subchannel_is_selected(subchannel)
            || state.connectivity_state == ConnectivityState::Ready || self.steady_state.is_some()
            || self.last_connection_error.is_some() || (state.connectivity_state
            == ConnectivityState::TransientFailure && state.last_connection_error.is_some()) {
            return true;
        }
        let ghost noted = self@.noted(subchannel@.address, state@);
        let failed: bool = if self.frontier_index < self.subchannels.len() {
            assert(self@.subchannels[self.frontier_index as int]
                == self.subchannels@[self.frontier_index as int]@);
            self.subchannels[self.frontier_index].address == subchannel.address
                && state.connectivity_state == ConnectivityState::TransientFailure
        } else {
            false
        };
        let mut going: bool = !failed && self.frontier_index < self.subchannels.len();
        for k in 0..self.subchannels.len()
            invariant
                self@.listed(),
                noted == self@.noted(subchannel@.address, state@),
                going <==> {
                    ||| !failed && self.frontier_index < self.subchannels.len()
                    ||| exists|j: int|
                        0 <= j < k && #[trigger] noted.connectivity(j)
                            == ConnectivityState::Connecting
                    ||| exists|j: int|
                        0 <= j < k && failed && j > self.frontier_index && #[trigger] noted.viable(
                            j,
                        )
                },
        {
            let connectivity = self.noted_connectivity(k, subchannel, state);
            if connectivity == ConnectivityState::Connecting {
                assert(noted.connectivity(k as int) == ConnectivityState::Connecting);
                going = true;
            } else if failed && k > self.frontier_index && connectivity
                != ConnectivityState::TransientFailure {
                assert(noted.viable(k as int));
                going = true;
            }
        }
        proof {
            lemma_noted_listed(self@, subchannel@.address, state@);
            let moved = noted.first_pass_moved(subchannel@.address, state.connectivity_state).policy;
            assert(failed == noted.frontier_failed(subchannel@.address, state.connectivity_state));
            if failed {
                law_frontier_skips_failed(noted, false);
                let next = noted.advanced(false);
                if next.frontier_in_list() {
                    assert(noted.viable(next.frontier_index));
                    assert(going);
                } else {
                    lemma_same_connecting(noted, moved);
                }
            }
            assert(going == !moved.exhausted());
        }
        going
    }

    /// Whether a pass has something to report: a subchannel that has not failed,
    /// or an error.
    pub fn can_exit_idle(&self) -> (can: bool)
        requires
            self@.wf(),
        ensures
            can == self@.pass_reportable(),
    {
        if self.last_connection_error.is_some() {
            return true;
        }
        for k in 0..self.subchannels.len()
            invariant
                self@.wf(),
                forall|j: int| 0 <= j < k ==> !#[trigger] self@.viable(j),
        {
            let sc = &self.subchannels[k];
            assert(self@.subchannels[k as int] == sc@);
            match self.subchannel_states.get(&sc.address) {
                Some(state) if state.connectivity_state != ConnectivityState::TransientFailure => {
                    assert(self@.viable(k as int));
                    return true;
                },
                _ => {},
            }
        }
        false
    }

    /// Whether scheduled work can be done: if it starts a pass, that has
    /// something to report.
    pub fn can_work(&self) -> (can: bool)
        requires
            self@.wf(),
        ensures
            can == self@.work_reportable(),
    {
        self.connectivity_state != ConnectivityState::Idle || self.can_exit_idle()
    }
}

} // verus!
