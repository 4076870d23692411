//! What a load-balancing policy and its channel exchange.

use crate::name_resolution::{Address, AddressView};
use vstd::prelude::*;

verus! {

/// Connectivity of a channel or a subchannel.
#[derive(Clone, Copy, Debug, PartialEq, Eq, Structural)]
pub enum ConnectivityState {
    Idle,
    Connecting,
    Ready,
    TransientFailure,
}

/// An optional text, as specifications speak of it.
pub open spec fn text_view(text: Option<String>) -> Option<Seq<char>> {
    match text {
        Some(t) => Some(t@),
        None => None,
    }
}

/// A copy of an optional text.
pub fn copy_text(text: &Option<String>) -> (copy: Option<String>)
    ensures
        copy == *text,
{
    match text {
        Some(t) => Some(t.clone()),
        None => None,
    }
}

/// A subchannel's state, as specifications speak of it.
#[verifier::ext_equal]
pub struct SubchannelStateView {
    pub connectivity_state: ConnectivityState,
    pub last_connection_error: Option<Seq<char>>,
}

/// A subchannel's connectivity and its last error.
#[derive(Debug)]
pub struct SubchannelState {
    pub connectivity_state: ConnectivityState,
    pub last_connection_error: Option<String>,
}

impl View for SubchannelState {
    type V = SubchannelStateView;

    open spec fn view(&self) -> SubchannelStateView {
        SubchannelStateView {
            connectivity_state: self.connectivity_state,
            last_connection_error: text_view(self.last_connection_error),
        }
    }
}

impl Clone for SubchannelState {
    fn clone(&self) -> (copy: SubchannelState)
        ensures
            copy == *self,
    {
        SubchannelState {
            connectivity_state: self.connectivity_state,
            last_connection_error: copy_text(&self.last_connection_error),
        }
    }
}

/// A subchannel, as specifications speak of it.
#[verifier::ext_equal]
pub struct SubchannelView {
    pub id: u64,
    pub address: AddressView,
}

/// A handle of a subchannel: which one the channel made, and for which address.
#[derive(Debug)]
pub struct Subchannel {
    pub id: u64,
    pub address: Address,
}

impl View for Subchannel {
    type V = SubchannelView;

    open spec fn view(&self) -> SubchannelView {
        SubchannelView { id: self.id, address: self.address@ }
    }
}

impl Clone for Subchannel {
    fn clone(&self) -> (copy: Subchannel)
        ensures
            copy == *self,
    {
        Subchannel { id: self.id, address: self.address.clone() }
    }
}

/// An optional subchannel, as specifications speak of it.
pub open spec fn subchannel_view(subchannel: Option<Subchannel>) -> Option<SubchannelView> {
    match subchannel {
        Some(sc) => Some(sc@),
        None => None,
    }
}

/// The subchannels of a vector, as specifications speak of them.
pub open spec fn subchannel_views(subchannels: Seq<Subchannel>) -> Seq<SubchannelView> {
    subchannels.map_values(|sc: Subchannel| sc@)
}

/// A successful pick: the subchannel to send the request on, and what to add to
/// the request's metadata.
#[derive(Debug)]
pub struct Pick {
    pub subchannel: Subchannel,
    pub metadata: Vec<(String, String)>,
}

/// What a picker decides about a request.
#[derive(Debug)]
pub enum PickResult {
    /// Send it.
    Pick(Pick),
    /// Keep it until there is a new picker.
    Queue,
    /// Fail it with this message.
    Fail(String),
}

/// Queues every request.
#[derive(Debug)]
pub struct QueuingPicker {}

/// Fails every request.
#[derive(Debug)]
pub struct FailingPicker {
    pub error: String,
}

/// Sends every request on one subchannel.
#[derive(Debug)]
pub struct OneSubchannelPicker {
    pub sc: Subchannel,
}

/// Queues every request, and asks for work at the first one.
#[derive(Debug)]
pub struct IdlePicker {
    pub triggered_work: bool,
}

impl QueuingPicker {
    /// Decides about a request.
    pub fn pick(&self) -> (result: PickResult)
        ensures
            result is Queue,
    {
        PickResult::Queue
    }
}

impl FailingPicker {
    /// Decides about a request.
    pub fn pick(&self) -> (result: PickResult)
        ensures
            result matches PickResult::Fail(message) && message@ == self.error@,
    {
        PickResult::Fail(self.error.clone())
    }
}

impl OneSubchannelPicker {
    /// Decides about a request.
    pub fn pick(&self) -> (result: PickResult)
        ensures
            result matches PickResult::Pick(pick) && pick.subchannel@ == self.sc@
                && pick.metadata@.len() == 0,
    {
        PickResult::Pick(Pick { subchannel: self.sc.clone(), metadata: Vec::new() })
    }
}

impl IdlePicker {
    /// A picker that has not asked for work yet.
    pub fn new() -> (picker: IdlePicker)
        ensures
            !picker.triggered_work,
    {
        IdlePicker { triggered_work: false }
    }

    /// Decides about a request. The second result tells whether the policy's
    /// work is to be scheduled, which is so for the first request only.
    pub fn pick(&mut self) -> (result: (PickResult, bool))
        ensures
            result.0 is Queue,
            result.1 == !old(self).triggered_work,
            final(self).triggered_work,
    {
        let schedule: bool = !self.triggered_work;
        self.triggered_work = true;
        (PickResult::Queue, schedule)
    }
}

/// A picker, as specifications speak of it.
#[verifier::ext_equal]
pub enum PickerView {
    Queuing,
    Failing { error: Seq<char> },
    OneSubchannel { sc: SubchannelView },
    Idle { triggered_work: bool },
}

/// Any of the pickers.
#[derive(Debug)]
pub enum Picker {
    Queuing(QueuingPicker),
    Failing(FailingPicker),
    OneSubchannel(OneSubchannelPicker),
    Idle(IdlePicker),
}

impl View for Picker {
    type V = PickerView;

    open spec fn view(&self) -> PickerView {
        match *self {
            Picker::Queuing(_) => PickerView::Queuing,
            Picker::Failing(picker) => PickerView::Failing { error: picker.error@ },
            Picker::OneSubchannel(picker) => PickerView::OneSubchannel { sc: picker.sc@ },
            Picker::Idle(picker) => PickerView::Idle { triggered_work: picker.triggered_work },
        }
    }
}

impl Picker {
    /// Decides about a request. The second result tells whether the policy's
    /// work is to be scheduled.
    pub fn pick(&mut self) -> (result: (PickResult, bool))
        ensures
            match old(self)@ {
                PickerView::Queuing => result.0 is Queue && !result.1 && final(self)@ == old(self)@,
                PickerView::Failing { error } => (result.0 matches PickResult::Fail(message)
                    && message@ == error) && !result.1 && final(self)@ == old(self)@,
                PickerView::OneSubchannel { sc } => (result.0 matches PickResult::Pick(pick)
                    && pick.subchannel@ == sc && pick.metadata@.len() == 0) && !result.1
                    && final(self)@ == old(self)@,
                PickerView::Idle { triggered_work } => result.0 is Queue && result.1
                    == !triggered_work && final(self)@ == (PickerView::Idle {
                    triggered_work: true,
                }),
            },
    {
        match self {
            Picker::Queuing(picker) => (picker.pick(), false),
            Picker::Failing(picker) => (picker.pick(), false),
            Picker::OneSubchannel(picker) => (picker.pick(), false),
            Picker::Idle(picker) => picker.pick(),
        }
    }
}

/// A published state, as specifications speak of it.
#[verifier::ext_equal]
pub struct LbStateView {
    pub connectivity_state: ConnectivityState,
    pub picker: PickerView,
}

/// What a policy publishes: its connectivity and how to pick.
#[derive(Debug)]
pub struct LbState {
    pub connectivity_state: ConnectivityState,
    pub picker: Picker,
}

impl View for LbState {
    type V = LbStateView;

    open spec fn view(&self) -> LbStateView {
        LbStateView { connectivity_state: self.connectivity_state, picker: self.picker@ }
    }
}

/// A request to the channel, as specifications speak of it.
#[verifier::ext_equal]
pub enum LbEventView {
    NewSubchannel(AddressView),
    Connect(SubchannelView),
    UpdatePicker(LbStateView),
    RequestResolution,
}

/// Something that a policy asks of its channel.
#[derive(Debug)]
pub enum LbEvent {
    /// Make a subchannel for this address.
    NewSubchannel(Address),
    /// Connect this subchannel.
    Connect(Subchannel),
    /// Use this state from now on.
    UpdatePicker(LbState),
    /// Ask the name resolver again.
    RequestResolution,
}

impl View for LbEvent {
    type V = LbEventView;

    open spec fn view(&self) -> LbEventView {
        match *self {
            LbEvent::NewSubchannel(address) => LbEventView::NewSubchannel(address@),
            LbEvent::Connect(sc) => LbEventView::Connect(sc@),
            LbEvent::UpdatePicker(state) => LbEventView::UpdatePicker(state@),
            LbEvent::RequestResolution => LbEventView::RequestResolution,
        }
    }
}

/// The policy's side of its channel: what it asked for, in order, and what the
/// channel still has to do.
#[derive(Debug)]
pub struct ChannelController {
    pub events: Vec<LbEvent>,
}

impl View for ChannelController {
    type V = Seq<LbEventView>;

    open spec fn view(&self) -> Seq<LbEventView> {
        self.events@.map_values(|e: LbEvent| e@)
    }
}

impl ChannelController {
    /// A controller that was asked for nothing.
    pub fn new() -> (controller: ChannelController)
        ensures
            controller@ == Seq::<LbEventView>::empty(),
    {
        let controller = ChannelController { events: Vec::new() };
        assert(controller@ =~= Seq::<LbEventView>::empty());
        controller
    }

    /// Asks for one more thing.
    pub fn emit(&mut self, event: LbEvent)
        ensures
            final(self)@ == old(self)@.push(event@),
    {
        self.events.push(event);
        assert(self@ =~= old(self)@.push(event@));
    }
}

} // verus!
