//! How the `pick_first` policy takes up the reports of the name resolver.

use crate::address_laws::{
    law_each_address_once, law_no_address_lost, law_shuffling_keeps_addresses,
};
use crate::address_list::{compile_endpoints, compiled};
use crate::lb_types::{
    subchannel_view, subchannel_views, ChannelController, ConnectivityState, LbEvent, LbEventView,
    Subchannel, SubchannelState, SubchannelView,
};
use crate::name_resolution::{
    address_views, endpoint_views, Address, AddressView, Endpoint, ResolverUpdate,
};
use crate::pick_first::{PickFirstConfig, PickFirstPolicy};
use crate::pick_first_lemmas::{
    law_empty_report_keeps_invariant, law_resolver_failure_keeps_invariant,
    law_switch_keeps_invariant, lemma_adopted_listed, lemma_entries_distinct, lemma_missing_step,
    lemma_refreshed_keeps_invariant,
};
use crate::pick_first_spec::{
    distinct_entries, entry_states, entry_subchannels, EntryView, MadeView, PolicyView, Shuffler,
    EMPTY_ADDRESS_LIST,
};
use crate::state_cache::{state_map, StateCache};
use rand::seq::SliceRandom;
use vstd::prelude::*;

verus! {

/// A subchannel of a new list with its state.
#[derive(Debug)]
struct SubchannelEntry {
    subchannel: Subchannel,
    state: SubchannelState,
}

impl View for SubchannelEntry {
    type V = EntryView;

    closed spec fn view(&self) -> EntryView {
        EntryView { subchannel: self.subchannel@, state: self.state@ }
    }
}

/// A subchannel that the channel made on request: which one it is, and its state.
#[derive(Debug)]
pub struct MadeSubchannel {
    pub id: u64,
    pub state: SubchannelState,
}

impl View for MadeSubchannel {
    type V = MadeView;

    open spec fn view(&self) -> MadeView {
        MadeView { id: self.id, state: self.state@ }
    }
}

/// The subchannels of a vector, as specifications speak of them.
pub open spec fn made_views(made: Seq<MadeSubchannel>) -> Seq<MadeView> {
    made.map_values(|m: MadeSubchannel| m@)
}

/// How far the handling of a resolver's report has come.
#[derive(Debug)]
pub enum ResolverStep {
    /// The report is handled, with this result.
    Handled(Result<(), String>),
    /// This is the new list. Its missing subchannels were asked for; once they
    /// are made, the policy goes on with `subchannels_made`.
    NewList(Vec<Address>),
}

/// The entries of a vector, as specifications speak of them.
spec fn entry_views(entries: Seq<SubchannelEntry>) -> Seq<EntryView> {
    entries.map_values(|e: SubchannelEntry| e@)
}

/// Puts endpoints in a random order with `SliceRandom::shuffle` and the thread's
/// generator from `rand::rng`. All that is claimed is that the endpoints are the
/// same ones; which order comes out is left to chance.
#[verifier::external_body]
fn shuffle_randomly(endpoints: Vec<Endpoint>) -> (order: Vec<Endpoint>)
    ensures
        endpoint_views(order@).to_multiset() == endpoint_views(endpoints@).to_multiset(),
{
    let mut order = endpoints;
    order.shuffle(&mut rand::rng());
    order
}

/// `order` is what a random shuffle of the endpoints gives.
pub closed spec fn shuffle_gives(
    endpoints: Seq<Seq<AddressView>>,
    order: Seq<Seq<AddressView>>,
) -> bool {
    exists|given: Vec<Endpoint>, shuffled: Vec<Endpoint>|
        {
            &&& #[trigger] call_ensures(shuffle_randomly, (given,), shuffled)
            &&& endpoint_views(given@) == endpoints
            &&& endpoint_views(shuffled@) == order
        }
}

/// `order` is an order in which endpoints may be taken: the given one if they are
/// not shuffled.
pub open spec fn shuffled(
    shuffler: Shuffler,
    enabled: bool,
    endpoints: Seq<Seq<AddressView>>,
    order: Seq<Seq<AddressView>>,
) -> bool {
    if !enabled {
        order == endpoints
    } else {
        match shuffler {
            Shuffler::Random => {
                &&& shuffle_gives(endpoints, order)
                &&& order.to_multiset() == endpoints.to_multiset()
            },
            Shuffler::Reverse => order == endpoints.reverse(),
        }
    }
}

/// The config turns shuffling on.
pub open spec fn shuffles(config: Option<&PickFirstConfig>) -> bool {
    config matches Some(c) && c.shuffle_address_list
}

/// The endpoints have no addresses.
pub open spec fn no_addresses(endpoints: Seq<Seq<AddressView>>) -> bool {
    forall|i: int| 0 <= i < endpoints.len() ==> (#[trigger] endpoints[i]).len() == 0
}

/// Endpoints from back to front.
fn reversed(endpoints: Vec<Endpoint>) -> (back: Vec<Endpoint>)
    ensures
        endpoint_views(back@) == endpoint_views(endpoints@).reverse(),
{
    let ghost given = endpoints@;
    let mut rest = endpoints;
    let mut back: Vec<Endpoint> = Vec::new();
    while rest.len() > 0
        invariant
            rest@.len() + back@.len() == given.len(),
            rest@ == given.take(rest@.len() as int),
            forall|i: int|
                0 <= i < back@.len() ==> #[trigger] back@[i] == given[given.len() - 1 - i],
        decreases rest.len(),
    {
        match rest.pop() {
            Some(endpoint) => {
                back.push(endpoint);
            },
            None => {},
        }
    }
    assert(endpoint_views(back@) =~= endpoint_views(given).reverse());
    back
}

impl PickFirstPolicy {
    /// The addresses of a report in the order in which they are tried: endpoints
    /// are shuffled if the config says so, each address counts once, and the
    /// address families take turns.
    pub fn compile_address(
        &self,
        endpoints: Vec<Endpoint>,
        config: Option<&PickFirstConfig>,
    ) -> (addresses: Vec<Address>)
        ensures
            exists|order: Seq<Seq<AddressView>>|
                {
                    &&& #[trigger] shuffled(
                        self.shuffler,
                        shuffles(config),
                        endpoint_views(endpoints@),
                        order,
                    )
                    &&& address_views(addresses@) == compiled(order)
                },
    {
        let ghost given = endpoint_views(endpoints@);
        let enabled: bool = match config {
            Some(c) => c.shuffle_address_list,
            None => false,
        };
        let order: Vec<Endpoint> = if !enabled {
            endpoints
        } else {
            match self.shuffler {
                Shuffler::Random => {
                    let shuffle = shuffle_randomly;
                    let order = shuffle(endpoints);
                    assert(call_ensures(shuffle_randomly, (endpoints,), order));
                    assert(shuffle_gives(given, endpoint_views(order@)));
                    order
                },
                Shuffler::Reverse => reversed(endpoints),
            }
        };
        assert(shuffled(self.shuffler, shuffles(config), given, endpoint_views(order@)));
        compile_endpoints(&order)
    }

    /// The subchannel of the list that has this address.
    fn find_subchannel(&self, address: &Address) -> (found: Option<&Subchannel>)
        ensures
            match found {
                Some(sc) => sc@.address == address@ && self@.subchannels.contains(sc@)
                    && self@.current(address@),
                None => !self@.current(address@),
            },
    {
        for k in 0..self.subchannels.len()
            invariant
                forall|j: int|
                    0 <= j < k ==> #[trigger] self@.subchannels[j].address != address@,
        {
            let sc = &self.subchannels[k];
            assert(self@.subchannels[k as int] == sc@);
            if sc.address == *address {
                assert(self@.subchannels[k as int].address == address@);
                return Some(sc);
            }
        }
        None
    }

    /// Asks the channel for a subchannel for each address that the policy has
    /// none for.
    fn request_missing(&self, addresses: &Vec<Address>, controller: &mut ChannelController)
        ensures
            final(controller)@ == old(controller)@ + self@.requests(address_views(addresses@)),
    {
        let ghost views = address_views(addresses@);
        let ghost ask = |a: AddressView| LbEventView::NewSubchannel(a);
        assert(self@.missing(views.take(0)) =~= Seq::empty()) by {
            reveal(Seq::filter);
        }
        for k in 0..addresses.len()
            invariant
                views == address_views(addresses@),
                ask == (|a: AddressView| LbEventView::NewSubchannel(a)),
                controller@ == old(controller)@ + self@.missing(views.take(k as int)).map_values(
                    ask,
                ),
        {
            let address = &addresses[k];
            proof {
                let done = self@.missing(views.take(k as int));
                assert(views[k as int] == address@);
                lemma_missing_step(self@, views, k as int);
                assert(done.push(address@).map_values(ask) =~= done.map_values(ask).push(
                    LbEventView::NewSubchannel(address@),
                ));
            }
            if self.find_subchannel(address).is_none() {
                controller.emit(LbEvent::NewSubchannel(address.clone()));
            }
        }
        assert(views.take(addresses.len() as int) =~= views);
    }

    /// The subchannels of a list with their states: those that the policy has,
    /// and those that were made.
    fn merge_entries(&self, addresses: &Vec<Address>, made: &Vec<MadeSubchannel>) -> (entries: Vec<
        SubchannelEntry,
    >)
        requires
            self@.listed(),
            self@.missing(address_views(addresses@)).len() == made@.len(),
        ensures
            entry_views(entries@) == self@.entries(address_views(addresses@), made_views(made@)),
    {
        let ghost views = address_views(addresses@);
        let ghost answers = made_views(made@);
        let mut entries: Vec<SubchannelEntry> = Vec::new();
        let mut used: usize = 0;
        assert(self@.missing(views.take(0)) =~= Seq::empty()) by {
            reveal(Seq::filter);
        }
        for k in 0..addresses.len()
            invariant
                self@.listed(),
                views == address_views(addresses@),
                answers == made_views(made@),
                self@.missing(views).len() == made@.len(),
                used == self@.missing(views.take(k as int)).len(),
                used <= made@.len(),
                entry_views(entries@) == self@.entries(
                    views.take(k as int),
                    answers.take(used as int),
                ),
        {
            let address = &addresses[k];
            let ghost before = entry_views(entries@);
            let ghost had = used as int;
            proof {
                assert(views[k as int] == address@);
                assert(views.take(k + 1).drop_last() =~= views.take(k as int));
                assert(views.take(k + 1).last() == address@);
                lemma_missing_step(self@, views, k as int);
                lemma_missing_within(self@, views, k + 1);
            }
            match self.find_subchannel(address) {
                Some(sc) => {
                    proof {
                        lemma_held(self@, sc@);
                    }
                    if let Some(state) = self.subchannel_states.get(address) {
                        entries.push(
                            SubchannelEntry { subchannel: sc.clone(), state: state.clone() },
                        );
                    }
                },
                None => {
                    let answer = &made[used];
                    assert(answers[used as int] == answer@);
                    entries.push(
                        SubchannelEntry {
                            subchannel: Subchannel { id: answer.id, address: address.clone() },
                            state: answer.state.clone(),
                        },
                    );
                    used = used + 1;
                    assert(answers.take(used as int).drop_last() =~= answers.take(had));
                    assert(answers.take(used as int).last() == answer@);
                },
            }
            assert(entry_views(entries@) =~= before.push(entries@.last()@));
        }
        assert(views.take(addresses.len() as int) =~= views);
        assert(answers.take(used as int) =~= answers);
        entries
    }

    /// Takes over a new list. Returns the subchannel that is to be used at once:
    /// the selected one if it is ready, or else the first that is ready.
    fn adopt_entries(&mut self, entries: Vec<SubchannelEntry>) -> (ready: Option<
        Subchannel,
    >)
        requires
            distinct_entries(entry_views(entries@)),
        ensures
            final(self)@ == old(self)@.adopted(entry_views(entries@)),
            subchannel_view(ready) == old(self)@.ready_entry(entry_views(entries@)),
    {
        let ghost views = entry_views(entries@);
        let ghost policy = self@;
        let mut subchannels: Vec<Subchannel> = Vec::new();
        let mut states = StateCache::new();
        let mut ready: Option<Subchannel> = None;
        for k in 0..entries.len()
            invariant
                policy == self@,
                views == entry_views(entries@),
                distinct_entries(views),
                subchannel_views(subchannels@) == entry_subchannels(views.take(k as int)),
                states@ == state_map(entry_states(views.take(k as int))),
                subchannel_view(ready) == policy.ready_entry(views.take(k as int)),
        {
            let entry = &entries[k];
            let ghost seen = views.take(k as int);
            let ghost had = subchannels@;
            proof {
                let more = views.take(k + 1);
                assert(views[k as int] == entry@);
                assert(more =~= seen.push(entry@));
                assert(entry_states(more) =~= entry_states(seen).push(
                    (entry@.subchannel.address, entry@.state),
                ));
                assert(entry_states(more).drop_last() =~= entry_states(seen));
                assert(entry_subchannels(more) =~= entry_subchannels(seen).push(entry@.subchannel));
                lemma_next_ready_entry(policy, views, k as int);
            }
            if entry.state.connectivity_state == ConnectivityState::Ready {
                if self.subchannel_is_selected(&entry.subchannel) || ready.is_none() {
                    ready = Some(entry.subchannel.clone());
                }
            }
            subchannels.push(entry.subchannel.clone());
            states.insert(entry.subchannel.address.clone(), entry.state.clone());
            assert(subchannel_views(subchannels@) =~= subchannel_views(had).push(
                entry@.subchannel,
            ));
        }
        assert(views.take(entries.len() as int) =~= views);
        self.subchannels = subchannels;
        self.subchannel_states = states;
        ready
    }

    /// Takes over a new list whose missing subchannels were made. Returns the
    /// subchannel that is to be used at once: the selected one if it is ready, or
    /// else the first that is ready.
    pub fn rebuild_subchannels(
        &mut self,
        new_addresses: Vec<Address>,
        made: Vec<MadeSubchannel>,
    ) -> (ready: Option<Subchannel>)
        requires
            old(self)@.wf(),
            old(self)@.answers(address_views(new_addresses@), made_views(made@)),
        ensures
            ({
                let entries = old(self)@.entries(
                    address_views(new_addresses@),
                    made_views(made@),
                );
                &&& final(self)@ == old(self)@.adopted(entries)
                &&& subchannel_view(ready) == old(self)@.ready_entry(entries)
            }),
    {
        proof {
            lemma_entries_distinct(self@, address_views(new_addresses@), made_views(made@));
        }
        let entries = self.merge_entries(&new_addresses, &made);
        self.adopt_entries(entries)
    }

    /// Whether the policy can switch to a new list.
    fn can_switch(&self, entries: &Vec<SubchannelEntry>) -> (can: bool)
        requires
            distinct_entries(entry_views(entries@)),
        ensures
            can == self@.can_switch(entry_views(entries@)),
    {
        if self.last_connection_error.is_some() {
            return true;
        }
        for k in 0..entries.len()
            invariant
                distinct_entries(entry_views(entries@)),
                forall|j: int|
                    0 <= j < k ==> (
                    #[trigger] entry_views(entries@)[j]).state.connectivity_state
                        == ConnectivityState::TransientFailure,
        {
            assert(entry_views(entries@)[k as int] == entries@[k as int]@);
            if entries[k].state.connectivity_state != ConnectivityState::TransientFailure {
                return true;
            }
        }
        false
    }

    /// Whether `made` answers the requests for a new list, and the policy can
    /// switch to it. It cannot if all subchannels have failed already and there
    /// is no error to report.
    pub fn can_take_up(&self, new_addresses: &Vec<Address>, made: &Vec<MadeSubchannel>) -> (can: bool)
        requires
            self@.wf(),
        ensures
            can == self@.can_take_up(address_views(new_addresses@), made_views(made@)),
    {
        let ghost views = address_views(new_addresses@);
        if !each_once(new_addresses) {
            return false;
        }
        let mut missing: usize = 0;
        assert(self@.missing(views.take(0)) =~= Seq::empty()) by {
            reveal(Seq::filter);
        }
        for k in 0..new_addresses.len()
            invariant
                views == address_views(new_addresses@),
                missing == self@.missing(views.take(k as int)).len(),
                missing <= k,
        {
            proof {
                assert(views[k as int] == new_addresses@[k as int]@);
                lemma_missing_step(self@, views, k as int);
            }
            if self.find_subchannel(&new_addresses[k]).is_none() {
                missing = missing + 1;
            }
        }
        assert(views.take(new_addresses.len() as int) =~= views);
        if missing != made.len() {
            return false;
        }
        proof {
            lemma_entries_distinct(self@, views, made_views(made@));
        }
        let entries = self.merge_entries(new_addresses, made);
        self.can_switch(&entries)
    }

    /// Goes on with a new list once its missing subchannels were made: a
    /// subchannel that is ready is used, or else a pass starts.
    pub fn subchannels_made(
        &mut self,
        new_addresses: Vec<Address>,
        made: Vec<MadeSubchannel>,
        controller: &mut ChannelController,
    )
        requires
            old(self)@.wf(),
            old(self)@.can_take_up(address_views(new_addresses@), made_views(made@)),
        ensures
            ({
                let outcome = old(self)@.rebuilt(
                    address_views(new_addresses@),
                    made_views(made@),
                );
                &&& final(self)@ == outcome.policy
                &&& final(controller)@ == old(controller)@ + outcome.events
            }),
            final(self)@.wf(),
    {
        proof {
            let entries = self@.entries(address_views(new_addresses@), made_views(made@));
            law_switch_keeps_invariant(self@, entries);
            lemma_adopted_listed(self@, entries);
        }
        match self.rebuild_subchannels(new_addresses, made) {
            Some(ready) => {
                self.subchannel_activate(ready, controller);
            },
            None => {
                self.start_connection_pass(controller);
            },
        }
    }

    /// Handles a report of the name resolver. For new addresses the channel is
    /// asked for subchannels, and the list is handed out: the policy goes on with
    /// [`Self::subchannels_made`]. A report without addresses makes requests
    /// fail, and so does a failure of the resolver if the policy has nothing
    /// better; both are returned as errors.
    pub fn resolver_update(
        &mut self,
        update: ResolverUpdate,
        config: Option<&PickFirstConfig>,
        controller: &mut ChannelController,
    ) -> (step: ResolverStep)
        requires
            old(self)@.wf(),
        ensures
            final(self)@.wf(),
            match update.endpoints {
                Ok(endpoints) => {
                    &&& step is Handled <==> no_addresses(endpoint_views(endpoints@))
                    &&& exists|order: Seq<Seq<AddressView>>|
                        {
                            &&& #[trigger] shuffled(
                                old(self)@.shuffler,
                                shuffles(config),
                                endpoint_views(endpoints@),
                                order,
                            )
                            &&& handles(
                                old(self)@,
                                compiled(order),
                                old(controller)@,
                                final(self)@,
                                final(controller)@,
                                step,
                            )
                        }
                },
                Err(error) => {
                    &&& final(self)@ == old(self)@.resolver_failed(error@).policy
                    &&& final(controller)@ == old(controller)@ + old(self)@.resolver_failed(
                        error@,
                    ).events
                    &&& step matches ResolverStep::Handled(result) && {
                        &&& result is Err <==> old(self)@.fails_with_resolver()
                        &&& result matches Err(message) ==> message@ == error@
                    }
                },
            },
    {
        let ghost policy = self@;
        self.timer = None;
        self.steady_state = None;
        assert(self@ == policy.refreshed());
        proof {
            lemma_refreshed_keeps_invariant(policy);
        }
        match update.endpoints {
            Ok(endpoints) => {
                let ghost given = endpoint_views(endpoints@);
                let addresses = self.compile_address(endpoints, config);
                let ghost order = choose|order: Seq<Seq<AddressView>>|
                    {
                        &&& #[trigger] shuffled(self.shuffler, shuffles(config), given, order)
                        &&& address_views(addresses@) == compiled(order)
                    };
                proof {
                    lemma_order_has_addresses(policy.shuffler, shuffles(config), given, order);
                    law_each_address_once(order);
                }
                if addresses.len() == 0 {
                    assert(address_views(addresses@).len() == 0);
                    self.subchannels = Vec::new();
                    self.selected = None;
                    assert(subchannel_views(self.subchannels@) =~= Seq::empty());
                    let result = self.set_transient_failure(
                        controller,
                        Some(EMPTY_ADDRESS_LIST.to_owned()),
                    );
                    proof {
                        law_empty_report_keeps_invariant(policy);
                    }
                    return ResolverStep::Handled(result);
                }
                assert(address_views(addresses@).len() != 0);
                proof {
                    lemma_same_missing(policy, policy.refreshed(), compiled(order));
                }
                self.request_missing(&addresses, controller);
                ResolverStep::NewList(addresses)
            },
            Err(error) => {
                proof {
                    law_resolver_failure_keeps_invariant(policy, error@);
                }
                if self.subchannels.len() == 0 || self.connectivity_state
                    == ConnectivityState::TransientFailure {
                    return ResolverStep::Handled(
                        self.set_transient_failure(controller, Some(error)),
                    );
                }
                ResolverStep::Handled(Ok(()))
            },
        }
    }
}

/// What a report's addresses lead to. Where there are some, the list is handed
/// out, each address once.
pub open spec fn handles(
    policy: PolicyView,
    addresses: Seq<AddressView>,
    asked: Seq<LbEventView>,
    after: PolicyView,
    asked_after: Seq<LbEventView>,
    step: ResolverStep,
) -> bool {
    if addresses.len() == 0 {
        &&& after == policy.resolved_nothing().policy
        &&& asked_after == asked + policy.resolved_nothing().events
        &&& step matches ResolverStep::Handled(Err(message)) && message@ == EMPTY_ADDRESS_LIST@
    } else {
        &&& after == policy.announced(addresses).policy
        &&& asked_after == asked + policy.announced(addresses).events
        &&& step matches ResolverStep::NewList(list) && address_views(list@) == addresses
        &&& addresses.no_duplicates()
    }
}

/// Whether no address is named twice.
fn each_once(addresses: &Vec<Address>) -> (once: bool)
    ensures
        once == address_views(addresses@).no_duplicates(),
{
    let ghost views = address_views(addresses@);
    for i in 0..addresses.len()
        invariant
            views == address_views(addresses@),
            forall|a: int, b: int| 0 <= a < i && a < b < views.len() ==> views[a] != views[b],
    {
        assert(views[i as int] == addresses@[i as int]@);
        for j in i + 1..addresses.len()
            invariant
                views == address_views(addresses@),
                i < views.len(),
                views[i as int] == addresses@[i as int]@,
                forall|b: int| i < b < j ==> views[i as int] != views[b],
        {
            assert(views[j as int] == addresses@[j as int]@);
            if addresses[i] == addresses[j] {
                return false;
            }
        }
    }
    true
}

/// What the next entry of a list makes of the subchannel to be used at once.
proof fn lemma_next_ready_entry(policy: PolicyView, entries: Seq<EntryView>, k: int)
    requires
        distinct_entries(entries),
        0 <= k < entries.len(),
    ensures
        policy.ready_entry(entries.take(k + 1)) == (if entries[k].is_ready() && (policy.is_selected(
            entries[k].subchannel.address,
        ) || policy.ready_entry(entries.take(k)) is None) {
            Some(entries[k].subchannel)
        } else {
            policy.ready_entry(entries.take(k))
        }),
{
    let seen = entries.take(k);
    let more = entries.take(k + 1);
    assert(more.drop_last() =~= seen);
    assert(more.last() == entries[k]);
    assert(more[k] == entries[k]);
    assert forall|i: int| 0 <= i < k implies more[i] == seen[i] && seen[i] == entries[i] by {}
    if policy.sticky(entries[k]) {
        assert(policy.sticky(more[k]));
        let i = choose|i: int| 0 <= i < more.len() && #[trigger] policy.sticky(more[i]);
        assert(entries[i].subchannel.address == entries[k].subchannel.address);
        assert(i == k);
    } else if exists|i: int| 0 <= i < seen.len() && #[trigger] policy.sticky(seen[i]) {
        let i = choose|i: int| 0 <= i < seen.len() && #[trigger] policy.sticky(seen[i]);
        assert(policy.sticky(more[i]));
        let j = choose|j: int| 0 <= j < more.len() && #[trigger] policy.sticky(more[j]);
        assert(j < k);
        assert(entries[i].subchannel.address == entries[j].subchannel.address);
        assert(i == j);
    } else {
        assert forall|i: int| 0 <= i < more.len() implies !#[trigger] policy.sticky(more[i]) by {
            if i < k {
                assert(!policy.sticky(seen[i]));
            }
        }
    }
}

/// An order of endpoints has the addresses of the endpoints.
pub proof fn lemma_order_has_addresses(
    shuffler: Shuffler,
    enabled: bool,
    endpoints: Seq<Seq<AddressView>>,
    order: Seq<Seq<AddressView>>,
)
    requires
        shuffled(shuffler, enabled, endpoints, order),
    ensures
        compiled(order).len() == 0 <==> no_addresses(endpoints),
        forall|i: int, a: AddressView|
            0 <= i < endpoints.len() && #[trigger] endpoints[i].contains(a) ==> compiled(
                order,
            ).contains(a),
{
    if enabled && shuffler == Shuffler::Reverse {
        endpoints.lemma_reverse_to_multiset();
    }
    assert(order.to_multiset() == endpoints.to_multiset());
    assert forall|i: int, a: AddressView|
        0 <= i < endpoints.len() && #[trigger] endpoints[i].contains(a) implies compiled(
        order,
    ).contains(a) by {
        law_no_address_lost(endpoints, a);
        law_shuffling_keeps_addresses(endpoints, order, a);
    }
    if !no_addresses(endpoints) {
        let i = choose|i: int| 0 <= i < endpoints.len() && (#[trigger] endpoints[i]).len() != 0;
        assert(endpoints[i].contains(endpoints[i][0]));
    }
    if compiled(order).len() != 0 {
        let a = compiled(order)[0];
        law_shuffling_keeps_addresses(endpoints, order, a);
        law_no_address_lost(endpoints, a);
    }
}

/// Which addresses are missing depends on the list of subchannels alone.
proof fn lemma_same_missing(left: PolicyView, right: PolicyView, addresses: Seq<AddressView>)
    requires
        left.subchannels == right.subchannels,
    ensures
        left.missing(addresses) == right.missing(addresses),
{
    let missing_left = |a: AddressView| !left.current(a);
    let missing_right = |a: AddressView| !right.current(a);
    assert forall|a: AddressView| #[trigger] missing_left(a) == missing_right(a) by {
        lemma_same_current(left, right, a);
        lemma_same_current(right, left, a);
    }
    assert(missing_left =~= missing_right);
}

proof fn lemma_same_current(left: PolicyView, right: PolicyView, a: AddressView)
    requires
        left.subchannels == right.subchannels,
    ensures
        left.current(a) ==> right.current(a),
{
    if left.current(a) {
        let i = choose|i: int|
            0 <= i < left.subchannels.len() && #[trigger] left.subchannels[i].address == a;
        assert(right.subchannels[i].address == a);
    }
}

/// No more addresses are missing at a list's start than in all of it.
proof fn lemma_missing_within(policy: PolicyView, addresses: Seq<AddressView>, k: int)
    requires
        0 <= k <= addresses.len(),
    ensures
        policy.missing(addresses.take(k)).len() <= policy.missing(addresses).len(),
    decreases addresses.len() - k,
{
    if k < addresses.len() {
        lemma_missing_step(policy, addresses, k);
        lemma_missing_within(policy, addresses, k + 1);
    } else {
        assert(addresses.take(k) =~= addresses);
    }
}

/// A subchannel of the list is the one that the policy has for its address.
proof fn lemma_held(policy: PolicyView, sc: SubchannelView)
    requires
        policy.listed(),
        policy.subchannels.contains(sc),
    ensures
        policy.held(sc.address) == sc,
{
    let k = policy.subchannels.index_of(sc);
    assert(policy.subchannels[k].address == sc.address);
    let i = choose|i: int|
        0 <= i < policy.subchannels.len() && #[trigger] policy.subchannels[i].address == sc.address;
    assert(policy.subchannels[i].address == policy.subchannels[k].address);
    assert(i == k);
}

} // verus!
