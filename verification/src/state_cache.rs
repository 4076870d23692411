//! The last known state of each subchannel, by address.

use crate::lb_types::{SubchannelState, SubchannelStateView};
use crate::name_resolution::{Address, AddressView};
use vstd::prelude::*;

verus! {

/// Pairs of address and state as a map. Of two pairs with the same address the
/// later one counts.
pub open spec fn state_map(pairs: Seq<(AddressView, SubchannelStateView)>) -> Map<
    AddressView,
    SubchannelStateView,
>
    decreases pairs.len(),
{
    if pairs.len() == 0 {
        Map::empty()
    } else {
        state_map(pairs.drop_last()).insert(pairs.last().0, pairs.last().1)
    }
}

/// States of subchannels, found by address.
#[derive(Debug)]
pub struct StateCache {
    pairs: Vec<(Address, SubchannelState)>,
}

impl View for StateCache {
    type V = Map<AddressView, SubchannelStateView>;

    closed spec fn view(&self) -> Map<AddressView, SubchannelStateView> {
        state_map(self.pair_views())
    }
}

impl StateCache {
    spec fn pair_views(&self) -> Seq<(AddressView, SubchannelStateView)> {
        self.pairs@.map_values(|p: (Address, SubchannelState)| (p.0@, p.1@))
    }

    /// A cache that knows of no subchannel.
    pub fn new() -> (cache: StateCache)
        ensures
            cache@ == Map::<AddressView, SubchannelStateView>::empty(),
    {
        StateCache { pairs: Vec::new() }
    }

    /// Where the cache has `address`, if it has it.
    fn position(&self, address: &Address) -> (position: Option<usize>)
        ensures
            match position {
                Some(i) => {
                    &&& i < self.pairs@.len()
                    &&& self.pairs@[i as int].0@ == address@
                    &&& self@.dom().contains(address@)
                    &&& self@[address@] == self.pairs@[i as int].1@
                    &&& forall|j: int|
                        i < j < self.pairs@.len() ==> (#[trigger] self.pairs@[j]).0@ != address@
                },
                None => !self@.dom().contains(address@),
            },
    {
        let ghost views = self.pair_views();
        let mut i: usize = self.pairs.len();
        while i > 0
            invariant
                views == self.pair_views(),
                i <= self.pairs@.len(),
                forall|j: int|
                    i <= j < self.pairs@.len() ==> (#[trigger] self.pairs@[j]).0@ != address@,
            decreases i,
        {
            i = i - 1;
            if self.pairs[i].0 == *address {
                proof {
                    assert forall|j: int| i < j < views.len() implies (#[trigger] views[j]).0
                        != address@ by {
                        assert(views[j] == (self.pairs@[j].0@, self.pairs@[j].1@));
                    }
                    lemma_last_pair(views, i as int);
                }
                return Some(i);
            }
        }
        proof {
            assert forall|j: int| 0 <= j < views.len() implies (#[trigger] views[j]).0
                != address@ by {
                assert(views[j] == (self.pairs@[j].0@, self.pairs@[j].1@));
            }
            lemma_no_pair(views, address@);
        }
        None
    }

    /// The state that is known for `address`, if any.
    pub fn get(&self, address: &Address) -> (state: Option<&SubchannelState>)
        ensures
            state is Some <==> self@.dom().contains(address@),
            state matches Some(s) ==> s@ == self@[address@],
    {
        match self.position(address) {
            Some(i) => Some(&self.pairs[i].1),
            None => None,
        }
    }

    /// Keeps `state` for `address`, in place of what was known.
    pub fn insert(&mut self, address: Address, state: SubchannelState)
        ensures
            final(self)@ == old(self)@.insert(address@, state@),
    {
        let ghost views = self.pair_views();
        match self.position(&address) {
            Some(i) => {
                proof {
                    assert forall|j: int| i < j < views.len() implies (#[trigger] views[j]).0
                        != address@ by {
                        assert(views[j] == (self.pairs@[j].0@, self.pairs@[j].1@));
                    }
                    lemma_replace_pair(views, i as int, address@, state@);
                }
                self.pairs[i] = (address, state);
                assert(self.pair_views() =~= views.update(i as int, (address@, state@)));
            },
            None => {
                self.pairs.push((address, state));
                assert(self.pair_views() =~= views.push((address@, state@)));
                assert(self.pair_views().drop_last() =~= views);
            },
        }
    }
}

proof fn lemma_no_pair(pairs: Seq<(AddressView, SubchannelStateView)>, address: AddressView)
    requires
        forall|j: int| 0 <= j < pairs.len() ==> (#[trigger] pairs[j]).0 != address,
    ensures
        !state_map(pairs).dom().contains(address),
    decreases pairs.len(),
{
    if pairs.len() > 0 {
        assert(pairs[pairs.len() - 1].0 != address);
        assert forall|j: int| 0 <= j < pairs.drop_last().len() implies (
        #[trigger] pairs.drop_last()[j]).0 != address by {
            assert(pairs.drop_last()[j] == pairs[j]);
        }
        lemma_no_pair(pairs.drop_last(), address);
    }
}

proof fn lemma_last_pair(pairs: Seq<(AddressView, SubchannelStateView)>, i: int)
    requires
        0 <= i < pairs.len(),
        forall|j: int| i < j < pairs.len() ==> (#[trigger] pairs[j]).0 != pairs[i].0,
    ensures
        state_map(pairs).dom().contains(pairs[i].0),
        state_map(pairs)[pairs[i].0] == pairs[i].1,
    decreases pairs.len(),
{
    if i < pairs.len() - 1 {
        let front = pairs.drop_last();
        assert(pairs[pairs.len() - 1].0 != pairs[i].0);
        assert forall|j: int| i < j < front.len() implies (#[trigger] front[j]).0
            != front[i].0 by {
            assert(front[j] == pairs[j]);
        }
        lemma_last_pair(front, i);
    }
}

proof fn lemma_replace_pair(
    pairs: Seq<(AddressView, SubchannelStateView)>,
    i: int,
    address: AddressView,
    state: SubchannelStateView,
)
    requires
        0 <= i < pairs.len(),
        pairs[i].0 == address,
        forall|j: int| i < j < pairs.len() ==> (#[trigger] pairs[j]).0 != address,
    ensures
        state_map(pairs.update(i, (address, state))) == state_map(pairs).insert(address, state),
    decreases pairs.len(),
{
    let front = pairs.drop_last();
    let changed = pairs.update(i, (address, state));
    if i < pairs.len() - 1 {
        assert(pairs[pairs.len() - 1].0 != address);
        assert forall|j: int| i < j < front.len() implies (#[trigger] front[j]).0 != address by {
            assert(front[j] == pairs[j]);
        }
        lemma_replace_pair(front, i, address, state);
        assert(changed.drop_last() =~= front.update(i, (address, state)));
        assert(changed.last() == pairs.last());
        assert(state_map(changed) =~= state_map(pairs).insert(address, state));
    } else {
        assert(changed.drop_last() =~= front);
        assert(state_map(changed) =~= state_map(pairs).insert(address, state));
    }
}

} // verus!
