//! What holds of every compiled address list.

use crate::address_list::{
    compiled, family, flattened, interleaved, lemma_push_contains, lemma_unique_contains, longest,
    of_family, turn, unique, Family,
};
use crate::name_resolution::AddressView;
use vstd::prelude::*;

verus! {

/// Dropping repetitions leaves none.
proof fn lemma_unique_no_duplicates(addresses: Seq<AddressView>)
    ensures
        unique(addresses).no_duplicates(),
    decreases addresses.len(),
{
    if addresses.len() > 0 {
        let front = addresses.drop_last();
        lemma_unique_no_duplicates(front);
        lemma_unique_contains(front, addresses.last());
    }
}

/// A family has those addresses of a list that belong to it.
proof fn lemma_family_contains(addresses: Seq<AddressView>, wanted: Family, a: AddressView)
    ensures
        of_family(addresses, wanted).contains(a) <==> addresses.contains(a) && family(a) == wanted,
    decreases addresses.len(),
{
    reveal(Seq::filter);
    if addresses.len() > 0 {
        let front = addresses.drop_last();
        lemma_family_contains(front, wanted, a);
        assert(addresses =~= front.push(addresses.last()));
        lemma_push_contains(front, addresses.last(), a);
        lemma_push_contains(of_family(front, wanted), addresses.last(), a);
    }
}

proof fn lemma_family_no_duplicates(addresses: Seq<AddressView>, wanted: Family)
    requires
        addresses.no_duplicates(),
    ensures
        of_family(addresses, wanted).no_duplicates(),
    decreases addresses.len(),
{
    reveal(Seq::filter);
    if addresses.len() > 0 {
        let front = addresses.drop_last();
        let last = addresses.last();
        lemma_family_no_duplicates(front, wanted);
        lemma_family_contains(front, wanted, last);
        assert(!front.contains(last)) by {
            if front.contains(last) {
                let i = front.index_of(last);
                assert(addresses[i] == addresses[addresses.len() - 1]);
            }
        }
    }
}

/// One of the first `rounds` addresses of a list.
spec fn within(addresses: Seq<AddressView>, rounds: int, a: AddressView) -> bool {
    exists|k: int| 0 <= k < rounds && k < addresses.len() && #[trigger] addresses[k] == a
}

proof fn lemma_within_step(addresses: Seq<AddressView>, rounds: int, a: AddressView)
    requires
        rounds >= 0,
    ensures
        within(addresses, rounds + 1, a) <==> within(addresses, rounds, a) || turn(
            addresses,
            rounds,
        ).contains(a),
{
    let one = turn(addresses, rounds);
    if one.contains(a) {
        let i = one.index_of(a);
        assert(one[i] == addresses[rounds]);
    }
    if within(addresses, rounds + 1, a) && !within(addresses, rounds, a) {
        let k = choose|k: int|
            0 <= k < rounds + 1 && k < addresses.len() && #[trigger] addresses[k] == a;
        assert(k == rounds);
        assert(one[0] == a);
    }
}

proof fn lemma_append_contains(front: Seq<AddressView>, back: Seq<AddressView>, a: AddressView)
    ensures
        (front + back).contains(a) <==> front.contains(a) || back.contains(a),
{
    let all = front + back;
    if front.contains(a) {
        assert(all[front.index_of(a)] == a);
    }
    if back.contains(a) {
        assert(all[front.len() + back.index_of(a)] == a);
    }
    if all.contains(a) {
        let i = all.index_of(a);
        if i < front.len() {
            assert(front[i] == a);
        } else {
            assert(back[i - front.len()] == a);
        }
    }
}

proof fn lemma_interleaved_contains(
    ipv6: Seq<AddressView>,
    ipv4: Seq<AddressView>,
    unknown: Seq<AddressView>,
    rounds: int,
    a: AddressView,
)
    requires
        rounds >= 0,
    ensures
        interleaved(ipv6, ipv4, unknown, rounds).contains(a) <==> within(ipv6, rounds, a) || within(
            ipv4,
            rounds,
            a,
        ) || within(unknown, rounds, a),
    decreases rounds,
{
    if rounds > 0 {
        let k = rounds - 1;
        lemma_interleaved_contains(ipv6, ipv4, unknown, k, a);
        lemma_within_step(ipv6, k, a);
        lemma_within_step(ipv4, k, a);
        lemma_within_step(unknown, k, a);
        let before = interleaved(ipv6, ipv4, unknown, k);
        lemma_append_contains(before, turn(ipv6, k), a);
        lemma_append_contains(before + turn(ipv6, k), turn(ipv4, k), a);
        lemma_append_contains(before + turn(ipv6, k) + turn(ipv4, k), turn(unknown, k), a);
    }
}

proof fn lemma_append_no_duplicates(front: Seq<AddressView>, list: Seq<AddressView>, k: int)
    requires
        front.no_duplicates(),
        0 <= k < list.len() ==> !front.contains(list[k]),
    ensures
        (front + turn(list, k)).no_duplicates(),
{
    let all = front + turn(list, k);
    if 0 <= k < list.len() {
        assert(all =~= front.push(list[k]));
    } else {
        assert(all =~= front);
    }
}

proof fn lemma_interleaved_no_duplicates(
    ipv6: Seq<AddressView>,
    ipv4: Seq<AddressView>,
    unknown: Seq<AddressView>,
    rounds: int,
)
    requires
        rounds >= 0,
        ipv6.no_duplicates(),
        ipv4.no_duplicates(),
        unknown.no_duplicates(),
        forall|i: int| 0 <= i < ipv6.len() ==> family(#[trigger] ipv6[i]) == Family::Ipv6,
        forall|i: int| 0 <= i < ipv4.len() ==> family(#[trigger] ipv4[i]) == Family::Ipv4,
        forall|i: int| 0 <= i < unknown.len() ==> family(#[trigger] unknown[i]) == Family::Unknown,
    ensures
        interleaved(ipv6, ipv4, unknown, rounds).no_duplicates(),
    decreases rounds,
{
    if rounds > 0 {
        let k = rounds - 1;
        lemma_interleaved_no_duplicates(ipv6, ipv4, unknown, k);
        let before = interleaved(ipv6, ipv4, unknown, k);
        if k < ipv6.len() {
            lemma_interleaved_contains(ipv6, ipv4, unknown, k, ipv6[k]);
        }
        lemma_append_no_duplicates(before, ipv6, k);
        let with6 = before + turn(ipv6, k);
        if k < ipv4.len() {
            lemma_interleaved_contains(ipv6, ipv4, unknown, k, ipv4[k]);
            lemma_append_contains(before, turn(ipv6, k), ipv4[k]);
        }
        lemma_append_no_duplicates(with6, ipv4, k);
        if k < unknown.len() {
            lemma_interleaved_contains(ipv6, ipv4, unknown, k, unknown[k]);
            lemma_append_contains(before, turn(ipv6, k), unknown[k]);
            lemma_append_contains(with6, turn(ipv4, k), unknown[k]);
        }
        lemma_append_no_duplicates(with6 + turn(ipv4, k), unknown, k);
    }
}

/// Each family has addresses of its own kind only.
pub proof fn lemma_families(addresses: Seq<AddressView>)
    ensures
        forall|i: int, wanted: Family|
            0 <= i < of_family(addresses, wanted).len() ==> family(
                #[trigger] of_family(addresses, wanted)[i],
            ) == wanted,
{
    assert forall|i: int, wanted: Family|
        0 <= i < of_family(addresses, wanted).len() implies family(
        #[trigger] of_family(addresses, wanted)[i],
    ) == wanted by {
        lemma_family_contains(addresses, wanted, of_family(addresses, wanted)[i]);
    }
}

/// No address is listed twice, however often the resolver reports it.
pub proof fn law_each_address_once(endpoints: Seq<Seq<AddressView>>)
    ensures
        compiled(endpoints).no_duplicates(),
{
    let addresses = unique(flattened(endpoints));
    let ipv6 = of_family(addresses, Family::Ipv6);
    let ipv4 = of_family(addresses, Family::Ipv4);
    let unknown = of_family(addresses, Family::Unknown);
    lemma_unique_no_duplicates(flattened(endpoints));
    lemma_family_no_duplicates(addresses, Family::Ipv6);
    lemma_family_no_duplicates(addresses, Family::Ipv4);
    lemma_family_no_duplicates(addresses, Family::Unknown);
    lemma_families(addresses);
    lemma_interleaved_no_duplicates(ipv6, ipv4, unknown, longest(ipv6, ipv4, unknown));
}

/// The list has every address that the resolver reported, and no other.
pub proof fn law_no_address_lost(endpoints: Seq<Seq<AddressView>>, a: AddressView)
    ensures
        compiled(endpoints).contains(a) <==> exists|i: int|
            0 <= i < endpoints.len() && (#[trigger] endpoints[i]).contains(a),
{
    let addresses = unique(flattened(endpoints));
    let ipv6 = of_family(addresses, Family::Ipv6);
    let ipv4 = of_family(addresses, Family::Ipv4);
    let unknown = of_family(addresses, Family::Unknown);
    let rounds = longest(ipv6, ipv4, unknown);
    lemma_unique_contains(flattened(endpoints), a);
    lemma_family_contains(addresses, Family::Ipv6, a);
    lemma_family_contains(addresses, Family::Ipv4, a);
    lemma_family_contains(addresses, Family::Unknown, a);
    lemma_interleaved_contains(ipv6, ipv4, unknown, rounds, a);
    lemma_within_all(ipv6, rounds, a);
    lemma_within_all(ipv4, rounds, a);
    lemma_within_all(unknown, rounds, a);
    lemma_flattened_contains(endpoints, a);
}

proof fn lemma_within_all(addresses: Seq<AddressView>, rounds: int, a: AddressView)
    requires
        rounds >= addresses.len(),
    ensures
        within(addresses, rounds, a) <==> addresses.contains(a),
{
    if addresses.contains(a) {
        assert(addresses[addresses.index_of(a)] == a);
    }
}

proof fn lemma_flattened_contains(endpoints: Seq<Seq<AddressView>>, a: AddressView)
    ensures
        flattened(endpoints).contains(a) <==> exists|i: int|
            0 <= i < endpoints.len() && (#[trigger] endpoints[i]).contains(a),
    decreases endpoints.len(),
{
    if endpoints.len() > 0 {
        let front = endpoints.drop_last();
        lemma_flattened_contains(front, a);
        lemma_append_contains(flattened(front), endpoints.last(), a);
        if flattened(front).contains(a) {
            let i = choose|i: int| 0 <= i < front.len() && (#[trigger] front[i]).contains(a);
            assert(endpoints[i].contains(a));
        }
        if endpoints.last().contains(a) {
            assert(endpoints[endpoints.len() - 1].contains(a));
        }
        if exists|i: int| 0 <= i < endpoints.len() && (#[trigger] endpoints[i]).contains(a) {
            let i = choose|i: int|
                0 <= i < endpoints.len() && (#[trigger] endpoints[i]).contains(a);
            if i < front.len() {
                assert(front[i].contains(a));
            }
        }
    }
}

/// Shuffling endpoints changes the order of the list, but not what is in it.
pub proof fn law_shuffling_keeps_addresses(
    endpoints: Seq<Seq<AddressView>>,
    shuffled: Seq<Seq<AddressView>>,
    a: AddressView,
)
    requires
        shuffled.to_multiset() == endpoints.to_multiset(),
    ensures
        compiled(shuffled).contains(a) <==> compiled(endpoints).contains(a),
{
    law_no_address_lost(endpoints, a);
    law_no_address_lost(shuffled, a);
    lemma_same_members(endpoints, shuffled, a);
    lemma_same_members(shuffled, endpoints, a);
}

proof fn lemma_same_members(
    left: Seq<Seq<AddressView>>,
    right: Seq<Seq<AddressView>>,
    a: AddressView,
)
    requires
        left.to_multiset() == right.to_multiset(),
    ensures
        (exists|i: int| 0 <= i < left.len() && (#[trigger] left[i]).contains(a)) ==> exists|
            j: int,
        |
            0 <= j < right.len() && (#[trigger] right[j]).contains(a),
{
    broadcast use vstd::seq_lib::group_to_multiset_ensures;

    if exists|i: int| 0 <= i < left.len() && (#[trigger] left[i]).contains(a) {
        let i = choose|i: int| 0 <= i < left.len() && (#[trigger] left[i]).contains(a);
        assert(left.to_multiset().count(left[i]) > 0);
        assert(right.to_multiset().count(left[i]) > 0);
        assert(right.contains(left[i]));
        let j = right.index_of(left[i]);
        assert(right[j].contains(a));
    }
}

/// The first addresses of a list, as many as there are rounds.
pub open spec fn so_far(addresses: Seq<AddressView>, rounds: int) -> Seq<AddressView> {
    if rounds < addresses.len() {
        addresses.take(rounds)
    } else {
        addresses
    }
}

/// A turn has its address if that is of the wanted family.
pub proof fn lemma_turn_family(
    addresses: Seq<AddressView>,
    own: Family,
    wanted: Family,
    k: int,
)
    requires
        forall|i: int| 0 <= i < addresses.len() ==> family(#[trigger] addresses[i]) == own,
        0 <= k,
    ensures
        of_family(turn(addresses, k), wanted) == (if own == wanted {
            turn(addresses, k)
        } else {
            Seq::empty()
        }),
        so_far(addresses, k + 1) == so_far(addresses, k) + turn(addresses, k),
{
    reveal(Seq::filter);
    let one = turn(addresses, k);
    if k < addresses.len() {
        assert(one.drop_last() =~= Seq::<AddressView>::empty());
        assert(one.last() == addresses[k]);
        assert(of_family(one.drop_last(), wanted) =~= Seq::<AddressView>::empty());
        assert(of_family(one, wanted) =~= (if own == wanted {
            one
        } else {
            Seq::empty()
        }));
    } else {
        assert(of_family(one, wanted) =~= Seq::<AddressView>::empty());
    }
    assert(so_far(addresses, k + 1) =~= so_far(addresses, k) + turn(addresses, k));
}

/// Interleaved lists have as much of each list as there are rounds.
pub proof fn lemma_interleaved_family(
    ipv6: Seq<AddressView>,
    ipv4: Seq<AddressView>,
    unknown: Seq<AddressView>,
    rounds: int,
    wanted: Family,
)
    requires
        rounds >= 0,
        forall|i: int| 0 <= i < ipv6.len() ==> family(#[trigger] ipv6[i]) == Family::Ipv6,
        forall|i: int| 0 <= i < ipv4.len() ==> family(#[trigger] ipv4[i]) == Family::Ipv4,
        forall|i: int| 0 <= i < unknown.len() ==> family(#[trigger] unknown[i]) == Family::Unknown,
    ensures
        of_family(interleaved(ipv6, ipv4, unknown, rounds), wanted) == (match wanted {
            Family::Ipv6 => so_far(ipv6, rounds),
            Family::Ipv4 => so_far(ipv4, rounds),
            Family::Unknown => so_far(unknown, rounds),
        }),
    decreases rounds,
{
    if rounds == 0 {
        reveal(Seq::filter);
        assert(so_far(ipv6, 0) =~= Seq::<AddressView>::empty());
        assert(so_far(ipv4, 0) =~= Seq::<AddressView>::empty());
        assert(so_far(unknown, 0) =~= Seq::<AddressView>::empty());
    } else {
        let k = rounds - 1;
        lemma_interleaved_family(ipv6, ipv4, unknown, k, wanted);
        lemma_turn_family(ipv6, Family::Ipv6, wanted, k);
        lemma_turn_family(ipv4, Family::Ipv4, wanted, k);
        lemma_turn_family(unknown, Family::Unknown, wanted, k);
        let before = interleaved(ipv6, ipv4, unknown, k);
        let with6 = before + turn(ipv6, k);
        let with4 = with6 + turn(ipv4, k);
        let pred = |a: AddressView| family(a) == wanted;
        Seq::filter_distributes_over_add(before, turn(ipv6, k), pred);
        Seq::filter_distributes_over_add(with6, turn(ipv4, k), pred);
        Seq::filter_distributes_over_add(with4, turn(unknown, k), pred);
        assert(of_family(interleaved(ipv6, ipv4, unknown, rounds), wanted) =~= (match wanted {
            Family::Ipv6 => so_far(ipv6, rounds),
            Family::Ipv4 => so_far(ipv4, rounds),
            Family::Unknown => so_far(unknown, rounds),
        }));
    }
}

/// Within a family the addresses stay in the order in which they were reported.
pub proof fn law_families_keep_order(endpoints: Seq<Seq<AddressView>>, wanted: Family)
    ensures
        of_family(compiled(endpoints), wanted) == of_family(unique(flattened(endpoints)), wanted),
{
    let addresses = unique(flattened(endpoints));
    let ipv6 = of_family(addresses, Family::Ipv6);
    let ipv4 = of_family(addresses, Family::Ipv4);
    let unknown = of_family(addresses, Family::Unknown);
    lemma_families(addresses);
    lemma_interleaved_family(ipv6, ipv4, unknown, longest(ipv6, ipv4, unknown), wanted);
}

/// Interleaved lists begin with what fewer rounds give.
proof fn lemma_interleaved_prefix(
    ipv6: Seq<AddressView>,
    ipv4: Seq<AddressView>,
    unknown: Seq<AddressView>,
    few: int,
    rounds: int,
)
    requires
        0 <= few <= rounds,
    ensures
        interleaved(ipv6, ipv4, unknown, few).len() <= interleaved(
            ipv6,
            ipv4,
            unknown,
            rounds,
        ).len(),
        forall|i: int|
            0 <= i < interleaved(ipv6, ipv4, unknown, few).len() ==> #[trigger] interleaved(
                ipv6,
                ipv4,
                unknown,
                rounds,
            )[i] == interleaved(ipv6, ipv4, unknown, few)[i],
    decreases rounds,
{
    if few < rounds {
        lemma_interleaved_prefix(ipv6, ipv4, unknown, few, rounds - 1);
    }
}

proof fn lemma_full_rounds(
    ipv6: Seq<AddressView>,
    ipv4: Seq<AddressView>,
    unknown: Seq<AddressView>,
    rounds: int,
)
    requires
        0 <= rounds <= ipv6.len(),
        rounds <= ipv4.len(),
        unknown.len() == 0,
    ensures
        interleaved(ipv6, ipv4, unknown, rounds).len() == 2 * rounds,
    decreases rounds,
{
    if rounds > 0 {
        lemma_full_rounds(ipv6, ipv4, unknown, rounds - 1);
    }
}

/// While there are both, IPv6 and IPv4 addresses alternate, IPv6 first.
pub proof fn law_families_alternate(endpoints: Seq<Seq<AddressView>>, k: int)
    requires
        ({
            let addresses = unique(flattened(endpoints));
            &&& of_family(addresses, Family::Unknown).len() == 0
            &&& 0 <= k < of_family(addresses, Family::Ipv6).len()
            &&& k < of_family(addresses, Family::Ipv4).len()
        }),
    ensures
        ({
            let addresses = unique(flattened(endpoints));
            &&& 2 * k + 1 < compiled(endpoints).len()
            &&& compiled(endpoints)[2 * k] == of_family(addresses, Family::Ipv6)[k]
            &&& compiled(endpoints)[2 * k + 1] == of_family(addresses, Family::Ipv4)[k]
        }),
{
    let addresses = unique(flattened(endpoints));
    let ipv6 = of_family(addresses, Family::Ipv6);
    let ipv4 = of_family(addresses, Family::Ipv4);
    let unknown = of_family(addresses, Family::Unknown);
    let rounds = longest(ipv6, ipv4, unknown);
    lemma_full_rounds(ipv6, ipv4, unknown, k);
    lemma_full_rounds(ipv6, ipv4, unknown, k + 1);
    lemma_interleaved_prefix(ipv6, ipv4, unknown, k + 1, rounds);
    let part = interleaved(ipv6, ipv4, unknown, k + 1);
    assert(part[2 * k] == ipv6[k]);
    assert(part[2 * k + 1] == ipv4[k]);
    assert(compiled(endpoints)[2 * k] == part[2 * k]);
    assert(compiled(endpoints)[2 * k + 1] == part[2 * k + 1]);
}

} // verus!
