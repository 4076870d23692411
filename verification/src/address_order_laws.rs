//! The order of every compiled address list, told by where the resolver reported
//! the addresses and how they are written.

use crate::address_laws::{
    law_families_keep_order, lemma_families, lemma_interleaved_family, lemma_turn_family,
};
use crate::address_list::{
    compiled, family, flattened, interleaved, lemma_unique_contains, longest, of_family, turn,
    unique, Family,
};
use crate::name_resolution::AddressView;
use vstd::prelude::*;

verus! {

/// An IPv6 address: one that is reached over TCP and written with a colon.
spec fn ipv6_form() -> spec_fn(AddressView) -> bool {
    |a: AddressView| a.network_type == "tcp"@ && a.address.contains(':')
}

/// An IPv4 address: one that is reached over TCP and written without a colon.
spec fn ipv4_form() -> spec_fn(AddressView) -> bool {
    |a: AddressView| a.network_type == "tcp"@ && !a.address.contains(':')
}

/// An address that is not reached over TCP.
spec fn other_form() -> spec_fn(AddressView) -> bool {
    |a: AddressView| a.network_type != "tcp"@
}

/// Where the addresses of endpoint `i` begin among all addresses.
spec fn offset(endpoints: Seq<Seq<AddressView>>, i: int) -> int {
    flattened(endpoints.take(i)).len() as int
}

proof fn lemma_offset_step(endpoints: Seq<Seq<AddressView>>, i: int)
    requires
        0 <= i < endpoints.len(),
    ensures
        offset(endpoints, i + 1) == offset(endpoints, i) + endpoints[i].len(),
{
    assert(endpoints.take(i + 1).drop_last() =~= endpoints.take(i));
    assert(endpoints.take(i + 1).last() == endpoints[i]);
}

proof fn lemma_offset_grows(endpoints: Seq<Seq<AddressView>>, few: int, many: int)
    requires
        0 <= few <= many <= endpoints.len(),
    ensures
        offset(endpoints, few) <= offset(endpoints, many),
    decreases many - few,
{
    if few < many {
        lemma_offset_step(endpoints, many - 1);
        lemma_offset_grows(endpoints, few, many - 1);
    }
}

/// Where an address of endpoint `i` stands among all addresses.
proof fn lemma_flattened_at(endpoints: Seq<Seq<AddressView>>, i: int, j: int)
    requires
        0 <= i < endpoints.len(),
        0 <= j < endpoints[i].len(),
    ensures
        0 <= offset(endpoints, i) + j < flattened(endpoints).len(),
        flattened(endpoints)[offset(endpoints, i) + j] == endpoints[i][j],
    decreases endpoints.len(),
{
    let front = endpoints.drop_last();
    if i < front.len() {
        lemma_flattened_at(front, i, j);
        assert(front.take(i) =~= endpoints.take(i));
    } else {
        assert(endpoints.take(i) =~= front);
    }
}

/// Which endpoint an address among all addresses comes from.
proof fn lemma_flattened_from(endpoints: Seq<Seq<AddressView>>, t: int) -> (from: (int, int))
    requires
        0 <= t < flattened(endpoints).len(),
    ensures
        0 <= from.0 < endpoints.len(),
        0 <= from.1 < endpoints[from.0].len(),
        offset(endpoints, from.0) + from.1 == t,
        endpoints[from.0][from.1] == flattened(endpoints)[t],
    decreases endpoints.len(),
{
    let front = endpoints.drop_last();
    if t < flattened(front).len() {
        let from = lemma_flattened_from(front, t);
        assert(front.take(from.0) =~= endpoints.take(from.0));
        from
    } else {
        assert(endpoints.take(front.len() as int) =~= front);
        (front.len() as int, t - flattened(front).len())
    }
}

/// Of two addresses that stay, the first one was reported before every report of
/// the second one.
proof fn lemma_unique_order(addresses: Seq<AddressView>, p: int, q: int, t: int) -> (first: int)
    requires
        0 <= p < q < unique(addresses).len(),
        0 <= t < addresses.len(),
        addresses[t] == unique(addresses)[q],
    ensures
        0 <= first < t,
        addresses[first] == unique(addresses)[p],
    decreases addresses.len(),
{
    let front = addresses.drop_last();
    let last = addresses.last();
    let kept = unique(front);
    if front.contains(last) {
        let place = if t < front.len() {
            t
        } else {
            front.index_of(last)
        };
        lemma_unique_order(front, p, q, place)
    } else if q == kept.len() {
        lemma_unique_contains(front, kept[p]);
        assert(kept.contains(kept[p]));
        assert(t == front.len()) by {
            if t < front.len() {
                assert(front[t] == last);
            }
        }
        front.index_of(kept[p])
    } else {
        lemma_unique_contains(front, kept[q]);
        assert(kept.contains(kept[q]));
        lemma_unique_order(front, p, q, t)
    }
}

/// Where two addresses of a family stand in the list that it was taken from.
proof fn lemma_family_order(addresses: Seq<AddressView>, wanted: Family, p: int, q: int) -> (places:
    (int, int))
    requires
        0 <= p < q < of_family(addresses, wanted).len(),
    ensures
        0 <= places.0 < places.1 < addresses.len(),
        addresses[places.0] == of_family(addresses, wanted)[p],
        addresses[places.1] == of_family(addresses, wanted)[q],
    decreases addresses.len(),
{
    reveal(Seq::filter);
    let front = addresses.drop_last();
    let kept = of_family(front, wanted);
    if q < kept.len() {
        lemma_family_order(front, wanted, p, q)
    } else {
        let place = lemma_family_place(front, wanted, p);
        (place, front.len() as int)
    }
}

proof fn lemma_family_place(addresses: Seq<AddressView>, wanted: Family, p: int) -> (place: int)
    requires
        0 <= p < of_family(addresses, wanted).len(),
    ensures
        0 <= place < addresses.len(),
        addresses[place] == of_family(addresses, wanted)[p],
    decreases addresses.len(),
{
    reveal(Seq::filter);
    let front = addresses.drop_last();
    if p < of_family(front, wanted).len() {
        lemma_family_place(front, wanted, p)
    } else {
        front.len() as int
    }
}

/// Where two addresses of a list stand in the list of their family.
proof fn lemma_order_in_family(addresses: Seq<AddressView>, wanted: Family, p: int, q: int) -> (
places: (int, int))
    requires
        0 <= p < q < addresses.len(),
        family(addresses[p]) == wanted,
        family(addresses[q]) == wanted,
    ensures
        0 <= places.0 < places.1 < of_family(addresses, wanted).len(),
        of_family(addresses, wanted)[places.0] == addresses[p],
        of_family(addresses, wanted)[places.1] == addresses[q],
    decreases addresses.len(),
{
    reveal(Seq::filter);
    let front = addresses.drop_last();
    if q < front.len() {
        lemma_order_in_family(front, wanted, p, q)
    } else {
        let place = lemma_place_in_family(front, wanted, p);
        (place, of_family(front, wanted).len() as int)
    }
}

proof fn lemma_place_in_family(addresses: Seq<AddressView>, wanted: Family, p: int) -> (place: int)
    requires
        0 <= p < addresses.len(),
        family(addresses[p]) == wanted,
    ensures
        0 <= place < of_family(addresses, wanted).len(),
        of_family(addresses, wanted)[place] == addresses[p],
    decreases addresses.len(),
{
    reveal(Seq::filter);
    let front = addresses.drop_last();
    if p < front.len() {
        lemma_place_in_family(front, wanted, p)
    } else {
        of_family(front, wanted).len() as int
    }
}

/// Of two addresses in the list that are both IPv6, both IPv4 or both neither, the
/// one that stands first was reported first: before every report of the other.
/// `i` and `j` are where the other was reported.
pub proof fn law_first_reported_is_first(
    endpoints: Seq<Seq<AddressView>>,
    p: int,
    q: int,
    i: int,
    j: int,
)
    requires
        0 <= p < q < compiled(endpoints).len(),
        0 <= i < endpoints.len(),
        0 <= j < endpoints[i].len(),
        endpoints[i][j] == compiled(endpoints)[q],
        ({
            let one = compiled(endpoints)[p];
            let other = compiled(endpoints)[q];
            ||| one.network_type == "tcp"@ && other.network_type == "tcp"@ && (
            one.address.contains(':') <==> other.address.contains(':'))
            ||| one.network_type != "tcp"@ && other.network_type != "tcp"@
        }),
    ensures
        exists|k: int, l: int|
            {
                &&& 0 <= k < endpoints.len()
                &&& 0 <= l < endpoints[k].len()
                &&& #[trigger] endpoints[k][l] == compiled(endpoints)[p]
                &&& k < i || (k == i && l < j)
            },
{
    let list = compiled(endpoints);
    let all = flattened(endpoints);
    let once = unique(all);
    let wanted = family(list[p]);
    let (a, b) = lemma_order_in_family(list, wanted, p, q);
    law_families_keep_order(endpoints, wanted);
    let (c, d) = lemma_family_order(once, wanted, a, b);
    lemma_flattened_at(endpoints, i, j);
    let t = offset(endpoints, i) + j;
    let first = lemma_unique_order(all, c, d, t);
    let (k, l) = lemma_flattened_from(endpoints, first);
    if k > i {
        lemma_offset_step(endpoints, i);
        lemma_offset_grows(endpoints, i + 1, k);
    }
    assert(endpoints[k][l] == list[p]);
}

/// How many turns of `rounds` a list takes.
spec fn turns(addresses: Seq<AddressView>, rounds: int) -> int {
    if rounds < addresses.len() {
        rounds
    } else {
        addresses.len() as int
    }
}

/// Each address of interleaved lists comes when the lists before its own had one
/// turn more, and the lists behind it as many, as far as they go.
proof fn lemma_turns(
    ipv6: Seq<AddressView>,
    ipv4: Seq<AddressView>,
    unknown: Seq<AddressView>,
    rounds: int,
    p: int,
)
    requires
        rounds >= 0,
        forall|i: int| 0 <= i < ipv6.len() ==> family(#[trigger] ipv6[i]) == Family::Ipv6,
        forall|i: int| 0 <= i < ipv4.len() ==> family(#[trigger] ipv4[i]) == Family::Ipv4,
        forall|i: int| 0 <= i < unknown.len() ==> family(#[trigger] unknown[i]) == Family::Unknown,
        0 <= p < interleaved(ipv6, ipv4, unknown, rounds).len(),
    ensures
        ({
            let list = interleaved(ipv6, ipv4, unknown, rounds);
            let six = of_family(list.take(p), Family::Ipv6).len() as int;
            let four = of_family(list.take(p), Family::Ipv4).len() as int;
            let rest = of_family(list.take(p), Family::Unknown).len() as int;
            match family(list[p]) {
                Family::Ipv6 => four == turns(ipv4, six) && rest == turns(unknown, six),
                Family::Ipv4 => six == turns(ipv6, four + 1) && rest == turns(unknown, four),
                Family::Unknown => six == turns(ipv6, rest + 1) && four == turns(ipv4, rest + 1),
            }
        }),
    decreases rounds,
{
    let list = interleaved(ipv6, ipv4, unknown, rounds);
    let k = rounds - 1;
    let before = interleaved(ipv6, ipv4, unknown, k);
    let with6 = before + turn(ipv6, k);
    let with4 = with6 + turn(ipv4, k);
    if p < before.len() {
        lemma_turns(ipv6, ipv4, unknown, k, p);
        assert(list.take(p) =~= before.take(p));
        assert(list[p] == before[p]);
    } else {
        lemma_counts(ipv6, ipv4, unknown, k, Family::Ipv6);
        lemma_counts(ipv6, ipv4, unknown, k, Family::Ipv4);
        lemma_counts(ipv6, ipv4, unknown, k, Family::Unknown);
        if p < with6.len() {
            assert(list.take(p) =~= before);
            assert(list[p] == ipv6[k]);
        } else if p < with4.len() {
            assert(list.take(p) =~= with6);
            assert(list[p] == ipv4[k]);
        } else {
            assert(list.take(p) =~= with4);
            assert(list[p] == unknown[k]);
        }
    }
}

/// How many addresses of each family stand before each turn of a round.
proof fn lemma_counts(
    ipv6: Seq<AddressView>,
    ipv4: Seq<AddressView>,
    unknown: Seq<AddressView>,
    k: int,
    wanted: Family,
)
    requires
        k >= 0,
        forall|i: int| 0 <= i < ipv6.len() ==> family(#[trigger] ipv6[i]) == Family::Ipv6,
        forall|i: int| 0 <= i < ipv4.len() ==> family(#[trigger] ipv4[i]) == Family::Ipv4,
        forall|i: int| 0 <= i < unknown.len() ==> family(#[trigger] unknown[i]) == Family::Unknown,
    ensures
        ({
            let before = interleaved(ipv6, ipv4, unknown, k);
            let with6 = before + turn(ipv6, k);
            let with4 = with6 + turn(ipv4, k);
            let own = match wanted {
                Family::Ipv6 => ipv6,
                Family::Ipv4 => ipv4,
                Family::Unknown => unknown,
            };
            &&& of_family(before, wanted).len() == turns(own, k)
            &&& of_family(with6, wanted).len() == turns(own, k + if wanted == Family::Ipv6 {
                1int
            } else {
                0
            })
            &&& of_family(with4, wanted).len() == turns(own, k + if wanted == Family::Unknown {
                0int
            } else {
                1
            })
        }),
{
    let before = interleaved(ipv6, ipv4, unknown, k);
    let with6 = before + turn(ipv6, k);
    let with4 = with6 + turn(ipv4, k);
    let pred = |a: AddressView| family(a) == wanted;
    lemma_interleaved_family(ipv6, ipv4, unknown, k, wanted);
    lemma_turn_family(ipv6, Family::Ipv6, wanted, k);
    lemma_turn_family(ipv4, Family::Ipv4, wanted, k);
    Seq::filter_distributes_over_add(before, turn(ipv6, k), pred);
    Seq::filter_distributes_over_add(with6, turn(ipv4, k), pred);
}

/// The three forms are the three families.
proof fn lemma_forms(addresses: Seq<AddressView>)
    ensures
        addresses.filter(ipv6_form()) == of_family(addresses, Family::Ipv6),
        addresses.filter(ipv4_form()) == of_family(addresses, Family::Ipv4),
        addresses.filter(other_form()) == of_family(addresses, Family::Unknown),
{
    let six = |a: AddressView| family(a) == Family::Ipv6;
    let four = |a: AddressView| family(a) == Family::Ipv4;
    let rest = |a: AddressView| family(a) == Family::Unknown;
    assert(six =~= ipv6_form());
    assert(four =~= ipv4_form());
    assert(rest =~= other_form());
}

/// IPv6 addresses, IPv4 addresses and others take turns, in this order. So where
/// an address stands, each earlier kind has had one turn more than its own, and
/// each later kind as many, unless that kind has no more addresses. `six`, `four`
/// and `rest` count the addresses before position `p`, and `all_six`, `all_four`
/// and `all_rest` those of the whole list.
pub proof fn law_kinds_take_turns(endpoints: Seq<Seq<AddressView>>, p: int)
    requires
        0 <= p < compiled(endpoints).len(),
    ensures
        ({
            let list = compiled(endpoints);
            let is_six = |a: AddressView| a.network_type == "tcp"@ && a.address.contains(':');
            let is_four = |a: AddressView| a.network_type == "tcp"@ && !a.address.contains(':');
            let is_rest = |a: AddressView| a.network_type != "tcp"@;
            let six = list.take(p).filter(is_six).len();
            let four = list.take(p).filter(is_four).len();
            let rest = list.take(p).filter(is_rest).len();
            let all_six = list.filter(is_six).len();
            let all_four = list.filter(is_four).len();
            let all_rest = list.filter(is_rest).len();
            &&& list[p].network_type == "tcp"@ && list[p].address.contains(':') ==> {
                &&& four == six || (four == all_four && four < six)
                &&& rest == six || (rest == all_rest && rest < six)
            }
            &&& list[p].network_type == "tcp"@ && !list[p].address.contains(':') ==> {
                &&& six == four + 1 || (six == all_six && six <= four)
                &&& rest == four || (rest == all_rest && rest < four)
            }
            &&& list[p].network_type != "tcp"@ ==> {
                &&& six == rest + 1 || (six == all_six && six <= rest)
                &&& four == rest + 1 || (four == all_four && four <= rest)
            }
        }),
{
    let list = compiled(endpoints);
    let once = unique(flattened(endpoints));
    let ipv6 = of_family(once, Family::Ipv6);
    let ipv4 = of_family(once, Family::Ipv4);
    let unknown = of_family(once, Family::Unknown);
    lemma_families(once);
    lemma_turns(ipv6, ipv4, unknown, longest(ipv6, ipv4, unknown), p);
    law_families_keep_order(endpoints, Family::Ipv6);
    law_families_keep_order(endpoints, Family::Ipv4);
    law_families_keep_order(endpoints, Family::Unknown);
    lemma_forms(list);
    lemma_forms(list.take(p));
    let is_six = |a: AddressView| a.network_type == "tcp"@ && a.address.contains(':');
    let is_four = |a: AddressView| a.network_type == "tcp"@ && !a.address.contains(':');
    let is_rest = |a: AddressView| a.network_type != "tcp"@;
    assert(is_six =~= ipv6_form());
    assert(is_four =~= ipv4_form());
    assert(is_rest =~= other_form());
}

} // verus!
