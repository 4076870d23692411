//! The order in which the addresses of a resolver report are tried.

use crate::name_resolution::{address_views, endpoint_views, Address, AddressView, Endpoint};
use vstd::prelude::*;

verus! {

/// All addresses of some endpoints, one endpoint after the other.
pub open spec fn flattened(endpoints: Seq<Seq<AddressView>>) -> Seq<AddressView>
    decreases endpoints.len(),
{
    if endpoints.len() == 0 {
        Seq::empty()
    } else {
        flattened(endpoints.drop_last()) + endpoints.last()
    }
}

/// The addresses without repetitions: of equal ones the first stays.
pub open spec fn unique(addresses: Seq<AddressView>) -> Seq<AddressView>
    decreases addresses.len(),
{
    if addresses.len() == 0 {
        Seq::empty()
    } else {
        let front = unique(addresses.drop_last());
        if addresses.drop_last().contains(addresses.last()) {
            front
        } else {
            front.push(addresses.last())
        }
    }
}

/// The families that take turns.
pub enum Family {
    Ipv6,
    Ipv4,
    Unknown,
}

/// An address's family: TCP addresses with a colon are IPv6, other TCP
/// addresses IPv4.
pub open spec fn family(address: AddressView) -> Family {
    if !address.is_tcp() {
        Family::Unknown
    } else if address.has_colon() {
        Family::Ipv6
    } else {
        Family::Ipv4
    }
}

/// The addresses of one family, in order.
pub open spec fn of_family(addresses: Seq<AddressView>, wanted: Family) -> Seq<AddressView> {
    addresses.filter(|a: AddressView| family(a) == wanted)
}

/// The `k`th address of a list, alone, if it has that many.
pub open spec fn turn(addresses: Seq<AddressView>, k: int) -> Seq<AddressView> {
    if 0 <= k < addresses.len() {
        seq![addresses[k]]
    } else {
        Seq::empty()
    }
}

/// The first `rounds` rounds of three lists that take turns.
pub open spec fn interleaved(
    ipv6: Seq<AddressView>,
    ipv4: Seq<AddressView>,
    unknown: Seq<AddressView>,
    rounds: int,
) -> Seq<AddressView>
    decreases rounds,
{
    if rounds <= 0 {
        Seq::empty()
    } else {
        interleaved(ipv6, ipv4, unknown, rounds - 1) + turn(ipv6, rounds - 1) + turn(
            ipv4,
            rounds - 1,
        ) + turn(unknown, rounds - 1)
    }
}

/// The length of the longest of three lists.
pub open spec fn longest(
    ipv6: Seq<AddressView>,
    ipv4: Seq<AddressView>,
    unknown: Seq<AddressView>,
) -> int {
    let two = if ipv6.len() >= ipv4.len() {
        ipv6.len()
    } else {
        ipv4.len()
    };
    if two >= unknown.len() {
        two as int
    } else {
        unknown.len() as int
    }
}

/// The addresses of some endpoints in the order in which they are tried: each
/// once, the families taking turns.
pub open spec fn compiled(endpoints: Seq<Seq<AddressView>>) -> Seq<AddressView> {
    let addresses = unique(flattened(endpoints));
    let ipv6 = of_family(addresses, Family::Ipv6);
    let ipv4 = of_family(addresses, Family::Ipv4);
    let unknown = of_family(addresses, Family::Unknown);
    interleaved(ipv6, ipv4, unknown, longest(ipv6, ipv4, unknown))
}

/// Whether `addresses` has `wanted`.
pub fn has_address(addresses: &Vec<Address>, wanted: &Address) -> (found: bool)
    ensures
        found == address_views(addresses@).contains(wanted@),
{
    for k in 0..addresses.len()
        invariant
            forall|j: int| 0 <= j < k ==> (#[trigger] addresses@[j])@ != wanted@,
    {
        if addresses[k] == *wanted {
            assert(address_views(addresses@)[k as int] == wanted@);
            return true;
        }
    }
    false
}

/// The addresses of the endpoints, each once, in order.
fn unique_addresses(endpoints: &Vec<Endpoint>) -> (addresses: Vec<Address>)
    ensures
        address_views(addresses@) == unique(flattened(endpoint_views(endpoints@))),
{
    let ghost views = endpoint_views(endpoints@);
    let mut addresses: Vec<Address> = Vec::new();
    for i in 0..endpoints.len()
        invariant
            views == endpoint_views(endpoints@),
            address_views(addresses@) == unique(flattened(views.take(i as int))),
    {
        let endpoint = &endpoints[i];
        let ghost done = flattened(views.take(i as int));
        proof {
            assert(views.take(i + 1).drop_last() =~= views.take(i as int));
            assert(views.take(i + 1).last() == endpoint@);
            assert(done + endpoint@.take(0) =~= done);
        }
        for j in 0..endpoint.addresses.len()
            invariant
                address_views(addresses@) == unique(done + endpoint@.take(j as int)),
        {
            let ghost seen = done + endpoint@.take(j as int);
            let ghost before = addresses@;
            let address = &endpoint.addresses[j];
            proof {
                assert(endpoint@[j as int] == address@);
                assert(done + endpoint@.take(j + 1) =~= seen.push(address@));
                assert(seen.push(address@).drop_last() =~= seen);
                lemma_unique_contains(seen, address@);
            }
            if !has_address(&addresses, address) {
                addresses.push(address.clone());
                assert(address_views(addresses@) =~= address_views(before).push(address@));
            }
        }
        assert(endpoint@.take(endpoint@.len() as int) =~= endpoint@);
    }
    assert(views.take(endpoints.len() as int) =~= views);
    addresses
}

/// Splits addresses by family and interleaves the three lists.
fn interleave(addresses: &Vec<Address>) -> (list: Vec<Address>)
    ensures
        ({
            let views = address_views(addresses@);
            let ipv6 = of_family(views, Family::Ipv6);
            let ipv4 = of_family(views, Family::Ipv4);
            let unknown = of_family(views, Family::Unknown);
            address_views(list@) == interleaved(ipv6, ipv4, unknown, longest(ipv6, ipv4, unknown))
        }),
{
    let ghost views = address_views(addresses@);
    let mut ipv6: Vec<Address> = Vec::new();
    let mut ipv4: Vec<Address> = Vec::new();
    let mut unknown: Vec<Address> = Vec::new();
    proof {
        reveal(Seq::filter);
    }
    for k in 0..addresses.len()
        invariant
            views == address_views(addresses@),
            address_views(ipv6@) == of_family(views.take(k as int), Family::Ipv6),
            address_views(ipv4@) == of_family(views.take(k as int), Family::Ipv4),
            address_views(unknown@) == of_family(views.take(k as int), Family::Unknown),
    {
        let address = &addresses[k];
        let ghost (old6, old4, old_unknown) = (ipv6@, ipv4@, unknown@);
        proof {
            reveal(Seq::filter);
            assert(views.take(k + 1).drop_last() =~= views.take(k as int));
            assert(views.take(k + 1).last() == address@);
        }
        if !address.is_tcp() {
            unknown.push(address.clone());
            assert(address_views(unknown@) =~= address_views(old_unknown).push(address@));
        } else if address.has_colon() {
            ipv6.push(address.clone());
            assert(address_views(ipv6@) =~= address_views(old6).push(address@));
        } else {
            ipv4.push(address.clone());
            assert(address_views(ipv4@) =~= address_views(old4).push(address@));
        }
    }
    assert(views.take(addresses.len() as int) =~= views);
    let ghost (v6, v4, vu) = (address_views(ipv6@), address_views(ipv4@), address_views(unknown@));
    let mut list: Vec<Address> = Vec::new();
    let mut k: usize = 0;
    while k < ipv6.len() || k < ipv4.len() || k < unknown.len()
        invariant
            v6 == address_views(ipv6@),
            v4 == address_views(ipv4@),
            vu == address_views(unknown@),
            k <= longest(v6, v4, vu),
            address_views(list@) == interleaved(v6, v4, vu, k as int),
        decreases longest(v6, v4, vu) - k,
    {
        let ghost start = list@;
        if k < ipv6.len() {
            list.push(ipv6[k].clone());
        }
        assert(address_views(list@) =~= address_views(start) + turn(v6, k as int));
        if k < ipv4.len() {
            list.push(ipv4[k].clone());
        }
        assert(address_views(list@) =~= address_views(start) + turn(v6, k as int) + turn(
            v4,
            k as int,
        ));
        if k < unknown.len() {
            list.push(unknown[k].clone());
        }
        assert(address_views(list@) =~= address_views(start) + turn(v6, k as int) + turn(
            v4,
            k as int,
        ) + turn(vu, k as int));
        k = k + 1;
    }
    list
}

/// The addresses of the endpoints in the order in which they are tried: each
/// once, with IPv6, IPv4 and unknown addresses taking turns.
pub fn compile_endpoints(endpoints: &Vec<Endpoint>) -> (list: Vec<Address>)
    ensures
        address_views(list@) == compiled(endpoint_views(endpoints@)),
{
    let addresses = unique_addresses(endpoints);
    interleave(&addresses)
}

/// Dropping repetitions drops no address.
pub proof fn lemma_unique_contains(addresses: Seq<AddressView>, wanted: AddressView)
    ensures
        unique(addresses).contains(wanted) <==> addresses.contains(wanted),
    decreases addresses.len(),
{
    if addresses.len() > 0 {
        let front = addresses.drop_last();
        let last = addresses.last();
        lemma_unique_contains(front, wanted);
        assert(addresses =~= front.push(last));
        assert(addresses.contains(wanted) <==> front.contains(wanted) || last == wanted) by {
            lemma_push_contains(front, last, wanted);
        }
        if !front.contains(last) {
            lemma_push_contains(unique(front), last, wanted);
        }
    }
}

/// A sequence with one more element has what it had and that element.
pub proof fn lemma_push_contains(addresses: Seq<AddressView>, last: AddressView, wanted: AddressView)
    ensures
        addresses.push(last).contains(wanted) <==> addresses.contains(wanted) || last == wanted,
{
    let more = addresses.push(last);
    if addresses.contains(wanted) {
        let i = addresses.index_of(wanted);
        assert(more[i] == wanted);
    }
    if last == wanted {
        assert(more[addresses.len() as int] == wanted);
    }
    if more.contains(wanted) {
        let i = more.index_of(wanted);
        if i < addresses.len() {
            assert(addresses[i] == wanted);
        }
    }
}

} // verus!
