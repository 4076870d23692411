//! What a name resolver reports: endpoints with their addresses.

use vstd::prelude::*;

verus! {

/// The network type of addresses that are reached over TCP.
pub const TCP_IP_NETWORK_TYPE: &'static str = "tcp";

/// An address, as specifications speak of it.
#[verifier::ext_equal]
pub struct AddressView {
    pub network_type: Seq<char>,
    pub address: Seq<char>,
    pub attributes: Seq<char>,
}

impl AddressView {
    /// The address is reached over TCP.
    pub open spec fn is_tcp(self) -> bool {
        self.network_type == TCP_IP_NETWORK_TYPE@
    }

    /// The address is written with a colon.
    pub open spec fn has_colon(self) -> bool {
        self.address.contains(':')
    }
}

/// An address to connect to. Two addresses are the same only if all three parts
/// are.
#[derive(Debug)]
pub struct Address {
    pub network_type: String,
    pub address: String,
    /// The address's attributes in canonical text form.
    pub attributes: String,
}

impl View for Address {
    type V = AddressView;

    open spec fn view(&self) -> AddressView {
        AddressView {
            network_type: self.network_type@,
            address: self.address@,
            attributes: self.attributes@,
        }
    }
}

impl Clone for Address {
    fn clone(&self) -> (copy: Address)
        ensures
            copy == *self,
    {
        Address {
            network_type: self.network_type.clone(),
            address: self.address.clone(),
            attributes: self.attributes.clone(),
        }
    }
}

impl PartialEq for Address {
    fn eq(&self, other: &Address) -> (equal: bool) {
        self.network_type == other.network_type && self.address == other.address && self.attributes
            == other.attributes
    }
}

impl vstd::std_specs::cmp::PartialEqSpecImpl for Address {
    open spec fn obeys_eq_spec() -> bool {
        true
    }

    open spec fn eq_spec(&self, other: &Address) -> bool {
        self@ == other@
    }
}

impl Address {
    /// A TCP address without attributes.
    pub fn tcp(address: &str) -> (tcp: Address)
        ensures
            tcp@ == (AddressView {
                network_type: TCP_IP_NETWORK_TYPE@,
                address: address@,
                attributes: Seq::empty(),
            }),
    {
        Address {
            network_type: TCP_IP_NETWORK_TYPE.to_owned(),
            address: address.to_owned(),
            attributes: String::new(),
        }
    }

    /// Whether the address is reached over TCP.
    pub fn is_tcp(&self) -> (tcp: bool)
        ensures
            tcp == self@.is_tcp(),
    {
        self.network_type == TCP_IP_NETWORK_TYPE.to_owned()
    }

    /// Whether the address is written with a colon.
    pub fn has_colon(&self) -> (colon: bool)
        ensures
            colon == self@.has_colon(),
    {
        let mut found: bool = false;
        for c in it: self.address.as_str().chars()
            invariant
                it.seq() == self.address@,
                found <==> self.address@.take(it.index() as int).contains(':'),
        {
            proof {
                let seen = self.address@.take(it.index() as int);
                let more = self.address@.take(it.index() + 1);
                assert(more =~= seen.push(c));
                assert(more.contains(':') <==> seen.contains(':') || c == ':') by {
                    if seen.contains(':') {
                        let i = seen.index_of(':');
                        assert(more[i] == ':');
                    }
                    if c == ':' {
                        assert(more[seen.len() as int] == ':');
                    }
                    if more.contains(':') {
                        let i = more.index_of(':');
                        if i < seen.len() {
                            assert(seen[i] == ':');
                        }
                    }
                }
            }
            if c == ':' {
                found = true;
            }
        }
        assert(self.address@.take(self.address@.len() as int) =~= self.address@);
        found
    }
}

/// The addresses of a vector, as specifications speak of them.
pub open spec fn address_views(addresses: Seq<Address>) -> Seq<AddressView> {
    addresses.map_values(|a: Address| a@)
}

/// A backend with all addresses at which it can be reached.
#[derive(Debug)]
pub struct Endpoint {
    pub addresses: Vec<Address>,
}

impl View for Endpoint {
    type V = Seq<AddressView>;

    open spec fn view(&self) -> Seq<AddressView> {
        address_views(self.addresses@)
    }
}

/// The endpoints of a vector, as specifications speak of them.
pub open spec fn endpoint_views(endpoints: Seq<Endpoint>) -> Seq<Seq<AddressView>> {
    endpoints.map_values(|e: Endpoint| e@)
}

/// A report of the name resolver: the endpoints, or why there are none.
#[derive(Debug)]
pub struct ResolverUpdate {
    pub endpoints: Result<Vec<Endpoint>, String>,
}

} // verus!
