//! The table of channels by address.

use crate::channel_state::{
    AddressKey, ChannelStats, ChannelView, EndpointAddress, OutlierChannelState,
};
use dashmap::DashMap;
use vstd::prelude::*;

verus! {

/// `dashmap::DashMap`, a sharded hash map.
#[verifier::external_type_specification]
#[verifier::external_body]
#[verifier::reject_recursive_types(K)]
#[verifier::reject_recursive_types(V)]
#[verifier::reject_recursive_types(S)]
pub struct ExDashMap<K, V, S>(DashMap<K, V, S>);

/// The entries of a channel table. The table is only ever changed through an
/// exclusive reference, so they stay the same while it is shared.
pub uninterp spec fn entries(table: DashMap<(String, u16), ChannelStats>) -> Map<
    AddressKey,
    ChannelStats,
>;

/// A table without entries.
pub open spec fn no_entries() -> Map<AddressKey, ChannelStats> {
    Map::empty()
}

/// What a table holds under an address.
pub open spec fn lookup(table: Map<AddressKey, ChannelStats>, addr: AddressKey) -> Option<
    ChannelStats,
> {
    if table.dom().contains(addr) {
        Some(table[addr])
    } else {
        None
    }
}

/// The channels of a vector, as specifications speak of them.
pub open spec fn channel_views(channels: Seq<OutlierChannelState>) -> Seq<ChannelView> {
    channels.map_values(|c: OutlierChannelState| c@)
}

/// No two channels of a sequence have the same address.
pub open spec fn distinct_channels(channels: Seq<ChannelView>) -> bool {
    forall|i: int, j: int|
        0 <= i < channels.len() && 0 <= j < channels.len() && i != j ==> #[trigger] channels[i].addr
            != #[trigger] channels[j].addr
}

/// `channels` holds each entry of `table` once, in some order.
pub open spec fn lists(channels: Seq<ChannelView>, table: Map<AddressKey, ChannelStats>) -> bool {
    &&& distinct_channels(channels)
    &&& forall|i: int|
        0 <= i < channels.len() ==> lookup(table, #[trigger] channels[i].addr) == Some(
            channels[i].stats,
        )
    &&& forall|addr: AddressKey| #[trigger]
        table.dom().contains(addr) ==> exists|i: int|
            0 <= i < channels.len() && #[trigger] channels[i].addr == addr
}

/// `dashmap::DashMap::new`: a new map has no entries.
#[verifier::external_body]
pub(crate) fn new_table() -> (table: DashMap<(String, u16), ChannelStats>)
    ensures
        entries(table) == no_entries(),
{
    DashMap::new()
}

/// `dashmap::DashMap::len`: the number of entries.
#[verifier::external_body]
pub(crate) fn table_len(table: &DashMap<(String, u16), ChannelStats>) -> (len: usize)
    ensures
        len == entries(*table).dom().len(),
{
    table.len()
}

/// `dashmap::DashMap::get`: the value under a key, here copied out of the
/// guard.
#[verifier::external_body]
pub(crate) fn table_get(
    table: &DashMap<(String, u16), ChannelStats>,
    addr: &EndpointAddress,
) -> (stats: Option<ChannelStats>)
    ensures
        stats == lookup(entries(*table), addr@),
{
    table.get(&(addr.host.clone(), addr.port)).map(|entry| *entry.value())
}

/// `dashmap::DashMap::entry` with `or_insert_with`: the value under a key,
/// after putting `fresh` there if the key had none. Other keys keep theirs.
#[verifier::external_body]
pub(crate) fn table_get_or_insert(
    table: &mut DashMap<(String, u16), ChannelStats>,
    addr: &EndpointAddress,
    fresh: ChannelStats,
) -> (stats: ChannelStats)
    ensures
        lookup(entries(*old(table)), addr@) matches Some(held) ==> stats == held && entries(
            *final(table),
        ) == entries(*old(table)),
        lookup(entries(*old(table)), addr@) is None ==> stats == fresh && entries(*final(table))
            == entries(*old(table)).insert(addr@, fresh),
{
    *table.entry((addr.host.clone(), addr.port)).or_insert_with(|| fresh)
}

/// `dashmap::DashMap::insert`: the key now has the value, others keep theirs.
#[verifier::external_body]
pub(crate) fn table_insert(
    table: &mut DashMap<(String, u16), ChannelStats>,
    addr: &EndpointAddress,
    stats: ChannelStats,
)
    ensures
        entries(*final(table)) == entries(*old(table)).insert(addr@, stats),
{
    table.insert((addr.host.clone(), addr.port), stats);
}

/// `dashmap::DashMap::remove`: the key is gone, and its value comes back if it
/// had one.
#[verifier::external_body]
pub(crate) fn table_remove(
    table: &mut DashMap<(String, u16), ChannelStats>,
    addr: &EndpointAddress,
) -> (stats: Option<ChannelStats>)
    ensures
        stats == lookup(entries(*old(table)), addr@),
        entries(*final(table)) == entries(*old(table)).remove(addr@),
{
    table.remove(&(addr.host.clone(), addr.port)).map(|(_, stats)| stats)
}

/// `dashmap::DashMap::iter`: every entry once, in an order that is not fixed.
#[verifier::external_body]
pub(crate) fn table_channels(table: &DashMap<(String, u16), ChannelStats>) -> (channels: Vec<
    OutlierChannelState,
>)
    ensures
        lists(channel_views(channels@), entries(*table)),
{
    table.iter().map(
        |entry| OutlierChannelState {
            addr: EndpointAddress { host: entry.key().0.clone(), port: entry.key().1 },
            stats: *entry.value(),
        },
    ).collect()
}

} // verus!
