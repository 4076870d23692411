//! Facts about sweeps and about the tables that they walk.

use crate::channel_state::{AddressKey, ChannelStats, ChannelView};
use crate::endpoint_pool::{distinct_channels, lists, lookup};
use crate::outlier_config::FailurePercentageConfig;
use crate::outlier_spec::{
    ejected_in, ejected_keys, qualifies, sweep_defined, sweep_plan, RegistryView, SweepPlan,
};
use crate::time::Instant;
use vstd::prelude::*;

verus! {

/// A table that a sequence lists is finite and as long as the sequence, and its
/// ejected channels are those of the sequence, each once.
pub proof fn lemma_listed_sizes(channels: Seq<ChannelView>, table: Map<AddressKey, ChannelStats>)
    requires
        lists(channels, table),
    ensures
        table.dom().finite(),
        table.dom().len() == channels.len(),
        ejected_in(table).finite(),
        ejected_in(table).len() == ejected_keys(channels).len(),
        ejected_in(table) == ejected_keys(channels).to_set(),
        ejected_keys(channels).no_duplicates(),
    decreases channels.len(),
{
    if channels.len() == 0 {
        assert(table.dom() =~= Set::empty()) by {
            assert forall|a: AddressKey| !table.dom().contains(a) by {
                if table.dom().contains(a) {
                    let i = choose|i: int| 0 <= i < channels.len() && #[trigger] channels[i].addr == a;
                }
            }
        }
        assert(ejected_in(table) =~= Set::empty());
        assert(ejected_keys(channels).to_set() =~= Set::empty());
    } else {
        let last = channels.last();
        let front = channels.drop_last();
        let rest = table.remove(last.addr);
        assert(channels[channels.len() - 1] == last);
        assert(table.dom().contains(last.addr));
        assert(lists(front, rest)) by {
            assert forall|i: int| 0 <= i < front.len() implies lookup(
                rest,
                #[trigger] front[i].addr,
            ) == Some(front[i].stats) by {
                assert(front[i] == channels[i]);
                assert(channels[i].addr != channels[channels.len() - 1].addr);
            }
            assert forall|a: AddressKey| #[trigger] rest.dom().contains(a) implies exists|i: int|
                0 <= i < front.len() && #[trigger] front[i].addr == a by {
                assert(table.dom().contains(a));
                let i = choose|i: int| 0 <= i < channels.len() && #[trigger] channels[i].addr == a;
                assert(front[i].addr == a);
            }
        }
        lemma_listed_sizes(front, rest);
        assert(table.dom() =~= rest.dom().insert(last.addr));
        if last.stats.ejected() {
            let keys = ejected_keys(front);
            assert(ejected_in(table) =~= ejected_in(rest).insert(last.addr));
            assert(!ejected_in(rest).contains(last.addr));
            assert(keys.push(last.addr).to_set() =~= keys.to_set().insert(last.addr)) by {
                assert(keys.push(last.addr)[keys.len() as int] == last.addr);
                assert forall|a: AddressKey| #[trigger] keys.contains(a) implies keys.push(
                    last.addr,
                ).contains(a) by {
                    let i = keys.index_of(a);
                    assert(keys.push(last.addr)[i] == a);
                }
            }
            assert(!keys.contains(last.addr)) by {
                assert(keys.to_set().contains(last.addr) == keys.contains(last.addr));
            }
        } else {
            assert(ejected_in(table) =~= ejected_in(rest));
        }
    }
}

/// Putting a record into a table decides whether that address is ejected, and
/// changes nothing else.
pub proof fn lemma_put_ejected(
    table: Map<AddressKey, ChannelStats>,
    addr: AddressKey,
    stats: ChannelStats,
)
    ensures
        stats.ejected() ==> ejected_in(table.insert(addr, stats)) == ejected_in(table).insert(addr),
        !stats.ejected() ==> ejected_in(table.insert(addr, stats)) == ejected_in(table).remove(addr),
        ejected_in(table).contains(addr) <==> (lookup(table, addr) matches Some(held)
            && held.ejected()),
{
    if stats.ejected() {
        assert(ejected_in(table.insert(addr, stats)) =~= ejected_in(table).insert(addr));
    } else {
        assert(ejected_in(table.insert(addr, stats)) =~= ejected_in(table).remove(addr));
    }
}

/// A table with a channel that is not ejected has fewer ejected channels than
/// channels.
pub proof fn lemma_ejected_within(table: Map<AddressKey, ChannelStats>, addr: AddressKey)
    requires
        table.dom().finite(),
        table.dom().contains(addr),
        !table[addr].ejected(),
    ensures
        ejected_in(table).len() < table.dom().len(),
{
    vstd::set_lib::lemma_len_subset(ejected_in(table), table.dom().remove(addr));
}

/// Taking an address out of a table takes it out of the ejected ones.
pub proof fn lemma_take_ejected(table: Map<AddressKey, ChannelStats>, addr: AddressKey)
    ensures
        ejected_in(table.remove(addr)) == ejected_in(table).remove(addr),
        ejected_in(table).contains(addr) <==> (lookup(table, addr) matches Some(held)
            && held.ejected()),
{
    assert(ejected_in(table.remove(addr)) =~= ejected_in(table).remove(addr));
}

/// A sweep ejects a channel for each one that it counts.
pub proof fn lemma_ejections_counted(plan: SweepPlan, now: Instant, k: int)
    requires
        0 <= k <= plan.channels.len(),
    ensures
        ejected_keys(plan.swept_channels(now).take(k)).len() == ejected_keys(
            plan.channels.take(k),
        ).len() + plan.ejections_before(k),
    decreases k,
{
    let before = plan.channels.take(k);
    let after = plan.swept_channels(now).take(k);
    if k > 0 {
        lemma_ejections_counted(plan, now, k - 1);
        assert(before.drop_last() =~= plan.channels.take(k - 1));
        assert(after.drop_last() =~= plan.swept_channels(now).take(k - 1));
        assert(before.last() == plan.channels[k - 1]);
        assert(after.last() == plan.swept(k - 1, now));
    }
}

/// Ejections never shrink along the way and stay within the cap.
pub proof fn lemma_ejections_bounded(plan: SweepPlan, k: int)
    requires
        0 <= k,
    ensures
        0 <= plan.ejections_before(k) <= k,
        plan.ejected + plan.ejections_before(k) <= plan.cap || plan.ejections_before(k) == 0,
    decreases k,
{
    if k > 0 {
        lemma_ejections_bounded(plan, k - 1);
    }
}

/// Once the cap is reached nothing more is ejected.
pub proof fn lemma_ejections_stop(plan: SweepPlan, k: int, end: int)
    requires
        0 <= k <= end,
        plan.ejected + plan.ejections_before(k) >= plan.cap,
    ensures
        plan.ejections_before(end) == plan.ejections_before(k),
    decreases end,
{
    if k < end {
        lemma_ejections_stop(plan, k, end - 1);
    }
}

/// A sweep whose algorithm does not run ejects nothing.
pub proof fn lemma_idle_sweep(plan: SweepPlan, k: int)
    requires
        !plan.active(),
    ensures
        plan.ejections_before(k) == 0,
    decreases k,
{
    if k > 0 {
        lemma_idle_sweep(plan, k - 1);
    }
}

/// A sweep keeps every channel's address.
pub proof fn lemma_swept_addresses(
    plan: SweepPlan,
    now: Instant,
    table: Map<AddressKey, ChannelStats>,
)
    requires
        lists(plan.channels, table),
    ensures
        distinct_channels(plan.swept_channels(now)),
        forall|k: int|
            0 <= k < plan.channels.len() ==> table.dom().contains(
                (#[trigger] plan.swept_channels(now)[k]).addr,
            ),
{
    let swept = plan.swept_channels(now);
    assert forall|i: int, j: int|
        0 <= i < swept.len() && 0 <= j < swept.len() && i != j implies #[trigger] swept[i].addr
        != #[trigger] swept[j].addr by {
        assert(plan.channels[i].addr != plan.channels[j].addr);
    }
    assert forall|k: int| 0 <= k < plan.channels.len() implies table.dom().contains(
        (#[trigger] swept[k]).addr,
    ) by {
        assert(lookup(table, plan.channels[k].addr) is Some);
    }
}

/// A channel more qualifies or it does not.
pub proof fn lemma_qualifying_step(
    channels: Seq<ChannelView>,
    fp: FailurePercentageConfig,
    k: int,
)
    requires
        0 <= k < channels.len(),
    ensures
        ({
            let judge = |c: ChannelView| qualifies(fp, c.stats);
            let one = if qualifies(fp, channels[k].stats) {
                1nat
            } else {
                0nat
            };
            channels.take(k + 1).filter(judge).len() == channels.take(k).filter(judge).len() + one
        }),
{
    reveal(Seq::filter);
    assert(channels.take(k + 1).drop_last() =~= channels.take(k));
    assert(channels.take(k + 1).last() == channels[k]);
}

/// With a request volume of zero every channel qualifies.
proof fn lemma_all_qualify(channels: Seq<ChannelView>, fp: FailurePercentageConfig)
    requires
        fp.request_volume == 0,
    ensures
        channels.filter(|c: ChannelView| qualifies(fp, c.stats)).len() == channels.len(),
    decreases channels.len(),
{
    reveal(Seq::filter);
    if channels.len() > 0 {
        lemma_all_qualify(channels.drop_last(), fp);
    }
}

/// In a registry where sweeps are defined, each of them is.
pub proof fn lemma_any_plan_defined(
    registry: RegistryView,
    channels: Seq<ChannelView>,
    rolls: Seq<bool>,
)
    requires
        registry.wf(),
        sweep_defined(registry),
        lists(channels, registry.channels),
    ensures
        sweep_plan(registry, channels, rolls).defined(),
{
    let plan = sweep_plan(registry, channels, rolls);
    lemma_listed_sizes(channels, registry.channels);
    assert forall|k: int| 0 <= k < plan.channels.len() && #[trigger] plan.measures(
        k,
    ) implies plan.channels[k].stats.traffic() > 0 by {
        let fp = registry.config.failure_percentage->0;
        if fp.request_volume == 0 {
            lemma_all_qualify(channels, fp);
            lemma_ejections_bounded(plan, k);
            assert(registry.channels.dom().contains(channels[k].addr));
        }
    }
}

} // verus!
