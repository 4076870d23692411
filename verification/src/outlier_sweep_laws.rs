//! What a sweep does to a pool, told by the counters of its channels, the
//! configured percentages and the rolls.

use crate::channel_state::{AddressKey, ChannelStats, ChannelView, EndpointAddress};
use crate::endpoint_pool::{lists, lookup};
use crate::outlier_config::{FailurePercentageConfig, OutlierDetectionConfig};
use crate::outlier_detection::drawn_below;
use crate::outlier_lemmas::{
    lemma_any_plan_defined, lemma_ejections_bounded, lemma_idle_sweep, lemma_listed_sizes,
};
use crate::outlier_spec::{
    hit, housekeeps, max_ejections, qualifies, roll_possible, rolls_possible, snapshot_keys,
    sweep_defined, sweep_plan, sweeps, RegistryView, SweepPlan,
};
use crate::time::Instant;
use vstd::prelude::*;

verus! {

/// The cap is the share of the pool, rounded down: it is within the share, or just
/// one, and one more would be beyond. An empty pool has none to eject.
pub proof fn law_cap_is_the_share(len: int, config: OutlierDetectionConfig)
    requires
        len >= 0,
    ensures
        ({
            let cap = max_ejections(len, config);
            let percent = config.max_ejection_percent.value() as int;
            &&& len == 0 ==> cap == 0
            &&& len > 0 ==> cap >= 1
            &&& len > 0 ==> cap == 1 || 100 * cap <= len * percent
            &&& len > 0 ==> 100 * (cap + 1) > len * percent
        }),
{
}

/// The registry's cap is that of its pool under its configuration.
pub proof fn law_cap_of_a_registry(registry: RegistryView)
    ensures
        ({
            let len = registry.channels.dom().len() as int;
            let cap = registry.max_ejections();
            let percent = registry.config.max_ejection_percent.value() as int;
            &&& len == 0 ==> cap == 0
            &&& len > 0 ==> cap >= 1
            &&& len > 0 ==> cap == 1 || 100 * cap <= len * percent
            &&& len > 0 ==> 100 * (cap + 1) > len * percent
        }),
{
    law_cap_is_the_share(registry.channels.dom().len() as int, registry.config);
}

/// Where channel `k` of a listing stands before and after a sweep.
proof fn lemma_places(
    before: RegistryView,
    channels: Seq<ChannelView>,
    rolls: Seq<bool>,
    now: Instant,
    after: RegistryView,
    k: int,
)
    requires
        lists(channels, before.channels),
        sweeps(before, sweep_plan(before, channels, rolls), now, after),
        0 <= k < channels.len(),
    ensures
        before.channels.dom().contains(channels[k].addr),
        before.channels[channels[k].addr] == channels[k].stats,
        after.channels.dom().contains(channels[k].addr),
        after.channels[channels[k].addr] == sweep_plan(before, channels, rolls).swept(
            k,
            now,
        ).stats,
{
    let plan = sweep_plan(before, channels, rolls);
    let swept = plan.swept_channels(now);
    assert(lookup(before.channels, channels[k].addr) == Some(channels[k].stats));
    assert(swept[k] == plan.swept(k, now));
    assert(lookup(after.channels, swept[k].addr) == Some(swept[k].stats));
}

proof fn lemma_same_filter(channels: Seq<ChannelView>, fp: FailurePercentageConfig)
    ensures
        channels.filter(|c: ChannelView| qualifies(fp, c.stats)) == channels.filter(
            |c: ChannelView| c.stats.successes + c.stats.failures >= fp.request_volume,
        ),
{
    let spoken = |c: ChannelView| qualifies(fp, c.stats);
    let counted = |c: ChannelView| c.stats.successes + c.stats.failures >= fp.request_volume;
    assert(spoken =~= counted);
}

proof fn lemma_more_ejections(plan: SweepPlan, few: int, many: int)
    requires
        few <= many,
    ensures
        plan.ejections_before(few) <= plan.ejections_before(many),
    decreases many - few,
{
    if few < many {
        lemma_more_ejections(plan, few, many - 1);
    }
}

/// An outlier whose roll hits is ejected, unless the sweep reaches the cap. An
/// outlier is a channel that is not ejected, saw at least the request volume, and
/// failed more than the threshold of its requests, in whole percent. Enough
/// channels must have seen the request volume.
pub proof fn law_outlier_is_ejected(
    before: RegistryView,
    channels: Seq<ChannelView>,
    rolls: Seq<bool>,
    now: Instant,
    after: RegistryView,
    fp: FailurePercentageConfig,
    k: int,
)
    requires
        lists(channels, before.channels),
        sweeps(before, sweep_plan(before, channels, rolls), now, after),
        before.config.failure_percentage == Some(fp),
        channels.filter(
            |c: ChannelView| c.stats.successes + c.stats.failures >= fp.request_volume,
        ).len() >= fp.minimum_hosts,
        0 <= k < channels.len(),
        channels[k].stats.ejected_at is None,
        channels[k].stats.successes + channels[k].stats.failures >= fp.request_volume,
        channels[k].stats.successes + channels[k].stats.failures > 0,
        100 * channels[k].stats.failures / (channels[k].stats.successes
            + channels[k].stats.failures) > fp.threshold.value(),
        rolls[k],
    ensures
        ({
            let percent = before.config.max_ejection_percent.value() as int;
            ||| after.channels[channels[k].addr].ejected_at == Some(now)
            ||| after.ejected_count >= 1 && 100 * (after.ejected_count + 1) > channels.len()
                * percent
        }),
{
    let plan = sweep_plan(before, channels, rolls);
    lemma_places(before, channels, rolls, now, after, k);
    lemma_listed_sizes(channels, before.channels);
    lemma_same_filter(channels, fp);
    law_cap_of_a_registry(before);
    assert(plan.active());
    assert(plan.condemned(k));
    if !plan.ejects(k) {
        lemma_more_ejections(plan, k, channels.len() as int);
        assert(after.ejected_count >= before.max_ejections());
        let percent = before.config.max_ejection_percent.value() as int;
        let len = channels.len() as int;
        assert(100 * (before.max_ejections() + 1) > len * percent);
    }
}

/// With full enforcement every outlier of the pool is ejected, unless the sweep
/// reaches the cap.
pub proof fn law_full_enforcement(
    before: RegistryView,
    channels: Seq<ChannelView>,
    rolls: Seq<bool>,
    now: Instant,
    after: RegistryView,
    snapshot: Option<Seq<AddressKey>>,
    fp: FailurePercentageConfig,
    addr: AddressKey,
)
    requires
        housekeeps(before, channels, rolls, now, after, snapshot),
        before.config.failure_percentage == Some(fp),
        fp.enforcing_failure_percentage.value() >= 100,
        channels.filter(
            |c: ChannelView| c.stats.successes + c.stats.failures >= fp.request_volume,
        ).len() >= fp.minimum_hosts,
        before.channels.dom().contains(addr),
        before.channels[addr].ejected_at is None,
        before.channels[addr].successes + before.channels[addr].failures >= fp.request_volume,
        before.channels[addr].successes + before.channels[addr].failures > 0,
        100 * before.channels[addr].failures / (before.channels[addr].successes
            + before.channels[addr].failures) > fp.threshold.value(),
    ensures
        ({
            let percent = before.config.max_ejection_percent.value() as int;
            let len = before.channels.dom().len() as int;
            ||| after.channels[addr].ejected_at == Some(now)
            ||| after.ejected_count >= 1 && 100 * (after.ejected_count + 1) > len * percent
        }),
{
    let k = choose|k: int| 0 <= k < channels.len() && #[trigger] channels[k].addr == addr;
    lemma_places(before, channels, rolls, now, after, k);
    lemma_listed_sizes(channels, before.channels);
    assert(rolls[k]);
    law_outlier_is_ejected(before, channels, rolls, now, after, fp, k);
}

/// A sweep ejects a channel only if it is an outlier whose roll hit, enough
/// channels saw the request volume, and the count stays within the share of the
/// pool or at one.
pub proof fn law_cause_of_ejection(
    before: RegistryView,
    channels: Seq<ChannelView>,
    rolls: Seq<bool>,
    now: Instant,
    after: RegistryView,
    k: int,
)
    requires
        lists(channels, before.channels),
        sweeps(before, sweep_plan(before, channels, rolls), now, after),
        0 <= k < channels.len(),
        channels[k].stats.ejected_at is None,
        after.channels[channels[k].addr].ejected_at is Some,
    ensures
        ({
            let fp = before.config.failure_percentage->0;
            let stats = channels[k].stats;
            let total = stats.successes + stats.failures;
            let percent = before.config.max_ejection_percent.value() as int;
            &&& before.config.failure_percentage is Some
            &&& total >= fp.request_volume
            &&& total > 0
            &&& 100 * stats.failures / total > fp.threshold.value()
            &&& rolls[k]
            &&& channels.filter(
                |c: ChannelView| c.stats.successes + c.stats.failures >= fp.request_volume,
            ).len() >= fp.minimum_hosts
            &&& after.channels[channels[k].addr].ejected_at == Some(now)
            &&& after.ejected_count == 1 || 100 * after.ejected_count <= channels.len() * percent
        }),
{
    let plan = sweep_plan(before, channels, rolls);
    lemma_places(before, channels, rolls, now, after, k);
    lemma_listed_sizes(channels, before.channels);
    let fp = before.config.failure_percentage->0;
    lemma_same_filter(channels, fp);
    assert(plan.ejects(k));
    lemma_more_ejections(plan, k + 1, channels.len() as int);
    lemma_ejections_bounded(plan, k);
    lemma_ejections_bounded(plan, channels.len() as int);
    law_cap_of_a_registry(before);
    let percent = before.config.max_ejection_percent.value() as int;
    let len = channels.len() as int;
    let cap = before.max_ejections();
    assert(after.ejected_count <= cap);
    assert(after.ejected_count >= 1);
    assert(cap == 1 || 100 * cap <= len * percent);
}

/// The sweep visits channels in order: of two outliers whose rolls hit, the later
/// one is not ejected in place of the earlier one.
pub proof fn law_earlier_outliers_come_first(
    before: RegistryView,
    channels: Seq<ChannelView>,
    rolls: Seq<bool>,
    now: Instant,
    after: RegistryView,
    fp: FailurePercentageConfig,
    j: int,
    k: int,
)
    requires
        lists(channels, before.channels),
        sweeps(before, sweep_plan(before, channels, rolls), now, after),
        before.config.failure_percentage == Some(fp),
        0 <= j < k < channels.len(),
        channels[k].stats.ejected_at is None,
        after.channels[channels[k].addr].ejected_at is Some,
        channels[j].stats.ejected_at is None,
        channels[j].stats.successes + channels[j].stats.failures >= fp.request_volume,
        channels[j].stats.successes + channels[j].stats.failures > 0,
        100 * channels[j].stats.failures / (channels[j].stats.successes
            + channels[j].stats.failures) > fp.threshold.value(),
        rolls[j],
    ensures
        after.channels[channels[j].addr].ejected_at == Some(now),
{
    let plan = sweep_plan(before, channels, rolls);
    lemma_places(before, channels, rolls, now, after, k);
    lemma_places(before, channels, rolls, now, after, j);
    assert(plan.ejects(k));
    lemma_more_ejections(plan, j, k);
    assert(plan.condemned(j));
}

/// A sweep starts every channel's counters anew and leaves each channel the one
/// that it is. One that was ejected stays so, with its time and its multiplier.
/// One that becomes ejected is so from the time of the sweep, with a multiplier one
/// higher. The multiplier of any other is one lower, but not below zero.
pub proof fn law_sweep_of_a_channel(
    before: RegistryView,
    channels: Seq<ChannelView>,
    rolls: Seq<bool>,
    now: Instant,
    after: RegistryView,
    addr: AddressKey,
)
    requires
        lists(channels, before.channels),
        sweeps(before, sweep_plan(before, channels, rolls), now, after),
        before.channels.dom().contains(addr),
    ensures
        ({
            let old_stats = before.channels[addr];
            let new_stats = after.channels[addr];
            &&& after.channels.dom().contains(addr)
            &&& new_stats.successes == 0
            &&& new_stats.failures == 0
            &&& new_stats.serial == old_stats.serial
            &&& old_stats.ejected_at is Some ==> new_stats.ejected_at == old_stats.ejected_at
                && new_stats.multiplier == old_stats.multiplier
            &&& old_stats.ejected_at is None && new_stats.ejected_at is Some
                ==> new_stats.ejected_at == Some(now) && (new_stats.multiplier
                == old_stats.multiplier + 1 || (old_stats.multiplier == u32::MAX
                && new_stats.multiplier == u32::MAX))
            &&& new_stats.ejected_at is None ==> old_stats.ejected_at is None && (
            new_stats.multiplier + 1 == old_stats.multiplier || (old_stats.multiplier == 0
                && new_stats.multiplier == 0))
        }),
{
    let k = choose|k: int| 0 <= k < channels.len() && #[trigger] channels[k].addr == addr;
    lemma_places(before, channels, rolls, now, after, k);
}

/// A sweep adds no channel, changes neither the configuration nor the clock, and
/// has broadcast all changes afterwards.
pub proof fn law_sweep_leaves_the_rest(
    before: RegistryView,
    channels: Seq<ChannelView>,
    rolls: Seq<bool>,
    now: Instant,
    after: RegistryView,
    addr: AddressKey,
)
    requires
        lists(channels, before.channels),
        sweeps(before, sweep_plan(before, channels, rolls), now, after),
    ensures
        after.channels.dom().contains(addr) <==> before.channels.dom().contains(addr),
        after.config == before.config,
        after.origin == before.origin,
        after.next_serial == before.next_serial,
        after.last_broadcast_version == after.ejected_set_version,
{
    let plan = sweep_plan(before, channels, rolls);
    let swept = plan.swept_channels(now);
    if after.channels.dom().contains(addr) {
        let k = choose|k: int| 0 <= k < swept.len() && #[trigger] swept[k].addr == addr;
        lemma_places(before, channels, rolls, now, after, k);
        assert(swept[k].addr == channels[k].addr);
    }
    if before.channels.dom().contains(addr) {
        let k = choose|k: int| 0 <= k < channels.len() && #[trigger] channels[k].addr == addr;
        lemma_places(before, channels, rolls, now, after, k);
    }
}

/// Without the algorithm, or with too few channels that saw the request volume, a
/// sweep ejects nothing.
pub proof fn law_too_few_hosts(
    before: RegistryView,
    channels: Seq<ChannelView>,
    rolls: Seq<bool>,
    now: Instant,
    after: RegistryView,
)
    requires
        lists(channels, before.channels),
        sweeps(before, sweep_plan(before, channels, rolls), now, after),
        before.config.failure_percentage is None || channels.filter(
            |c: ChannelView|
                c.stats.successes + c.stats.failures
                    >= before.config.failure_percentage->0.request_volume,
        ).len() < before.config.failure_percentage->0.minimum_hosts,
    ensures
        after.ejected_count == before.ejected_count,
        after.ejected_set_version == before.ejected_set_version,
{
    let plan = sweep_plan(before, channels, rolls);
    if before.config.failure_percentage is Some {
        lemma_same_filter(channels, before.config.failure_percentage->0);
    }
    lemma_idle_sweep(plan, channels.len() as int);
}

/// What is handed out after a sweep is the addresses of all channels that are
/// ejected then, each once, and of no other.
pub proof fn law_snapshot_lists_the_ejected(
    before: RegistryView,
    channels: Seq<ChannelView>,
    rolls: Seq<bool>,
    now: Instant,
    after: RegistryView,
    snapshot: Option<Seq<AddressKey>>,
    addr: AddressKey,
)
    requires
        housekeeps(before, channels, rolls, now, after, snapshot),
        snapshot is Some,
    ensures
        snapshot->0.no_duplicates(),
        snapshot->0.contains(addr) <==> after.channels.dom().contains(addr)
            && after.channels[addr].ejected_at is Some,
{
    let swept = sweep_plan(before, channels, rolls).swept_channels(now);
    lemma_listed_sizes(swept, after.channels);
    assert(snapshot->0.contains(addr) <==> snapshot->0.to_set().contains(addr));
}

/// The registry's count is the number of channels that are ejected.
pub proof fn law_count_of_the_ejected(registry: RegistryView)
    requires
        registry.wf(),
    ensures
        registry.ejected_count == registry.channels.dom().filter(
            |a: AddressKey| registry.channels[a].ejected_at is Some,
        ).len(),
{
    let spoken = |a: AddressKey| registry.channels[a].ejected();
    let written = |a: AddressKey| registry.channels[a].ejected_at is Some;
    assert(spoken =~= written);
}

/// Every change of the set of ejected channels makes the next sweep hand it out:
/// an ejection that is lifted, one that is made, and one that ends with the
/// removal of its channel. `settled` is a registry that has handed out all changes.
pub proof fn law_changes_are_handed_out(
    settled: RegistryView,
    changed: RegistryView,
    channels: Seq<ChannelView>,
    rolls: Seq<bool>,
    now: Instant,
    after: RegistryView,
    snapshot: Option<Seq<AddressKey>>,
    pool: Map<AddressKey, ChannelStats>,
)
    requires
        settled.last_broadcast_version == settled.ejected_set_version,
        changed == (RegistryView { channels: pool, ..settled }).one_less_ejected() || changed == (
        RegistryView { channels: pool, ..settled }).one_more_ejected(),
        housekeeps(changed, channels, rolls, now, after, snapshot),
        channels.len() < u64::MAX,
    ensures
        snapshot is Some,
{
    lemma_ejections_bounded(sweep_plan(changed, channels, rolls), channels.len() as int);
}

/// A sweep hands out nothing exactly if it ejects nothing and all changes before it
/// were handed out.
pub proof fn law_quiet_sweeps(
    before: RegistryView,
    channels: Seq<ChannelView>,
    rolls: Seq<bool>,
    now: Instant,
    after: RegistryView,
    snapshot: Option<Seq<AddressKey>>,
)
    requires
        housekeeps(before, channels, rolls, now, after, snapshot),
        channels.len() <= u64::MAX,
    ensures
        before.ejected_set_version == before.last_broadcast_version ==> (snapshot is None
            <==> after.ejected_count == before.ejected_count),
        after.ejected_count == before.ejected_count ==> (snapshot is None
            <==> before.ejected_set_version == before.last_broadcast_version),
{
    lemma_ejections_bounded(sweep_plan(before, channels, rolls), channels.len() as int);
}

/// How many of the numbers below `n` hit.
pub open spec fn hits_below(percent: u8, n: nat) -> nat
    decreases n,
{
    if n == 0 {
        0
    } else {
        hits_below(percent, (n - 1) as nat) + if hit(percent, (n - 1) as u32) {
            1nat
        } else {
            0nat
        }
    }
}

/// Of the hundred numbers that may be drawn, as many hit as the percentage says.
pub proof fn law_chance_of_a_hit(percent: u8)
    requires
        percent <= 100,
    ensures
        hits_below(percent, 100) == percent as nat,
{
    lemma_hits_below(percent, 100);
}

proof fn lemma_hits_below(percent: u8, n: nat)
    requires
        n <= 100,
    ensures
        hits_below(percent, n) == (if n <= percent {
            n
        } else {
            percent as nat
        }),
    decreases n,
{
    if n > 0 {
        lemma_hits_below(percent, (n - 1) as nat);
    }
}

/// The rolls of a sweep go by the configured enforcement: all hit at a hundred, none
/// at zero, and between them each is that of a number drawn below a hundred, which
/// hits if it is below the percentage.
pub proof fn law_rolls_of_a_sweep(
    config: OutlierDetectionConfig,
    fp: FailurePercentageConfig,
    rolls: Seq<bool>,
    k: int,
)
    requires
        rolls_possible(config, rolls),
        config.failure_percentage == Some(fp),
        0 <= k < rolls.len(),
    ensures
        ({
            let percent = fp.enforcing_failure_percentage.value();
            &&& percent >= 100 ==> rolls[k]
            &&& percent == 0 ==> !rolls[k]
            &&& 0 < percent < 100 ==> exists|drawn: u32| #[trigger]
                drawn_below(100, drawn) && rolls[k] == (drawn < percent)
        }),
{
    let percent = fp.enforcing_failure_percentage.value();
    assert(roll_possible(percent, rolls[k]));
    if 0 < percent < 100 {
        let drawn = choose|drawn: u32| #[trigger]
            drawn_below(100, drawn) && rolls[k] == hit(percent, drawn);
        assert(drawn_below(100, drawn) && rolls[k] == (drawn < percent));
    }
}

/// Sweeps are defined wherever a request volume is asked for, no algorithm is
/// configured, there are too few channels, as many are ejected as may be, or every
/// channel saw requests or is ejected.
pub proof fn law_sweeps_are_defined(
    registry: RegistryView,
    channels: Seq<ChannelView>,
    rolls: Seq<bool>,
)
    requires
        registry.wf(),
        lists(channels, registry.channels),
        ({
            ||| registry.config.failure_percentage is None
            ||| registry.config.failure_percentage->0.request_volume > 0
            ||| channels.len() < registry.config.failure_percentage->0.minimum_hosts
            ||| registry.ejected_count >= 1 && 100 * (registry.ejected_count + 1)
                > channels.len() * registry.config.max_ejection_percent.value()
            ||| forall|a: AddressKey| #[trigger]
                registry.channels.dom().contains(a) ==> registry.channels[a].ejected_at is Some
                    || registry.channels[a].successes + registry.channels[a].failures > 0
        }),
    ensures
        sweep_defined(registry),
        sweep_plan(registry, channels, rolls).defined(),
{
    lemma_listed_sizes(channels, registry.channels);
    law_cap_of_a_registry(registry);
    lemma_any_plan_defined(registry, channels, rolls);
}

proof fn lemma_all_pass(channels: Seq<ChannelView>, fp: FailurePercentageConfig)
    requires
        fp.request_volume == 0,
    ensures
        channels.filter(|c: ChannelView| qualifies(fp, c.stats)).len() == channels.len(),
    decreases channels.len(),
{
    reveal(Seq::filter);
    if channels.len() > 0 {
        lemma_all_pass(channels.drop_last(), fp);
    }
}

/// A sweep is not defined where it comes to a channel without requests while
/// there is room to eject it, and no request volume is asked for.
pub proof fn law_idle_channels_have_no_percentage(
    registry: RegistryView,
    channels: Seq<ChannelView>,
    rolls: Seq<bool>,
    fp: FailurePercentageConfig,
)
    requires
        lists(channels, registry.channels),
        registry.config.failure_percentage == Some(fp),
        fp.request_volume == 0,
        channels.len() >= fp.minimum_hosts,
        channels.len() > 0,
        channels[0].stats.ejected_at is None,
        channels[0].stats.successes + channels[0].stats.failures == 0,
        registry.ejected_count == 0 || 100 * (registry.ejected_count + 1) <= channels.len()
            * registry.config.max_ejection_percent.value(),
    ensures
        !sweep_defined(registry),
        !sweep_plan(registry, channels, rolls).defined(),
{
    let plan = sweep_plan(registry, channels, rolls);
    lemma_listed_sizes(channels, registry.channels);
    lemma_all_pass(channels, fp);
    law_cap_of_a_registry(registry);
    assert(lookup(registry.channels, channels[0].addr) == Some(channels[0].stats));
    assert(registry.channels.dom().contains(channels[0].addr));
    assert(registry.ejected_count < registry.max_ejections());
    assert(plan.ejections_before(0) == 0);
    assert(plan.measures(0));
}

/// The addresses that a sweep hands out are those of the vector, in order.
pub proof fn law_addresses_of_a_snapshot(snapshot: Option<Vec<EndpointAddress>>, i: int)
    ensures
        snapshot_keys(snapshot) is Some <==> snapshot is Some,
        snapshot matches Some(addresses) ==> snapshot_keys(snapshot)->0.len() == addresses@.len(),
        snapshot matches Some(addresses) ==> 0 <= i < addresses@.len() ==> snapshot_keys(
            snapshot,
        )->0[i] == (addresses@[i].host@, addresses@[i].port),
{
}

} // verus!
