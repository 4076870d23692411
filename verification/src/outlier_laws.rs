//! What holds of every sweep and of every ejection.

use crate::channel_state::{AddressKey, ChannelStats, ChannelView};
use crate::endpoint_pool::lookup;
use crate::outlier_config::OutlierDetectionConfig;
use crate::outlier_lemmas::{lemma_ejections_bounded, lemma_listed_sizes};
use crate::outlier_spec::{
    above_threshold, ejected_keys, ejection_nanos, housekeeps, max_ejections, qualifies,
    remaining_nanos, sweep_plan, RegistryView, SweepPlan,
};
use crate::time::{elapsed_nanos, Instant};
use vstd::prelude::*;

verus! {

/// A pool that is not empty may always eject one channel, and never more than
/// all of them.
pub proof fn law_cap_within_pool(len: int, config: OutlierDetectionConfig)
    requires
        len > 0,
        config.max_ejection_percent.value() <= 100,
    ensures
        1 <= max_ejections(len, config) <= len,
{
    let percent = config.max_ejection_percent.value();
    assert(len * percent <= len * 100) by (nonlinear_arith)
        requires
            len > 0,
            percent <= 100,
    ;
}

/// A sweep never takes the number of ejected channels above the cap: where it
/// ejects at all, it ends at the cap or below.
pub proof fn law_sweep_respects_cap(
    before: RegistryView,
    channels: Seq<ChannelView>,
    rolls: Seq<bool>,
    now: Instant,
    after: RegistryView,
    snapshot: Option<Seq<AddressKey>>,
)
    requires
        housekeeps(before, channels, rolls, now, after, snapshot),
    ensures
        after.ejected_count >= before.ejected_count,
        after.ejected_count > before.ejected_count ==> after.ejected_count <= before.max_ejections(),
{
    lemma_ejections_bounded(sweep_plan(before, channels, rolls), channels.len() as int);
}

/// A sweep keeps every channel of the pool and adds none.
pub proof fn law_sweep_keeps_pool(
    before: RegistryView,
    channels: Seq<ChannelView>,
    rolls: Seq<bool>,
    now: Instant,
    after: RegistryView,
    snapshot: Option<Seq<AddressKey>>,
)
    requires
        housekeeps(before, channels, rolls, now, after, snapshot),
    ensures
        after.channels.dom() == before.channels.dom(),
{
    let swept = sweep_plan(before, channels, rolls).swept_channels(now);
    assert forall|a: AddressKey| after.channels.dom().contains(a) == before.channels.dom().contains(
        a,
    ) by {
        if after.channels.dom().contains(a) {
            let k = choose|k: int| 0 <= k < swept.len() && #[trigger] swept[k].addr == a;
            assert(lookup(before.channels, channels[k].addr) is Some);
        }
        if before.channels.dom().contains(a) {
            let k = choose|k: int| 0 <= k < channels.len() && #[trigger] channels[k].addr == a;
            assert(lookup(after.channels, swept[k].addr) is Some);
        }
    }
    assert(after.channels.dom() =~= before.channels.dom());
}

/// What a sweep does to one channel: its counters are zero afterwards; it stays
/// ejected if it was, with its multiplier and time of ejection; if it becomes
/// ejected, that is at the time of the sweep and with a multiplier one higher;
/// otherwise its multiplier is one lower.
pub proof fn law_sweep_per_channel(
    before: RegistryView,
    channels: Seq<ChannelView>,
    rolls: Seq<bool>,
    now: Instant,
    after: RegistryView,
    snapshot: Option<Seq<AddressKey>>,
    addr: AddressKey,
)
    requires
        housekeeps(before, channels, rolls, now, after, snapshot),
        before.channels.dom().contains(addr),
    ensures
        after.channels.dom().contains(addr),
        after.channels[addr].traffic() == 0,
        before.channels[addr].ejected() ==> after.channels[addr] == before.channels[addr].reset(),
        !before.channels[addr].ejected() && after.channels[addr].ejected()
            ==> after.channels[addr] == before.channels[addr].after_eject(now).reset(),
        !after.channels[addr].ejected() ==> after.channels[addr]
            == before.channels[addr].reset().calmed(),
{
    let swept = sweep_plan(before, channels, rolls).swept_channels(now);
    let k = choose|k: int| 0 <= k < channels.len() && #[trigger] channels[k].addr == addr;
    assert(lookup(before.channels, channels[k].addr) == Some(channels[k].stats));
    assert(lookup(after.channels, swept[k].addr) == Some(swept[k].stats));
}

/// A sweep leaves every registered channel the one that it is, so that those who
/// hold its state go on to speak of it.
pub proof fn law_sweep_keeps_handles(
    before: RegistryView,
    channels: Seq<ChannelView>,
    rolls: Seq<bool>,
    now: Instant,
    after: RegistryView,
    snapshot: Option<Seq<AddressKey>>,
    channel: ChannelView,
)
    requires
        housekeeps(before, channels, rolls, now, after, snapshot),
        before.attached(channel),
    ensures
        after.attached(channel),
        after.stats_of(channel) == after.channels[channel.addr],
{
    law_sweep_per_channel(before, channels, rolls, now, after, snapshot, channel.addr);
}

/// No registry takes a channel for its own that no registry has made.
pub proof fn law_unregistered_is_not_attached(registry: RegistryView, channel: ChannelView)
    requires
        registry.wf(),
        channel.stats.serial == ChannelStats::fresh(0).serial,
    ensures
        !registry.attached(channel),
        registry.stats_of(channel) == channel.stats,
{
}

/// A channel that was removed, or that no registry has made, does not become
/// registered when another one is registered at its address. Left out is a channel
/// whose serial number is the next to be given out: a registry gave it out before
/// only if its numbers have come round.
pub proof fn law_removed_stays_removed(registry: RegistryView, channel: ChannelView)
    requires
        registry.wf(),
        channel.stats.serial != registry.next_serial,
    ensures
        ({
            let without = RegistryView {
                channels: registry.channels.remove(channel.addr),
                ..registry
            };
            let anew = without.with_channel(
                channel.addr,
                ChannelStats::fresh(registry.next_serial),
            );
            &&& !without.attached(channel)
            &&& !anew.attached(channel)
            &&& without.stats_of(channel) == channel.stats
            &&& anew.stats_of(channel) == channel.stats
        }),
{
}

/// A sweep ejects a channel only if the algorithm is configured, enough
/// channels saw enough requests, this one among them, and strictly more than
/// the threshold of its requests failed.
pub proof fn law_ejected_only_for_cause(
    before: RegistryView,
    channels: Seq<ChannelView>,
    rolls: Seq<bool>,
    now: Instant,
    after: RegistryView,
    snapshot: Option<Seq<AddressKey>>,
    addr: AddressKey,
)
    requires
        housekeeps(before, channels, rolls, now, after, snapshot),
        before.channels.dom().contains(addr),
        !before.channels[addr].ejected(),
        after.channels[addr].ejected(),
    ensures
        ({
            let stats = before.channels[addr];
            &&& before.config.failure_percentage matches Some(fp)
            &&& stats.traffic() >= fp.request_volume
            &&& 100 * stats.failures > fp.threshold.value() * stats.traffic()
            &&& channels.filter(|c: ChannelView| qualifies(fp, c.stats)).len() >= fp.minimum_hosts
            &&& fp.enforcing_failure_percentage.value() > 0
        }),
{
    let plan = sweep_plan(before, channels, rolls);
    let swept = plan.swept_channels(now);
    let k = choose|k: int| 0 <= k < channels.len() && #[trigger] channels[k].addr == addr;
    assert(lookup(before.channels, channels[k].addr) == Some(channels[k].stats));
    assert(lookup(after.channels, swept[k].addr) == Some(swept[k].stats));
    assert(plan.ejects(k));
    let fp = before.config.failure_percentage->0;
    let total = channels[k].stats.traffic();
    let failed = channels[k].stats.failures as int;
    let threshold = fp.threshold.value() as int;
    assert(100 * failed > threshold * total) by (nonlinear_arith)
        requires
            total > 0,
            100 * failed / total > threshold,
            threshold >= 0,
    ;
}

/// With enforcement at zero percent no sweep ejects anything.
pub proof fn law_no_enforcement_no_ejection(
    before: RegistryView,
    channels: Seq<ChannelView>,
    rolls: Seq<bool>,
    now: Instant,
    after: RegistryView,
    snapshot: Option<Seq<AddressKey>>,
)
    requires
        housekeeps(before, channels, rolls, now, after, snapshot),
        before.config.failure_percentage matches Some(fp)
            && fp.enforcing_failure_percentage.value() == 0,
    ensures
        after.ejected_count == before.ejected_count,
{
    lemma_no_roll_no_ejection(sweep_plan(before, channels, rolls), channels.len() as int);
}

proof fn lemma_no_roll_no_ejection(plan: SweepPlan, k: int)
    requires
        k <= plan.channels.len(),
        forall|j: int| 0 <= j < plan.channels.len() ==> !#[trigger] plan.rolls[j],
    ensures
        plan.ejections_before(k) == 0,
    decreases k,
{
    if k > 0 {
        lemma_no_roll_no_ejection(plan, k - 1);
        assert(!plan.rolls[k - 1]);
    }
}

/// With full enforcement a sweep ejects every outlier, unless it reaches the cap.
pub proof fn law_outliers_ejected_up_to_cap(
    before: RegistryView,
    channels: Seq<ChannelView>,
    rolls: Seq<bool>,
    now: Instant,
    after: RegistryView,
    snapshot: Option<Seq<AddressKey>>,
    addr: AddressKey,
)
    requires
        housekeeps(before, channels, rolls, now, after, snapshot),
        before.config.failure_percentage matches Some(fp)
            && fp.enforcing_failure_percentage.value() == 100 && channels.filter(
            |c: ChannelView| qualifies(fp, c.stats),
        ).len() >= fp.minimum_hosts,
        before.channels.dom().contains(addr),
        ({
            let fp = before.config.failure_percentage->0;
            &&& qualifies(fp, before.channels[addr])
            &&& above_threshold(fp, before.channels[addr])
        }),
    ensures
        after.channels[addr].ejected() || after.ejected_count >= before.max_ejections(),
{
    let plan = sweep_plan(before, channels, rolls);
    let swept = plan.swept_channels(now);
    let k = choose|k: int| 0 <= k < channels.len() && #[trigger] channels[k].addr == addr;
    assert(lookup(before.channels, channels[k].addr) == Some(channels[k].stats));
    assert(lookup(after.channels, swept[k].addr) == Some(swept[k].stats));
    if !channels[k].stats.ejected() {
        assert(plan.rolls[k]);
        lemma_ejections_grow(plan, k, channels.len() as int);
    }
}

proof fn lemma_ejections_grow(plan: SweepPlan, few: int, many: int)
    requires
        few <= many,
    ensures
        plan.ejections_before(few) <= plan.ejections_before(many),
    decreases many - few,
{
    if few < many {
        lemma_ejections_grow(plan, few, many - 1);
    }
}

/// With full enforcement and room for all, a sweep ejects every outlier.
pub proof fn law_full_enforcement_ejects_outliers(
    before: RegistryView,
    channels: Seq<ChannelView>,
    rolls: Seq<bool>,
    now: Instant,
    after: RegistryView,
    snapshot: Option<Seq<AddressKey>>,
    addr: AddressKey,
)
    requires
        before.wf(),
        housekeeps(before, channels, rolls, now, after, snapshot),
        before.config.failure_percentage matches Some(fp)
            && fp.enforcing_failure_percentage.value() == 100 && channels.filter(
            |c: ChannelView| qualifies(fp, c.stats),
        ).len() >= fp.minimum_hosts,
        before.max_ejections() == before.channels.dom().len(),
        before.channels.dom().contains(addr),
        ({
            let fp = before.config.failure_percentage->0;
            &&& qualifies(fp, before.channels[addr])
            &&& above_threshold(fp, before.channels[addr])
        }),
    ensures
        after.channels[addr].ejected(),
{
    let plan = sweep_plan(before, channels, rolls);
    let swept = plan.swept_channels(now);
    let k = choose|k: int| 0 <= k < channels.len() && #[trigger] channels[k].addr == addr;
    assert(lookup(before.channels, channels[k].addr) == Some(channels[k].stats));
    assert(lookup(after.channels, swept[k].addr) == Some(swept[k].stats));
    if !channels[k].stats.ejected() {
        lemma_listed_sizes(channels, before.channels);
        assert(plan.rolls[k]);
        lemma_room_before(plan, k, channels.len() as int);
        assert(channels.take(channels.len() as int) =~= channels);
    }
}

/// Ejected channels and ejections among the first ones are no more than those
/// are, and fewer if one of them is neither.
proof fn lemma_room_before(plan: SweepPlan, k: int, end: int)
    requires
        0 <= k < end <= plan.channels.len(),
        !plan.channels[k].stats.ejected(),
    ensures
        ejected_keys(plan.channels.take(end)).len() + plan.ejections_before(k) < end,
    decreases end,
{
    let front = plan.channels.take(end);
    assert(front.drop_last() =~= plan.channels.take(end - 1));
    assert(front.last() == plan.channels[end - 1]);
    if k < end - 1 {
        lemma_room_before(plan, k, end - 1);
    } else {
        lemma_ejections_and_ejected(plan, k);
    }
}

proof fn lemma_ejections_and_ejected(plan: SweepPlan, k: int)
    requires
        0 <= k <= plan.channels.len(),
    ensures
        ejected_keys(plan.channels.take(k)).len() + plan.ejections_before(k) <= k,
    decreases k,
{
    if k > 0 {
        lemma_ejections_and_ejected(plan, k - 1);
        assert(plan.channels.take(k).drop_last() =~= plan.channels.take(k - 1));
        assert(plan.channels.take(k).last() == plan.channels[k - 1]);
    }
}

/// What a sweep broadcasts is the set of ejected channels after it, each once.
pub proof fn law_snapshot_is_ejected_set(
    before: RegistryView,
    channels: Seq<ChannelView>,
    rolls: Seq<bool>,
    now: Instant,
    after: RegistryView,
    snapshot: Option<Seq<AddressKey>>,
)
    requires
        housekeeps(before, channels, rolls, now, after, snapshot),
        snapshot is Some,
    ensures
        snapshot->0.to_set() == after.ejected_set(),
        snapshot->0.no_duplicates(),
{
    lemma_listed_sizes(sweep_plan(before, channels, rolls).swept_channels(now), after.channels);
}

/// A sweep is quiet exactly when the version was broadcast before and the sweep
/// ejects nothing, and then the set of ejected channels is what it was.
pub proof fn law_quiet_sweep(
    before: RegistryView,
    channels: Seq<ChannelView>,
    rolls: Seq<bool>,
    now: Instant,
    after: RegistryView,
    snapshot: Option<Seq<AddressKey>>,
)
    requires
        before.wf(),
        housekeeps(before, channels, rolls, now, after, snapshot),
        before.last_broadcast_version == before.ejected_set_version,
        channels.len() <= usize::MAX,
    ensures
        snapshot is None <==> after.ejected_count == before.ejected_count,
        snapshot is None ==> after.ejected_set() == before.ejected_set(),
{
    let plan = sweep_plan(before, channels, rolls);
    lemma_ejections_bounded(plan, channels.len() as int);
    if snapshot is None {
        law_sweep_keeps_pool(before, channels, rolls, now, after, snapshot);
        assert forall|a: AddressKey| after.ejected_set().contains(a)
            == before.ejected_set().contains(a) by {
            if before.channels.dom().contains(a) {
                law_sweep_per_channel(before, channels, rolls, now, after, snapshot, a);
                let k = choose|k: int| 0 <= k < channels.len() && #[trigger] channels[k].addr == a;
                assert(lookup(before.channels, channels[k].addr) == Some(channels[k].stats));
                assert(lookup(after.channels, plan.swept_channels(now)[k].addr) is Some);
                lemma_none_ejected(plan, k, channels.len() as int);
            }
        }
        assert(after.ejected_set() =~= before.ejected_set());
    }
}

/// If the set of ejected channels changed since it was broadcast, the next sweep
/// broadcasts it. `changes` counts the changes; so many that the version comes
/// round to itself are left out.
pub proof fn law_change_is_broadcast(
    before: RegistryView,
    channels: Seq<ChannelView>,
    rolls: Seq<bool>,
    now: Instant,
    after: RegistryView,
    snapshot: Option<Seq<AddressKey>>,
    changes: u64,
)
    requires
        housekeeps(before, channels, rolls, now, after, snapshot),
        before.ejected_set_version == before.last_broadcast_version.wrapping_add(changes),
        changes > 0,
        changes + channels.len() <= u64::MAX,
    ensures
        snapshot is Some,
        after.last_broadcast_version == after.ejected_set_version,
{
    let plan = sweep_plan(before, channels, rolls);
    lemma_ejections_bounded(plan, channels.len() as int);
}

proof fn lemma_none_ejected(plan: SweepPlan, k: int, end: int)
    requires
        0 <= k < end <= plan.channels.len(),
        plan.ejections_before(end) == 0,
    ensures
        !plan.ejects(k),
    decreases end,
{
    lemma_ejections_bounded(plan, end - 1);
    if k < end - 1 {
        lemma_none_ejected(plan, k, end - 1);
    }
}

/// An ejection that is lifted leaves no trace: the multiplier is what it was, so
/// that an ejection right after it lasts as long as the first.
pub proof fn law_uneject_undoes_eject(stats: ChannelStats, first: Instant, second: Instant)
    requires
        !stats.ejected(),
        stats.multiplier < u32::MAX,
    ensures
        stats.after_eject(first).after_uneject().calmed() == stats,
        stats.after_eject(first).after_uneject().calmed().after_eject(second)
            == stats.after_eject(second),
{
}

/// For the registry, too, an ejection that is lifted leaves no trace but two
/// changes of the set of ejected channels.
pub proof fn law_registry_recovers(registry: RegistryView, addr: AddressKey, now: Instant)
    requires
        registry.wf(),
        registry.ejected_count < u64::MAX,
        registry.channels.dom().contains(addr),
        !registry.channels[addr].ejected(),
        registry.channels[addr].multiplier < u32::MAX,
    ensures
        ({
            let ejected = registry.with_channel(
                addr,
                registry.channels[addr].after_eject(now),
            ).one_more_ejected();
            let recovered = ejected.with_channel(
                addr,
                ejected.channels[addr].after_uneject().calmed(),
            ).one_less_ejected();
            recovered == (RegistryView {
                ejected_set_version: registry.ejected_set_version.wrapping_add(2),
                ..registry
            })
        }),
{
    let ejected = registry.with_channel(
        addr,
        registry.channels[addr].after_eject(now),
    ).one_more_ejected();
    let recovered = ejected.with_channel(
        addr,
        ejected.channels[addr].after_uneject().calmed(),
    ).one_less_ejected();
    assert(recovered.channels =~= registry.channels);
}

/// An ejection runs from its full time down to nothing, never longer than the
/// maximum time, and time passing never adds to it.
pub proof fn law_remaining_runs_down(
    config: OutlierDetectionConfig,
    stats: ChannelStats,
    now: Instant,
    later: Instant,
)
    requires
        stats.ejected(),
        now.nanos <= later.nanos,
    ensures
        0 <= remaining_nanos(config, stats, later) <= remaining_nanos(config, stats, now)
            <= ejection_nanos(config, stats.multiplier),
        ejection_nanos(config, stats.multiplier) <= config.max_ejection_time.nanos,
        remaining_nanos(config, stats, stats.ejected_at->0) == ejection_nanos(
            config,
            stats.multiplier,
        ),
        elapsed_nanos(stats.ejected_at->0, now) >= ejection_nanos(config, stats.multiplier)
            ==> remaining_nanos(config, stats, now) == 0,
{
    assert(config.base_ejection_time.nanos * stats.multiplier >= 0) by (nonlinear_arith);
}

/// A channel's first ejection lasts the base time, or the maximum time if that is
/// shorter.
pub proof fn law_first_ejection_lasts_base_time(
    config: OutlierDetectionConfig,
    stats: ChannelStats,
    now: Instant,
)
    requires
        stats.multiplier == 0,
    ensures
        ejection_nanos(config, stats.after_eject(now).multiplier) == (if
            config.base_ejection_time.nanos <= config.max_ejection_time.nanos {
            config.base_ejection_time.nanos
        } else {
            config.max_ejection_time.nanos
        }),
{
    assert(config.base_ejection_time.nanos * 1 == config.base_ejection_time.nanos);
}

} // verus!
