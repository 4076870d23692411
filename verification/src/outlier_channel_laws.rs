//! What becomes of one channel's record, told by its counters, its multiplier and
//! the time of its ejection.

use crate::channel_state::{AddressKey, ChannelStats, ChannelView};
use crate::outlier_config::OutlierDetectionConfig;
use crate::outlier_spec::{following, remaining_nanos, RegistryView};
use crate::time::{elapsed_nanos, Instant};
use vstd::prelude::*;

verus! {

/// A request adds one to the counter of its outcome, and changes nothing else.
pub proof fn law_requests_are_counted(stats: ChannelStats, success: bool)
    requires
        stats.successes < u64::MAX,
        stats.failures < u64::MAX,
    ensures
        ({
            let counted = stats.counted(success);
            &&& counted.successes + counted.failures == stats.successes + stats.failures + 1
            &&& success ==> counted.successes == stats.successes + 1
            &&& !success ==> counted.failures == stats.failures + 1
            &&& counted.multiplier == stats.multiplier
            &&& counted.ejected_at == stats.ejected_at
            &&& counted.serial == stats.serial
        }),
{
}

/// A new channel has seen nothing and is not ejected.
pub proof fn law_new_channels(serial: u64)
    ensures
        ({
            let fresh = ChannelStats::fresh(serial);
            &&& fresh.serial == serial
            &&& fresh.successes == 0
            &&& fresh.failures == 0
            &&& fresh.multiplier == 0
            &&& fresh.ejected_at is None
        }),
{
}

/// An ejection notes its time and raises the multiplier by one, as far as that
/// goes; lifting it clears the time; calming lowers the multiplier by one, but not
/// below zero; and a reset clears both counters. None of them changes more.
pub proof fn law_steps_of_an_ejection(stats: ChannelStats, now: Instant)
    ensures
        ({
            let ejected = stats.after_eject(now);
            &&& ejected.ejected_at == Some(now)
            &&& stats.multiplier < u32::MAX ==> ejected.multiplier == stats.multiplier + 1
            &&& stats.multiplier == u32::MAX ==> ejected.multiplier == u32::MAX
            &&& ejected.successes == stats.successes
            &&& ejected.failures == stats.failures
            &&& ejected.serial == stats.serial
        }),
        ({
            let lifted = stats.after_uneject();
            &&& lifted.ejected_at is None
            &&& lifted.multiplier == stats.multiplier
            &&& lifted.successes == stats.successes
            &&& lifted.failures == stats.failures
            &&& lifted.serial == stats.serial
        }),
        ({
            let calmed = stats.calmed();
            &&& stats.multiplier > 0 ==> calmed.multiplier + 1 == stats.multiplier
            &&& stats.multiplier == 0 ==> calmed.multiplier == 0
            &&& calmed.ejected_at == stats.ejected_at
            &&& calmed.successes == stats.successes
            &&& calmed.failures == stats.failures
            &&& calmed.serial == stats.serial
        }),
        ({
            let reset = stats.reset();
            &&& reset.successes == 0
            &&& reset.failures == 0
            &&& reset.multiplier == stats.multiplier
            &&& reset.ejected_at == stats.ejected_at
            &&& reset.serial == stats.serial
        }),
        stats.ejected() <==> stats.ejected_at is Some,
        stats.traffic() == stats.successes + stats.failures,
{
}

/// The time that is left of an ejection, and the time that has passed of it, make
/// up as many base times as the multiplier says, or the maximum time if that is
/// shorter. Nothing is left exactly if as much has passed.
pub proof fn law_time_left_and_passed(
    config: OutlierDetectionConfig,
    stats: ChannelStats,
    at: Instant,
    now: Instant,
)
    requires
        stats.ejected_at == Some(at),
    ensures
        ({
            let left = remaining_nanos(config, stats, now);
            let passed = if now.nanos >= at.nanos {
                now.nanos - at.nanos
            } else {
                0
            };
            let base = config.base_ejection_time.nanos * stats.multiplier;
            let bound = config.max_ejection_time.nanos as int;
            &&& left >= 0
            &&& left > 0 ==> left + passed == base || left + passed == bound
            &&& left > 0 ==> left + passed <= base && left + passed <= bound
            &&& left == 0 <==> passed >= base || passed >= bound
        }),
{
    assert(config.base_ejection_time.nanos * stats.multiplier >= 0) by (nonlinear_arith);
}

/// Counts and versions of a registry: one channel more or less that is ejected is
/// one in the count, and a new version of the set. Nothing else changes.
pub proof fn law_counts_and_versions(registry: RegistryView)
    ensures
        registry.ejected_count < u64::MAX ==> registry.one_more_ejected().ejected_count
            == registry.ejected_count + 1,
        registry.ejected_count > 0 ==> registry.one_less_ejected().ejected_count + 1
            == registry.ejected_count,
        registry.one_more_ejected().ejected_set_version != registry.ejected_set_version,
        registry.one_less_ejected().ejected_set_version != registry.ejected_set_version,
        registry.one_more_ejected() == (RegistryView {
            ejected_count: registry.one_more_ejected().ejected_count,
            ejected_set_version: registry.one_more_ejected().ejected_set_version,
            ..registry
        }),
        registry.one_less_ejected() == (RegistryView {
            ejected_count: registry.one_less_ejected().ejected_count,
            ejected_set_version: registry.one_less_ejected().ejected_set_version,
            ..registry
        }),
{
}

/// A channel is the registered one if the registry has one at its address with its
/// serial number. Then the registry's record counts and is the one that is
/// replaced; otherwise its own record does, and the registry stays as it is.
pub proof fn law_records_that_count(
    registry: RegistryView,
    channel: ChannelView,
    stats: ChannelStats,
    other: AddressKey,
)
    ensures
        registry.channels.dom().contains(channel.addr) && registry.channels[channel.addr].serial
            == channel.stats.serial ==> registry.attached(channel) && registry.stats_of(channel)
            == registry.channels[channel.addr] && registry.storing(channel, stats).channels
            == registry.channels.insert(channel.addr, stats),
        !registry.channels.dom().contains(channel.addr) || registry.channels[
            channel.addr
        ].serial != channel.stats.serial ==> !registry.attached(channel) && registry.stats_of(
            channel,
        ) == channel.stats && registry.storing(channel, stats) == registry,
        registry.storing(channel, stats) == (RegistryView {
            channels: registry.storing(channel, stats).channels,
            ..registry
        }),
        other != channel.addr && registry.channels.dom().contains(other) ==> registry.storing(
            channel,
            stats,
        ).channels.dom().contains(other) && registry.storing(channel, stats).channels[other]
            == registry.channels[other],
        registry.with_channel(channel.addr, stats) == (RegistryView {
            channels: registry.channels.insert(channel.addr, stats),
            ..registry
        }),
{
}

/// Serial numbers are given out one after the other, never zero, and none follows
/// two others.
pub proof fn law_serial_numbers(serial: u64, other: u64)
    ensures
        following(serial) != 0,
        following(serial) != serial,
        serial < u64::MAX ==> following(serial) == serial + 1,
        serial != 0 && other != 0 && following(serial) == following(other) ==> serial == other,
{
}

/// Between two points in order lies what leads from one to the other, and nothing
/// between two that are not.
pub proof fn law_time_between(from: Instant, to: Instant)
    ensures
        from.nanos <= to.nanos ==> from.nanos + elapsed_nanos(from, to) == to.nanos,
        from.nanos >= to.nanos ==> elapsed_nanos(from, to) == 0,
{
}

/// Either algorithm enables detection, and without both there is none.
pub proof fn law_detection_is_enabled(config: OutlierDetectionConfig)
    ensures
        config.success_rate is Some ==> config.enabled(),
        config.failure_percentage is Some ==> config.enabled(),
        config.success_rate is None && config.failure_percentage is None ==> !config.enabled(),
{
}

} // verus!
