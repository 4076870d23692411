//! What a sweep over an endpoint pool does, stated over plain values.

use crate::channel_state::{AddressKey, ChannelStats, ChannelView, EndpointAddress};
use crate::endpoint_pool::lists;
use crate::outlier_config::{FailurePercentageConfig, OutlierDetectionConfig};
use crate::outlier_detection::drawn_below;
use crate::time::{elapsed_nanos, Instant};
use vstd::prelude::*;

verus! {

/// The registry's state, as specifications speak of it.
#[verifier::ext_equal]
pub struct RegistryView {
    pub channels: Map<AddressKey, ChannelStats>,
    pub ejected_count: u64,
    pub ejected_set_version: u64,
    pub last_broadcast_version: u64,
    pub config: OutlierDetectionConfig,
    /// Where the registry's clock starts.
    pub origin: std::time::Instant,
    /// The serial number of the next channel.
    pub next_serial: u64,
}

impl RegistryView {
    /// The addresses of the channels that are ejected.
    pub open spec fn ejected_set(self) -> Set<AddressKey> {
        ejected_in(self.channels)
    }

    /// The pool is finite, `ejected_count` counts its ejected channels, and no
    /// channel has the serial number of those that no registry made.
    pub open spec fn wf(self) -> bool {
        &&& self.channels.dom().finite()
        &&& self.ejected_count == self.ejected_set().len()
        &&& self.next_serial != 0
        &&& forall|a: AddressKey| #[trigger]
            self.channels.dom().contains(a) ==> self.channels[a].serial != 0
    }

    /// The registry with one channel's record put in or replaced.
    pub open spec fn with_channel(self, addr: AddressKey, stats: ChannelStats) -> RegistryView {
        RegistryView { channels: self.channels.insert(addr, stats), ..self }
    }

    /// The channel is registered: it is the one at its address, not an earlier one
    /// that was removed.
    pub open spec fn attached(self, channel: ChannelView) -> bool {
        &&& self.channels.dom().contains(channel.addr)
        &&& self.channels[channel.addr].serial == channel.stats.serial
    }

    /// The record that counts for a channel: the registry's while the channel is
    /// registered, and its own once it is removed.
    pub open spec fn stats_of(self, channel: ChannelView) -> ChannelStats {
        if self.attached(channel) {
            self.channels[channel.addr]
        } else {
            channel.stats
        }
    }

    /// The registry with a new record for a channel, if the channel is registered.
    pub open spec fn storing(self, channel: ChannelView, stats: ChannelStats) -> RegistryView {
        if self.attached(channel) {
            self.with_channel(channel.addr, stats)
        } else {
            self
        }
    }

    /// The registry after one channel more was ejected.
    pub open spec fn one_more_ejected(self) -> RegistryView {
        RegistryView {
            ejected_count: (self.ejected_count + 1) as u64,
            ejected_set_version: self.ejected_set_version.wrapping_add(1),
            ..self
        }
    }

    /// The registry after one channel less is ejected.
    pub open spec fn one_less_ejected(self) -> RegistryView {
        RegistryView {
            ejected_count: (self.ejected_count - 1) as u64,
            ejected_set_version: self.ejected_set_version.wrapping_add(1),
            ..self
        }
    }

    /// How many channels may be ejected at a time.
    pub open spec fn max_ejections(self) -> int {
        max_ejections(self.channels.dom().len() as int, self.config)
    }
}

/// The serial number after `serial`. The last one is followed by one, since zero
/// is no channel's number.
pub open spec fn following(serial: u64) -> u64 {
    if serial == u64::MAX {
        1
    } else {
        (serial + 1) as u64
    }
}

/// The addresses under which a table holds ejected channels.
pub open spec fn ejected_in(table: Map<AddressKey, ChannelStats>) -> Set<AddressKey> {
    table.dom().filter(|a: AddressKey| table[a].ejected())
}

/// The share `max_ejection_percent` of `len` channels, rounded down, but at
/// least one unless there are none.
pub open spec fn max_ejections(len: int, config: OutlierDetectionConfig) -> int {
    let share = len * config.max_ejection_percent.value() / 100;
    if len <= 0 {
        0
    } else if share < 1 {
        1
    } else {
        share
    }
}

/// The channel saw enough requests to be judged.
pub open spec fn qualifies(fp: FailurePercentageConfig, stats: ChannelStats) -> bool {
    stats.traffic() >= fp.request_volume
}

/// More than `threshold` whole percent of the channel's requests failed.
pub open spec fn above_threshold(fp: FailurePercentageConfig, stats: ChannelStats) -> bool {
    &&& stats.traffic() > 0
    &&& 100 * stats.failures / stats.traffic() > fp.threshold.value()
}

/// A channel at the end of an interval: its counters are zero, and its
/// multiplier is one lower unless the channel is ejected.
pub open spec fn closed(channel: ChannelView) -> ChannelView {
    ChannelView {
        addr: channel.addr,
        stats: if channel.stats.ejected() {
            channel.stats.reset()
        } else {
            channel.stats.reset().calmed()
        },
    }
}

/// The addresses of a vector, as specifications speak of them.
pub open spec fn address_keys(addresses: Seq<EndpointAddress>) -> Seq<AddressKey> {
    addresses.map_values(|a: EndpointAddress| a@)
}

/// The addresses of the ejected ones among `channels`, in order.
pub open spec fn ejected_keys(channels: Seq<ChannelView>) -> Seq<AddressKey>
    decreases channels.len(),
{
    if channels.len() == 0 {
        Seq::empty()
    } else if channels.last().stats.ejected() {
        ejected_keys(channels.drop_last()).push(channels.last().addr)
    } else {
        ejected_keys(channels.drop_last())
    }
}

/// What decides a sweep: the channels in the order in which they are visited,
/// one roll for each, and the limits.
pub struct SweepPlan {
    pub failure_percentage: Option<FailurePercentageConfig>,
    pub channels: Seq<ChannelView>,
    pub rolls: Seq<bool>,
    /// Channels ejected before the sweep.
    pub ejected: int,
    /// Channels that may be ejected at a time.
    pub cap: int,
}

impl SweepPlan {
    /// How many channels qualify.
    pub open spec fn qualifying(self, fp: FailurePercentageConfig) -> nat {
        self.channels.filter(|c: ChannelView| qualifies(fp, c.stats)).len()
    }

    /// The algorithm is configured and enough channels qualify.
    pub open spec fn active(self) -> bool {
        self.failure_percentage matches Some(fp) && self.qualifying(fp) >= fp.minimum_hosts
    }

    /// Channel `k` is an outlier that is not ejected yet, and its roll says
    /// that it is to be ejected.
    pub open spec fn condemned(self, k: int) -> bool {
        &&& self.active()
        &&& !self.channels[k].stats.ejected()
        &&& qualifies(self.failure_percentage->0, self.channels[k].stats)
        &&& above_threshold(self.failure_percentage->0, self.channels[k].stats)
        &&& self.rolls[k]
    }

    /// How many of the first `k` channels the sweep ejects: the condemned ones,
    /// as long as there is room.
    pub open spec fn ejections_before(self, k: int) -> int
        decreases k,
    {
        if k <= 0 {
            0
        } else {
            let before = self.ejections_before(k - 1);
            if self.condemned(k - 1) && self.ejected + before < self.cap {
                before + 1
            } else {
                before
            }
        }
    }

    /// The sweep ejects channel `k`.
    pub open spec fn ejects(self, k: int) -> bool {
        self.condemned(k) && self.ejected + self.ejections_before(k) < self.cap
    }

    /// How many channels the sweep ejects.
    pub open spec fn ejections(self) -> int {
        self.ejections_before(self.channels.len() as int)
    }

    /// The sweep asks for the failure percentage of channel `k`: it qualifies, is
    /// not ejected yet, and there is room.
    pub open spec fn measures(self, k: int) -> bool {
        &&& self.active()
        &&& !self.channels[k].stats.ejected()
        &&& qualifies(self.failure_percentage->0, self.channels[k].stats)
        &&& self.ejected + self.ejections_before(k) < self.cap
    }

    /// Every channel whose failure percentage is asked for saw requests.
    pub open spec fn defined(self) -> bool {
        forall|k: int|
            0 <= k < self.channels.len() && #[trigger] self.measures(k)
                ==> self.channels[k].stats.traffic() > 0
    }

    /// Channel `k` once the sweep has decided on its ejection.
    pub open spec fn judged(self, k: int, now: Instant) -> ChannelView {
        ChannelView {
            addr: self.channels[k].addr,
            stats: if self.ejects(k) {
                self.channels[k].stats.after_eject(now)
            } else {
                self.channels[k].stats
            },
        }
    }

    /// Channel `k` after the sweep.
    pub open spec fn swept(self, k: int, now: Instant) -> ChannelView {
        closed(self.judged(k, now))
    }

    /// All channels after the sweep.
    pub open spec fn swept_channels(self, now: Instant) -> Seq<ChannelView> {
        Seq::new(self.channels.len(), |k: int| self.swept(k, now))
    }
}

/// The plan of a sweep over `registry` that visits `channels` in order.
pub open spec fn sweep_plan(
    registry: RegistryView,
    channels: Seq<ChannelView>,
    rolls: Seq<bool>,
) -> SweepPlan {
    SweepPlan {
        failure_percentage: registry.config.failure_percentage,
        channels,
        rolls,
        ejected: registry.ejected_count as int,
        cap: registry.max_ejections(),
    }
}

/// The sweep that `plan` describes, made at `now`, takes `before` to `after`.
pub open spec fn sweeps(
    before: RegistryView,
    plan: SweepPlan,
    now: Instant,
    after: RegistryView,
) -> bool {
    &&& lists(plan.swept_channels(now), after.channels)
    &&& after.ejected_count == before.ejected_count + plan.ejections()
    &&& after.ejected_set_version == before.ejected_set_version.wrapping_add(
        plan.ejections() as u64,
    )
    &&& after.last_broadcast_version == after.ejected_set_version
    &&& after.config == before.config
    &&& after.origin == before.origin
    &&& after.next_serial == before.next_serial
}

/// What that sweep has to broadcast: the addresses that are ejected after it,
/// if the set of them changed since the last broadcast.
pub open spec fn broadcasts(
    before: RegistryView,
    plan: SweepPlan,
    now: Instant,
    after: RegistryView,
    snapshot: Option<Seq<AddressKey>>,
) -> bool {
    snapshot == if after.ejected_set_version != before.last_broadcast_version {
        Some(ejected_keys(plan.swept_channels(now)))
    } else {
        None
    }
}

/// The snapshot of a sweep, as specifications speak of it.
pub open spec fn snapshot_keys(snapshot: Option<Vec<EndpointAddress>>) -> Option<Seq<AddressKey>> {
    match snapshot {
        Some(addresses) => Some(address_keys(addresses@)),
        None => None,
    }
}

/// No sweep over `registry` asks for the failure percentage of a channel
/// without requests, in whatever order it visits the channels. Only a request
/// volume of zero lets such a channel qualify.
pub open spec fn sweep_defined(registry: RegistryView) -> bool {
    registry.config.failure_percentage matches Some(fp) ==> {
        ||| fp.request_volume > 0
        ||| registry.channels.dom().len() < fp.minimum_hosts
        ||| registry.ejected_count >= registry.max_ejections()
        ||| forall|a: AddressKey| #[trigger]
            registry.channels.dom().contains(a) ==> registry.channels[a].ejected()
                || registry.channels[a].traffic() > 0
    }
}

/// The number that was drawn is below the percentage.
pub open spec fn hit(percent: u8, drawn: u32) -> bool {
    drawn < percent
}

/// A roll for `percent`: certain at both ends, and between them what a number
/// drawn below a hundred gives.
pub open spec fn roll_possible(percent: u8, rolled: bool) -> bool {
    if percent >= 100 {
        rolled
    } else if percent == 0 {
        !rolled
    } else {
        exists|drawn: u32| #[trigger] drawn_below(100, drawn) && rolled == hit(percent, drawn)
    }
}

/// The rolls that a sweep under `config` may use.
pub open spec fn rolls_possible(config: OutlierDetectionConfig, rolls: Seq<bool>) -> bool {
    config.failure_percentage matches Some(fp) ==> forall|k: int|
        0 <= k < rolls.len() ==> roll_possible(
            fp.enforcing_failure_percentage.value(),
            #[trigger] rolls[k],
        )
}

/// Housekeeping that visits `channels` in order with these rolls at `now` takes
/// `before` to `after` and hands out `snapshot`.
pub open spec fn housekeeps(
    before: RegistryView,
    channels: Seq<ChannelView>,
    rolls: Seq<bool>,
    now: Instant,
    after: RegistryView,
    snapshot: Option<Seq<AddressKey>>,
) -> bool {
    &&& lists(channels, before.channels)
    &&& rolls.len() == channels.len()
    &&& rolls_possible(before.config, rolls)
    &&& sweeps(before, sweep_plan(before, channels, rolls), now, after)
    &&& broadcasts(before, sweep_plan(before, channels, rolls), now, after, snapshot)
}

/// How long an ejection with this multiplier lasts: that many times the base
/// time, but no longer than the maximum time.
pub open spec fn ejection_nanos(config: OutlierDetectionConfig, multiplier: u32) -> int {
    let scaled = config.base_ejection_time.nanos * multiplier;
    if scaled <= config.max_ejection_time.nanos {
        scaled
    } else {
        config.max_ejection_time.nanos as int
    }
}

/// What is left at `now` of the ejection of a channel, zero once it is over.
pub open spec fn remaining_nanos(
    config: OutlierDetectionConfig,
    stats: ChannelStats,
    now: Instant,
) -> int {
    let left = ejection_nanos(config, stats.multiplier) - elapsed_nanos(stats.ejected_at->0, now);
    if left > 0 {
        left
    } else {
        0
    }
}

} // verus!
