//! The registry of a pool's channels and the sweep that ejects outliers.

use crate::channel_state::{
    AddressKey, ChannelStats, ChannelView, EndpointAddress, OutlierChannelState,
};
use crate::config_cell::{held_config, ConfigCell};
use crate::endpoint_pool::{
    channel_views, distinct_channels, entries, lists, lookup, new_table, table_channels, table_get,
    table_get_or_insert, table_insert, table_len, table_remove,
};
use crate::outlier_config::{FailurePercentageConfig, OutlierDetectionConfig};
use crate::outlier_lemmas::{
    lemma_any_plan_defined, lemma_ejected_within, lemma_ejections_bounded, lemma_ejections_counted,
    lemma_ejections_stop, lemma_idle_sweep, lemma_listed_sizes, lemma_put_ejected,
    lemma_qualifying_step, lemma_swept_addresses, lemma_take_ejected,
};
use crate::outlier_spec::{
    address_keys, broadcasts, closed, ejected_keys, following, hit, housekeeps, max_ejections, qualifies,
    remaining_nanos, roll_possible, snapshot_keys, sweep_defined, sweep_plan, sweeps, RegistryView,
    SweepPlan,
};
use crate::time::{Duration, Instant};
use dashmap::DashMap;
use vstd::prelude::*;

verus! {

/// `std::time::Instant`, a reading of the system's monotonic clock.
#[verifier::external_type_specification]
#[verifier::external_body]
pub struct ExStdInstant(std::time::Instant);

/// `std::time::Instant::now`: the current reading. Nothing is said of it.
#[verifier::external_body]
fn clock_reading() -> (reading: std::time::Instant) {
    std::time::Instant::now()
}

/// `std::time::Instant::elapsed`: nanoseconds from `origin` until now. Nothing
/// is said of them.
#[verifier::external_body]
fn clock_elapsed(origin: &std::time::Instant) -> (nanos: u128) {
    origin.elapsed().as_nanos()
}

/// `now` is what the clock gives for the time since `origin`: the nanoseconds
/// that `std::time::Instant::elapsed` tells.
pub closed spec fn clock_reads(origin: std::time::Instant, now: Instant) -> bool {
    call_ensures(clock_elapsed, (&origin,), now.nanos)
}

impl RegistryView {
    /// `now` is a reading of the registry's clock.
    pub open spec fn reads(self, now: Instant) -> bool {
        clock_reads(self.origin, now)
    }
}

/// `fastrand::u32` over `0..bound`: some number below the bound. Which one is
/// left to chance. The outside function panics on an empty range.
#[verifier::external_body]
fn random_below(bound: u32) -> (drawn: u32)
    requires
        bound > 0,
    ensures
        drawn < bound,
{
    fastrand::u32(0..bound)
}

/// `drawn` is a number that `fastrand::u32` gives for the range `0..bound`.
pub closed spec fn drawn_below(bound: u32, drawn: u32) -> bool {
    call_ensures(random_below, (bound,), drawn)
}

/// Whether a number that was drawn is below the percentage.
pub fn hits(percent: u8, drawn: u32) -> (rolled: bool)
    ensures
        rolled == hit(percent, drawn),
{
    drawn < percent as u32
}

/// Returns true with probability `percent / 100`, always from 100 on and never
/// at zero.
pub fn roll(percent: u8) -> (rolled: bool)
    ensures
        roll_possible(percent, rolled),
{
    if percent >= 100 {
        return true;
    }
    if percent == 0 {
        return false;
    }
    let draw = random_below;
    let drawn: u32 = draw(100);
    assert(drawn_below(100, drawn));
    hits(percent, drawn)
}

/// `count` rolls with the same percentage.
fn rolls(percent: u8, count: usize) -> (rolled: Vec<bool>)
    ensures
        rolled@.len() == count,
        forall|k: int| 0 <= k < count ==> roll_possible(percent, #[trigger] rolled@[k]),
{
    let mut rolled: Vec<bool> = Vec::new();
    for k in 0..count
        invariant
            rolled@.len() == k,
            forall|j: int| 0 <= j < k ==> roll_possible(percent, #[trigger] rolled@[j]),
    {
        let one = roll(percent);
        rolled.push(one);
    }
    rolled
}

/// How many of `channels` saw enough requests to be judged.
fn count_qualifying(channels: &Vec<OutlierChannelState>, fp: &FailurePercentageConfig) -> (count:
    usize)
    ensures
        count == channel_views(channels@).filter(|c: ChannelView| qualifies(*fp, c.stats)).len(),
{
    let ghost views = channel_views(channels@);
    let mut count: usize = 0;
    assert(views.take(0).filter(|c: ChannelView| qualifies(*fp, c.stats)).len() == 0) by {
        reveal(Seq::filter);
    }
    for k in 0..channels.len()
        invariant
            views == channel_views(channels@),
            count == views.take(k as int).filter(|c: ChannelView| qualifies(*fp, c.stats)).len(),
            count <= k,
    {
        proof {
            lemma_qualifying_step(views, *fp, k as int);
            assert(views[k as int] == channels@[k as int]@);
        }
        let (successes, failures) = channels[k].counters();
        if successes as u128 + failures as u128 >= fp.request_volume as u128 {
            count = count + 1;
        }
    }
    assert(views.take(channels.len() as int) =~= views);
    count
}

/// Visits the channels in order and ejects those that are outliers and whose
/// roll says so, until `cap` channels are ejected. Tells how many it ejected.
fn eject_outliers(
    channels: &mut Vec<OutlierChannelState>,
    rolls: &Vec<bool>,
    fp: &FailurePercentageConfig,
    ejected: u64,
    cap: u64,
    now: Instant,
    Ghost(plan): Ghost<SweepPlan>,
) -> (count: u64)
    requires
        plan.failure_percentage == Some(*fp),
        plan.active(),
        plan.channels == channel_views(old(channels)@),
        plan.rolls == rolls@,
        plan.rolls.len() == plan.channels.len(),
        plan.ejected == ejected,
        plan.cap == cap,
        plan.defined(),
    ensures
        count == plan.ejections(),
        final(channels)@.len() == plan.channels.len(),
        forall|k: int|
            0 <= k < plan.channels.len() ==> (#[trigger] final(channels)@[k])@ == plan.judged(k, now),
{
    let ghost start = channels@;
    let mut count: u64 = 0;
    let mut k: usize = 0;
    while k < channels.len() && ejected + count < cap
        invariant
            plan.failure_percentage == Some(*fp),
            plan.active(),
            plan.channels == channel_views(start),
            plan.rolls == rolls@,
            plan.rolls.len() == plan.channels.len(),
            plan.ejected == ejected,
            plan.cap == cap,
            plan.defined(),
            channels@.len() == start.len(),
            k <= channels@.len(),
            count == plan.ejections_before(k as int),
            ejected + count <= cap || count == 0,
            forall|j: int| 0 <= j < k ==> (#[trigger] channels@[j])@ == plan.judged(j, now),
            forall|j: int| k <= j < channels@.len() ==> #[trigger] channels@[j] == start[j],
        decreases channels@.len() - k,
    {
        assert(plan.channels[k as int] == channels@[k as int]@);
        let (successes, failures) = channels[k].counters();
        let total: u128 = successes as u128 + failures as u128;
        if total >= fp.request_volume as u128 && !channels[k].is_ejected() {
            assert(plan.measures(k as int));
            let failure_percent: u128 = 100 * failures as u128 / total;
            if failure_percent > fp.threshold.get() as u128 && rolls[k] {
                channels[k].try_eject(now);
                count = count + 1;
            }
        }
        k = k + 1;
    }
    proof {
        if k < channels@.len() {
            lemma_ejections_stop(plan, k as int, plan.channels.len() as int);
            assert forall|j: int| k <= j < plan.channels.len() implies (
            #[trigger] channels@[j])@ == plan.judged(j, now) by {
                lemma_ejections_stop(plan, k as int, j);
                assert(plan.channels[j] == start[j]@);
            }
        }
    }
    count
}

/// Closes the interval: counters go back to zero, and the multiplier of each
/// channel that is not ejected is lowered.
fn close_interval(channels: &mut Vec<OutlierChannelState>)
    ensures
        final(channels)@.len() == old(channels)@.len(),
        forall|k: int|
            0 <= k < old(channels)@.len() ==> (#[trigger] final(channels)@[k])@ == closed(
                old(channels)@[k]@,
            ),
{
    let ghost start = channels@;
    let count: usize = channels.len();
    for k in 0..count
        invariant
            channels@.len() == start.len(),
            count == start.len(),
            forall|j: int| 0 <= j < k ==> (#[trigger] channels@[j])@ == closed(start[j]@),
            forall|j: int| k <= j < channels@.len() ==> #[trigger] channels@[j] == start[j],
    {
        channels[k].snapshot_and_reset();
        if !channels[k].is_ejected() {
            channels[k].decrement_multiplier();
        }
    }
}

/// The addresses of the channels that are ejected, in order.
fn ejected_addresses(channels: &Vec<OutlierChannelState>) -> (addresses: Vec<EndpointAddress>)
    ensures
        address_keys(addresses@) == ejected_keys(channel_views(channels@)),
{
    let ghost views = channel_views(channels@);
    let mut addresses: Vec<EndpointAddress> = Vec::new();
    for k in 0..channels.len()
        invariant
            views == channel_views(channels@),
            address_keys(addresses@) == ejected_keys(views.take(k as int)),
    {
        let ghost before = addresses@;
        proof {
            assert(views.take(k + 1).drop_last() =~= views.take(k as int));
            assert(views.take(k + 1).last() == channels@[k as int]@);
        }
        if channels[k].is_ejected() {
            let address = channels[k].addr.clone();
            addresses.push(address);
            assert(address_keys(addresses@) =~= address_keys(before).push(address@));
        }
    }
    assert(views.take(channels.len() as int) =~= views);
    addresses
}

/// Puts each channel's record back into the table that holds the channels.
fn store_channels(
    table: &mut DashMap<(String, u16), ChannelStats>,
    channels: &Vec<OutlierChannelState>,
)
    requires
        distinct_channels(channel_views(channels@)),
        forall|k: int|
            0 <= k < channels@.len() ==> entries(*old(table)).dom().contains(
                (#[trigger] channels@[k])@.addr,
            ),
        forall|a: AddressKey| #[trigger]
            entries(*old(table)).dom().contains(a) ==> exists|k: int|
                0 <= k < channels@.len() && (#[trigger] channels@[k])@.addr == a,
    ensures
        lists(channel_views(channels@), entries(*final(table))),
{
    let ghost start = entries(*table);
    let ghost views = channel_views(channels@);
    for k in 0..channels.len()
        invariant
            views == channel_views(channels@),
            distinct_channels(views),
            forall|j: int|
                0 <= j < channels@.len() ==> start.dom().contains((#[trigger] channels@[j])@.addr),
            entries(*table).dom() == start.dom(),
            forall|j: int|
                0 <= j < k ==> entries(*table)[#[trigger] views[j].addr] == views[j].stats,
    {
        table_insert(table, &channels[k].addr, channels[k].stats);
        assert(views[k as int] == channels@[k as int]@);
        assert(start.dom().contains(channels@[k as int]@.addr));
        assert(entries(*table).dom() =~= start.dom());
        assert forall|j: int| 0 <= j < k + 1 implies entries(*table)[#[trigger] views[j].addr]
            == views[j].stats by {
            if j < k {
                assert(views[j].addr != views[k as int].addr);
            }
        }
    }
    assert forall|a: AddressKey| #[trigger] entries(*table).dom().contains(a) implies exists|i: int|
        0 <= i < views.len() && #[trigger] views[i].addr == a by {
        assert(start.dom().contains(a));
        let i = choose|i: int| 0 <= i < channels@.len() && (#[trigger] channels@[i])@.addr == a;
        assert(views[i].addr == a);
    }
    assert forall|i: int| 0 <= i < views.len() implies lookup(
        entries(*table),
        #[trigger] views[i].addr,
    ) == Some(views[i].stats) by {
        assert(start.dom().contains(channels@[i]@.addr));
    }
}

/// Outlier-detection state of one endpoint pool.
pub struct OutlierStatsRegistry {
    channels: DashMap<(String, u16), ChannelStats>,
    /// Channels that are ejected now. Drives the `max_ejection_percent` cap.
    ejected_count: u64,
    /// Grows whenever the set of ejected channels changes, so that a sweep can
    /// tell by one comparison whether there is anything to broadcast.
    ejected_set_version: u64,
    /// The version of the set that was broadcast last.
    last_broadcast_version: u64,
    config: ConfigCell,
    /// Where the registry's clock starts.
    origin: std::time::Instant,
    /// The serial number of the next channel.
    next_serial: u64,
}

impl View for OutlierStatsRegistry {
    type V = RegistryView;

    closed spec fn view(&self) -> RegistryView {
        RegistryView {
            channels: entries(self.channels),
            ejected_count: self.ejected_count,
            ejected_set_version: self.ejected_set_version,
            last_broadcast_version: self.last_broadcast_version,
            config: held_config(self.config),
            origin: self.origin,
            next_serial: self.next_serial,
        }
    }
}

impl OutlierStatsRegistry {
    /// A registry without channels.
    pub fn new(config: OutlierDetectionConfig) -> (registry: OutlierStatsRegistry)
        ensures
            registry@ == (RegistryView {
                channels: Map::empty(),
                ejected_count: 0,
                ejected_set_version: 0,
                last_broadcast_version: 0,
                config,
                origin: registry@.origin,
                next_serial: 1,
            }),
            registry@.wf(),
    {
        let registry = OutlierStatsRegistry {
            channels: new_table(),
            ejected_count: 0,
            ejected_set_version: 0,
            last_broadcast_version: 0,
            config: ConfigCell::new(config),
            origin: clock_reading(),
            next_serial: 1,
        };
        assert(registry@.ejected_set() =~= Set::empty());
        registry
    }

    /// How many channels may be ejected at a time: a share of the pool, but at
    /// least one, since otherwise a small pool could never eject any.
    fn max_ejections(&self, config: &OutlierDetectionConfig) -> (cap: u64)
        ensures
            cap == max_ejections(self@.channels.dom().len() as int, *config),
    {
        let len: usize = table_len(&self.channels);
        let percent: u8 = config.max_ejection_percent.get();
        assert(0 <= len * percent <= len * 100) by (nonlinear_arith)
            requires
                percent <= 100,
                len >= 0,
        ;
        let share: u128 = len as u128 * percent as u128 / 100;
        if len == 0 {
            0
        } else if share < 1 {
            1
        } else {
            share as u64
        }
    }

    /// One sweep over `channels`, which are all channels of the registry in
    /// some order, with one roll for each.
    ///
    /// 1. Runs the failure-percentage algorithm, if enough channels qualify.
    /// 2. Resets the counters and lowers the multipliers of channels that are
    ///    not ejected.
    /// 3. Hands out the set of ejected addresses, if it changed since it was
    ///    handed out last.
    ///
    /// Ejections are not lifted here: see [`Self::note_uneject`].
    pub fn sweep(
        &mut self,
        channels: Vec<OutlierChannelState>,
        rolls: &Vec<bool>,
        now: Instant,
    ) -> (snapshot: Option<Vec<EndpointAddress>>)
        requires
            old(self)@.wf(),
            lists(channel_views(channels@), old(self)@.channels),
            rolls@.len() == channels@.len(),
            sweep_plan(old(self)@, channel_views(channels@), rolls@).defined(),
        ensures
            final(self)@.wf(),
            sweeps(
                old(self)@,
                sweep_plan(old(self)@, channel_views(channels@), rolls@),
                now,
                final(self)@,
            ),
            broadcasts(
                old(self)@,
                sweep_plan(old(self)@, channel_views(channels@), rolls@),
                now,
                final(self)@,
                snapshot_keys(snapshot),
            ),
    {
        let ghost before = self@;
        let ghost plan = sweep_plan(before, channel_views(channels@), rolls@);
        proof {
            lemma_listed_sizes(plan.channels, before.channels);
        }
        let config = self.config.load();
        let mut channels = channels;
        let mut ejected: u64 = 0;
        if let Some(fp) = config.failure_percentage {
            let qualifying = count_qualifying(&channels, &fp);
            if qualifying as u64 >= fp.minimum_hosts as u64 {
                let cap = self.max_ejections(&config);
                ejected = eject_outliers(
                    &mut channels,
                    rolls,
                    &fp,
                    self.ejected_count,
                    cap,
                    now,
                    Ghost(plan),
                );
            }
        }
        let ghost judged = channels@;
        proof {
            if !plan.active() {
                lemma_idle_sweep(plan, plan.channels.len() as int);
            }
            lemma_ejections_bounded(plan, plan.channels.len() as int);
            assert forall|k: int| 0 <= k < judged.len() implies (#[trigger] judged[k])@
                == plan.judged(k, now) by {
                if !plan.active() {
                    assert(judged[k]@ == plan.channels[k]);
                }
            }
        }
        close_interval(&mut channels);
        proof {
            assert(channel_views(channels@) =~= plan.swept_channels(now));
            lemma_swept_addresses(plan, now, before.channels);
            assert forall|a: AddressKey| #[trigger] before.channels.dom().contains(a) implies exists|
                k: int,
            | 0 <= k < channels@.len() && (#[trigger] channels@[k])@.addr == a by {
                let k = choose|k: int|
                    0 <= k < plan.channels.len() && #[trigger] plan.channels[k].addr == a;
                assert(channels@[k]@ == plan.swept(k, now));
            }
        }
        store_channels(&mut self.channels, &channels);
        proof {
            lemma_listed_sizes(plan.swept_channels(now), entries(self.channels));
            lemma_ejections_counted(plan, now, plan.channels.len() as int);
            assert(plan.channels.take(plan.channels.len() as int) =~= plan.channels);
            assert(plan.swept_channels(now).take(plan.channels.len() as int)
                =~= plan.swept_channels(now));
        }
        self.ejected_count = self.ejected_count + ejected;
        self.ejected_set_version = self.ejected_set_version.wrapping_add(ejected);
        if self.ejected_set_version != self.last_broadcast_version {
            let addresses = ejected_addresses(&channels);
            self.last_broadcast_version = self.ejected_set_version;
            Some(addresses)
        } else {
            None
        }
    }

    /// One sweep at an interval's end, over the channels in whatever order the
    /// table has them, with fresh rolls and the current time. Hands out the set
    /// of ejected addresses if it changed since it was handed out last.
    pub fn run_housekeeping(&mut self) -> (snapshot: Option<Vec<EndpointAddress>>)
        requires
            old(self)@.wf(),
            sweep_defined(old(self)@),
        ensures
            final(self)@.wf(),
            exists|channels: Seq<ChannelView>, rolls: Seq<bool>, now: Instant|
                old(self)@.reads(now) && #[trigger] housekeeps(
                    old(self)@,
                    channels,
                    rolls,
                    now,
                    final(self)@,
                    snapshot_keys(snapshot),
                ),
    {
        let config = self.config.load();
        let channels = table_channels(&self.channels);
        let enforcing: u8 = match config.failure_percentage {
            Some(fp) => fp.enforcing_failure_percentage.get(),
            None => 0,
        };
        let rolled = rolls(enforcing, channels.len());
        let now = self.now();
        let ghost before = self@;
        let ghost views = channel_views(channels@);
        proof {
            lemma_any_plan_defined(before, views, rolled@);
        }
        let snapshot = self.sweep(channels, &rolled, now);
        assert(housekeeps(before, views, rolled@, now, self@, snapshot_keys(snapshot)));
        snapshot
    }

    /// The current time on the registry's clock: what the system's clock gives
    /// for the time since the registry's origin. How much that is, only the
    /// system knows.
    pub fn now(&self) -> (now: Instant)
        ensures
            self@.reads(now),
    {
        let elapsed = clock_elapsed;
        Instant::from_nanos(elapsed(&self.origin))
    }

    /// Whether a sweep may run now: see [`sweep_defined`].
    pub fn can_sweep(&self) -> (defined: bool)
        ensures
            defined == sweep_defined(self@),
    {
        let config = self.config.load();
        let fp = match config.failure_percentage {
            Some(fp) => fp,
            None => {
                return true;
            },
        };
        if fp.request_volume > 0 || (table_len(&self.channels) as u64) < fp.minimum_hosts as u64
            || self.ejected_count >= self.max_ejections(&config) {
            return true;
        }
        let channels = table_channels(&self.channels);
        let ghost views = channel_views(channels@);
        for k in 0..channels.len()
            invariant
                views == channel_views(channels@),
                forall|j: int|
                    0 <= j < k ==> (#[trigger] views[j]).stats.ejected() || views[j].stats.traffic()
                        > 0,
                lists(views, self@.channels),
                self@.config.failure_percentage == Some(fp),
                fp.request_volume == 0,
                self@.channels.dom().len() >= fp.minimum_hosts,
                self@.ejected_count < self@.max_ejections(),
        {
            assert(views[k as int] == channels@[k as int]@);
            let (successes, failures) = channels[k].counters();
            if !channels[k].is_ejected() && successes == 0 && failures == 0 {
                assert(lookup(self@.channels, views[k as int].addr) is Some);
                return false;
            }
        }
        assert forall|a: AddressKey| #[trigger]
            self@.channels.dom().contains(a) implies self@.channels[a].ejected()
            || self@.channels[a].traffic() > 0 by {
            let i = choose|i: int| 0 <= i < views.len() && #[trigger] views[i].addr == a;
            assert(views[i].stats.ejected() || views[i].stats.traffic() > 0);
            assert(lookup(self@.channels, views[i].addr) == Some(views[i].stats));
        }
        true
    }

    /// The state of the channel at `addr`, made first if there is none. One
    /// that is there already is kept as it is, so it survives a reconnect.
    ///
    /// The registry keeps the channel's record. What is returned names the
    /// channel to this registry's methods, along with a copy of that record.
    /// [`Self::record_outcome`], [`Self::try_eject`], [`Self::note_uneject`] and
    /// [`Self::set_ejection_multiplier`] change the record and the copy; the
    /// methods of the same names that the state itself has change the copy alone,
    /// and [`Self::refresh`] replaces it by the record.
    /// A state belongs to the registry that made it: another one knows channels by
    /// address and number only.
    pub fn add_channel(&mut self, addr: EndpointAddress) -> (state: OutlierChannelState)
        requires
            old(self)@.wf(),
        ensures
            final(self)@.wf(),
            state@.addr == addr@,
            final(self)@.attached(state@),
            lookup(old(self)@.channels, addr@) matches Some(held) ==> state.stats == held
                && final(self)@ == old(self)@,
            lookup(old(self)@.channels, addr@) is None ==> state.stats == ChannelStats::fresh(
                old(self)@.next_serial,
            ) && final(self)@ == (RegistryView {
                next_serial: following(old(self)@.next_serial),
                ..old(self)@.with_channel(addr@, ChannelStats::fresh(old(self)@.next_serial))
            }),
    {
        if let Some(held) = self.channel(&addr) {
            return held;
        }
        let stats = ChannelStats {
            serial: self.next_serial,
            successes: 0,
            failures: 0,
            multiplier: 0,
            ejected_at: None,
        };
        proof {
            lemma_put_ejected(self@.channels, addr@, stats);
        }
        let stats = table_get_or_insert(&mut self.channels, &addr, stats);
        self.next_serial = if self.next_serial == u64::MAX {
            1
        } else {
            self.next_serial + 1
        };
        assert(self@.ejected_set() =~= old(self)@.ejected_set());
        OutlierChannelState { addr, stats }
    }

    /// Drops the channel at `addr`, and hands out its state. If it was ejected it
    /// no longer counts as such.
    pub fn remove_channel(&mut self, addr: &EndpointAddress) -> (removed: Option<
        OutlierChannelState,
    >)
        requires
            old(self)@.wf(),
        ensures
            final(self)@.wf(),
            removed is Some <==> old(self)@.channels.dom().contains(addr@),
            removed matches Some(state) ==> state@ == (ChannelView {
                addr: addr@,
                stats: old(self)@.channels[addr@],
            }),
            ({
                let without = RegistryView {
                    channels: old(self)@.channels.remove(addr@),
                    ..old(self)@
                };
                final(self)@ == if old(self)@.ejected_set().contains(addr@) {
                    without.one_less_ejected()
                } else {
                    without
                }
            }),
    {
        proof {
            lemma_take_ejected(self@.channels, addr@);
            if self@.ejected_set().contains(addr@) {
                assert(self@.ejected_set().len() > 0);
            } else {
                assert(self@.ejected_set().remove(addr@) =~= self@.ejected_set());
            }
        }
        match table_remove(&mut self.channels, addr) {
            Some(stats) => {
                if stats.ejected_at.is_some() {
                    self.ejected_count = self.ejected_count - 1;
                    self.ejected_set_version = self.ejected_set_version.wrapping_add(1);
                }
                Some(OutlierChannelState { addr: addr.clone(), stats })
            },
            None => None,
        }
    }

    /// Number of registered channels.
    pub fn len(&self) -> (len: usize)
        ensures
            len == self@.channels.dom().len(),
    {
        table_len(&self.channels)
    }

    /// How many channels are ejected.
    pub fn ejected_count(&self) -> (count: u64)
        ensures
            count == self@.ejected_count,
    {
        self.ejected_count
    }

    /// The state of the channel at `addr`, if it is registered.
    pub fn channel(&self, addr: &EndpointAddress) -> (state: Option<OutlierChannelState>)
        ensures
            state is Some <==> self@.channels.dom().contains(addr@),
            state matches Some(s) ==> s@ == (ChannelView {
                addr: addr@,
                stats: self@.channels[addr@],
            }),
    {
        match table_get(&self.channels, addr) {
            Some(stats) => Some(OutlierChannelState { addr: addr.clone(), stats }),
            None => None,
        }
    }

    /// Brings the copy in `state` up to date with the registry's record. Tells
    /// whether the channel is registered; if it is not, `state` is all there is.
    pub fn refresh(&self, state: &mut OutlierChannelState) -> (attached: bool)
        ensures
            attached == self@.attached(old(state)@),
            final(state)@ == (ChannelView {
                addr: old(state)@.addr,
                stats: self@.stats_of(old(state)@),
            }),
    {
        if let Some(stats) = table_get(&self.channels, &state.addr) {
            if stats.serial == state.stats.serial {
                state.stats = stats;
                return true;
            }
        }
        false
    }

    /// Counts a request on the channel of `state`: in the registry, and in the
    /// copy. Once the channel is removed, only the latter is left.
    pub fn record_outcome(&mut self, state: &mut OutlierChannelState, success: bool)
        requires
            old(self)@.wf(),
        ensures
            final(self)@.wf(),
            final(state)@ == (ChannelView {
                addr: old(state)@.addr,
                stats: old(self)@.stats_of(old(state)@).counted(success),
            }),
            final(self)@ == old(self)@.storing(old(state)@, final(state)@.stats),
    {
        let attached = self.refresh(state);
        state.record_outcome(success);
        if attached {
            proof {
                lemma_put_ejected(self@.channels, state@.addr, state.stats);
            }
            table_insert(&mut self.channels, &state.addr, state.stats);
            assert(self@.ejected_set() =~= old(self)@.ejected_set());
        }
    }

    /// Sets the multiplier of the channel of `state`.
    pub fn set_ejection_multiplier(&mut self, state: &mut OutlierChannelState, multiplier: u32)
        requires
            old(self)@.wf(),
        ensures
            final(self)@.wf(),
            final(state)@ == (ChannelView {
                addr: old(state)@.addr,
                stats: ChannelStats { multiplier, ..old(self)@.stats_of(old(state)@) },
            }),
            final(self)@ == old(self)@.storing(old(state)@, final(state)@.stats),
    {
        let attached = self.refresh(state);
        state.set_ejection_multiplier(multiplier);
        if attached {
            proof {
                lemma_put_ejected(self@.channels, state@.addr, state.stats);
            }
            table_insert(&mut self.channels, &state.addr, state.stats);
            assert(self@.ejected_set() =~= old(self)@.ejected_set());
        }
    }

    /// Ejects the channel of `state`, unless it is ejected already. Tells whether
    /// it did.
    pub fn try_eject(&mut self, state: &mut OutlierChannelState, now: Instant) -> (changed: bool)
        requires
            old(self)@.wf(),
        ensures
            final(self)@.wf(),
            changed == !old(self)@.stats_of(old(state)@).ejected(),
            final(state)@ == (ChannelView {
                addr: old(state)@.addr,
                stats: if changed {
                    old(self)@.stats_of(old(state)@).after_eject(now)
                } else {
                    old(self)@.stats_of(old(state)@)
                },
            }),
            final(self)@ == if changed && old(self)@.attached(old(state)@) {
                old(self)@.storing(old(state)@, final(state)@.stats).one_more_ejected()
            } else {
                old(self)@
            },
    {
        let attached = self.refresh(state);
        if !state.try_eject(now) {
            return false;
        }
        if attached {
            let registered: usize = self.len();
            proof {
                lemma_put_ejected(self@.channels, state@.addr, state.stats);
                lemma_ejected_within(self@.channels, state@.addr);
                assert(self.ejected_count < registered);
            }
            table_insert(&mut self.channels, &state.addr, state.stats);
            self.ejected_count = self.ejected_count + 1;
            self.ejected_set_version = self.ejected_set_version.wrapping_add(1);
        }
        true
    }

    /// Lifts the ejection of the channel of `state` and lowers its multiplier.
    /// Tells whether the channel was ejected. One that was removed no longer
    /// counts in the registry, so only `state` changes then.
    pub fn note_uneject(&mut self, state: &mut OutlierChannelState) -> (changed: bool)
        requires
            old(self)@.wf(),
        ensures
            final(self)@.wf(),
            changed == old(self)@.stats_of(old(state)@).ejected(),
            final(state)@ == (ChannelView {
                addr: old(state)@.addr,
                stats: if changed {
                    old(self)@.stats_of(old(state)@).after_uneject().calmed()
                } else {
                    old(self)@.stats_of(old(state)@)
                },
            }),
            final(self)@ == if changed && old(self)@.attached(old(state)@) {
                old(self)@.storing(old(state)@, final(state)@.stats).one_less_ejected()
            } else {
                old(self)@
            },
    {
        let attached = self.refresh(state);
        if !state.try_uneject() {
            return false;
        }
        state.decrement_multiplier();
        if attached {
            proof {
                lemma_put_ejected(self@.channels, state@.addr, state.stats);
                assert(self@.ejected_set().contains(state@.addr));
                assert(self@.ejected_set().len() > 0);
            }
            table_insert(&mut self.channels, &state.addr, state.stats);
            self.ejected_count = self.ejected_count - 1;
            self.ejected_set_version = self.ejected_set_version.wrapping_add(1);
        }
        true
    }

    /// Time that is left at `now` of the ejection that `state` tells of: `None` if
    /// it is not ejected, and nothing once its time is up, when the caller should
    /// lift the ejection. To learn of the registry's record, [`Self::refresh`] the
    /// state first.
    pub fn remaining_ejection(&self, state: &OutlierChannelState, now: Instant) -> (left: Option<
        Duration,
    >)
        ensures
            left is Some <==> state.stats.ejected(),
            left matches Some(d) ==> d.nanos == remaining_nanos(self@.config, state.stats, now),
    {
        let elapsed = match state.ejected_duration(now) {
            Some(elapsed) => elapsed,
            None => {
                return None;
            },
        };
        let multiplier: u32 = state.ejection_multiplier();
        let config = self.config.load();
        let cap: u128 = config.max_ejection_time.nanos;
        let target: u128 = match config.base_ejection_time.nanos.checked_mul(multiplier as u128) {
            Some(scaled) => if scaled <= cap {
                scaled
            } else {
                cap
            },
            None => cap,
        };
        if target >= elapsed.nanos {
            Some(Duration::from_nanos(target - elapsed.nanos))
        } else {
            Some(Duration::from_nanos(0))
        }
    }

    /// The configuration in force.
    pub fn config(&self) -> (config: OutlierDetectionConfig)
        ensures
            config == self@.config,
    {
        self.config.load()
    }

    /// Puts a new configuration in force.
    pub fn set_config(&mut self, config: OutlierDetectionConfig)
        ensures
            final(self)@ == (RegistryView { config, ..old(self)@ }),
    {
        self.config.store(config);
    }
}

} // verus!
