//! Per-channel counters and ejection status.

use crate::time::{elapsed_nanos, Duration, Instant};
use vstd::prelude::*;

verus! {

/// Host and port of an endpoint, as specifications speak of it.
pub type AddressKey = (Seq<char>, u16);

/// Host and port of an endpoint.
#[derive(Debug)]
pub struct EndpointAddress {
    pub host: String,
    pub port: u16,
}

impl View for EndpointAddress {
    type V = AddressKey;

    open spec fn view(&self) -> AddressKey {
        (self.host@, self.port)
    }
}

impl EndpointAddress {
    /// The endpoint at `host` and `port`.
    pub fn new(host: &str, port: u16) -> (address: EndpointAddress)
        ensures
            address@ == (host@, port),
    {
        EndpointAddress { host: host.to_owned(), port }
    }
}

impl Clone for EndpointAddress {
    fn clone(&self) -> (copy: EndpointAddress)
        ensures
            copy == *self,
    {
        EndpointAddress { host: self.host.clone(), port: self.port }
    }
}

impl PartialEq for EndpointAddress {
    fn eq(&self, other: &EndpointAddress) -> (equal: bool) {
        self.port == other.port && self.host == other.host
    }
}

impl vstd::std_specs::cmp::PartialEqSpecImpl for EndpointAddress {
    open spec fn obeys_eq_spec() -> bool {
        true
    }

    open spec fn eq_spec(&self, other: &EndpointAddress) -> bool {
        self@ == other@
    }
}

/// What is known of a channel in the current interval.
#[derive(Clone, Copy, Debug)]
pub struct ChannelStats {
    /// Which of a registry's channels this is, counted from one. A channel that
    /// is registered anew at the same address is another one. Zero stands for a
    /// channel that no registry has made.
    pub serial: u64,
    /// Requests that succeeded since the last sweep.
    pub successes: u64,
    /// Requests that failed since the last sweep.
    pub failures: u64,
    /// How many ejection periods the next ejection lasts, less one.
    pub multiplier: u32,
    /// When the channel was ejected, if it is.
    pub ejected_at: Option<Instant>,
}

impl ChannelStats {
    /// The record of a channel that has seen no traffic.
    pub open spec fn fresh(serial: u64) -> ChannelStats {
        ChannelStats { serial, successes: 0, failures: 0, multiplier: 0, ejected_at: None }
    }

    /// Whether the channel is ejected.
    pub open spec fn ejected(self) -> bool {
        self.ejected_at is Some
    }

    /// Requests seen since the last sweep.
    pub open spec fn traffic(self) -> int {
        self.successes + self.failures
    }

    /// The record after one more request.
    pub open spec fn counted(self, success: bool) -> ChannelStats {
        if success {
            ChannelStats { successes: self.successes.wrapping_add(1), ..self }
        } else {
            ChannelStats { failures: self.failures.wrapping_add(1), ..self }
        }
    }

    /// The record after both counters went back to zero.
    pub open spec fn reset(self) -> ChannelStats {
        ChannelStats { successes: 0, failures: 0, ..self }
    }

    /// The record after an ejection at `now`: the multiplier grows by one.
    pub open spec fn after_eject(self, now: Instant) -> ChannelStats {
        ChannelStats {
            multiplier: if self.multiplier == u32::MAX {
                u32::MAX
            } else {
                (self.multiplier + 1) as u32
            },
            ejected_at: Some(now),
            ..self
        }
    }

    /// The record after the ejection was lifted.
    pub open spec fn after_uneject(self) -> ChannelStats {
        ChannelStats { ejected_at: None, ..self }
    }

    /// The record with its multiplier one lower, but not below zero.
    pub open spec fn calmed(self) -> ChannelStats {
        ChannelStats {
            multiplier: if self.multiplier == 0 {
                0
            } else {
                (self.multiplier - 1) as u32
            },
            ..self
        }
    }
}

/// A channel with its record, as specifications speak of it.
pub struct ChannelView {
    pub addr: AddressKey,
    pub stats: ChannelStats,
}

/// A channel's address together with its record.
#[derive(Debug)]
pub struct OutlierChannelState {
    pub addr: EndpointAddress,
    pub stats: ChannelStats,
}

impl View for OutlierChannelState {
    type V = ChannelView;

    open spec fn view(&self) -> ChannelView {
        ChannelView { addr: self.addr@, stats: self.stats }
    }
}

impl OutlierChannelState {
    /// A channel that has seen no traffic and is not ejected. No registry takes
    /// it for one of its own.
    pub fn new(addr: EndpointAddress) -> (state: OutlierChannelState)
        ensures
            state@ == (ChannelView { addr: addr@, stats: ChannelStats::fresh(0) }),
    {
        OutlierChannelState {
            addr,
            stats: ChannelStats {
                serial: 0,
                successes: 0,
                failures: 0,
                multiplier: 0,
                ejected_at: None,
            },
        }
    }

    /// The channel's address.
    pub fn addr(&self) -> (addr: &EndpointAddress)
        ensures
            *addr == self.addr,
    {
        &self.addr
    }

    /// Counts a request that succeeded.
    pub fn record_success(&mut self)
        ensures
            final(self).addr == old(self).addr,
            final(self).stats == old(self).stats.counted(true),
    {
        self.stats.successes = self.stats.successes.wrapping_add(1);
    }

    /// Counts a request that failed.
    pub fn record_failure(&mut self)
        ensures
            final(self).addr == old(self).addr,
            final(self).stats == old(self).stats.counted(false),
    {
        self.stats.failures = self.stats.failures.wrapping_add(1);
    }

    /// Counts a request by its outcome.
    pub fn record_outcome(&mut self, success: bool)
        ensures
            final(self).addr == old(self).addr,
            final(self).stats == old(self).stats.counted(success),
    {
        if success {
            self.record_success();
        } else {
            self.record_failure();
        }
    }

    /// Successes and failures since the last sweep.
    pub fn counters(&self) -> (counters: (u64, u64))
        ensures
            counters == (self.stats.successes, self.stats.failures),
    {
        (self.stats.successes, self.stats.failures)
    }

    /// Hands out both counters and sets them to zero.
    pub fn snapshot_and_reset(&mut self) -> (counters: (u64, u64))
        ensures
            counters == (old(self).stats.successes, old(self).stats.failures),
            final(self).addr == old(self).addr,
            final(self).stats == old(self).stats.reset(),
    {
        let counters = self.counters();
        self.stats.successes = 0;
        self.stats.failures = 0;
        counters
    }

    /// Whether the channel is ejected.
    pub fn is_ejected(&self) -> (ejected: bool)
        ensures
            ejected == self.stats.ejected(),
    {
        self.stats.ejected_at.is_some()
    }

    /// Ejects the channel unless it is ejected already. Tells whether it did.
    pub fn try_eject(&mut self, now: Instant) -> (changed: bool)
        ensures
            changed == !old(self).stats.ejected(),
            final(self).addr == old(self).addr,
            changed ==> final(self).stats == old(self).stats.after_eject(now),
            !changed ==> final(self).stats == old(self).stats,
    {
        if self.stats.ejected_at.is_some() {
            return false;
        }
        self.stats.ejected_at = Some(now);
        if self.stats.multiplier < u32::MAX {
            self.stats.multiplier = self.stats.multiplier + 1;
        }
        true
    }

    /// Lifts the ejection if there is one. Tells whether it did.
    pub fn try_uneject(&mut self) -> (changed: bool)
        ensures
            changed == old(self).stats.ejected(),
            final(self).addr == old(self).addr,
            final(self).stats == old(self).stats.after_uneject(),
    {
        if self.stats.ejected_at.is_none() {
            return false;
        }
        self.stats.ejected_at = None;
        true
    }

    /// How long the channel has been ejected at `now`, if it is ejected.
    pub fn ejected_duration(&self, now: Instant) -> (span: Option<Duration>)
        ensures
            span is Some <==> self.stats.ejected(),
            span matches Some(d) ==> d.nanos == elapsed_nanos(self.stats.ejected_at->0, now),
    {
        match self.stats.ejected_at {
            Some(at) => Some(now.saturating_duration_since(at)),
            None => None,
        }
    }

    /// The current ejection multiplier.
    pub fn ejection_multiplier(&self) -> (multiplier: u32)
        ensures
            multiplier == self.stats.multiplier,
    {
        self.stats.multiplier
    }

    /// Sets the ejection multiplier.
    pub fn set_ejection_multiplier(&mut self, multiplier: u32)
        ensures
            final(self).addr == old(self).addr,
            final(self).stats == (ChannelStats { multiplier, ..old(self).stats }),
    {
        self.stats.multiplier = multiplier;
    }

    /// Lowers the ejection multiplier by one, but not below zero.
    pub fn decrement_multiplier(&mut self)
        ensures
            final(self).addr == old(self).addr,
            final(self).stats == old(self).stats.calmed(),
    {
        if self.stats.multiplier > 0 {
            self.stats.multiplier = self.stats.multiplier - 1;
        }
    }
}

} // verus!
