//! A slot for the current outlier-detection configuration.

use crate::outlier_config::OutlierDetectionConfig;
use arc_swap::ArcSwap;
use std::sync::Arc;
use vstd::prelude::*;

verus! {

/// The slot that holds the configuration in force, an `arc_swap::ArcSwap`. The
/// cell owns it, so what it holds changes only through [`ConfigCell::store`].
#[verifier::external_body]
pub struct ConfigCell {
    inner: ArcSwap<OutlierDetectionConfig>,
}

/// The configuration that a cell holds.
pub uninterp spec fn held_config(cell: ConfigCell) -> OutlierDetectionConfig;

impl ConfigCell {
    /// `arc_swap::ArcSwap::from_pointee`: a new slot holds the given value.
    #[verifier::external_body]
    pub(crate) fn new(config: OutlierDetectionConfig) -> (cell: ConfigCell)
        ensures
            held_config(cell) == config,
    {
        ConfigCell { inner: ArcSwap::from_pointee(config) }
    }

    /// `arc_swap::ArcSwap::load`: a load yields the value that was put in last.
    #[verifier::external_body]
    pub(crate) fn load(&self) -> (config: OutlierDetectionConfig)
        ensures
            config == held_config(*self),
    {
        **self.inner.load()
    }

    /// `arc_swap::ArcSwap::store`: further loads yield the new value.
    #[verifier::external_body]
    pub(crate) fn store(&mut self, config: OutlierDetectionConfig)
        ensures
            held_config(*final(self)) == config,
    {
        self.inner.store(Arc::new(config))
    }
}

} // verus!
