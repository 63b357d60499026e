//! Webcam-backed ambient-light source: a sampler thread (outside the
//! library) captures frames, reduces them to a perceived-lightness value and
//! sends the result over a channel; this side caches the last value seen.

use crate::als::{spec_smoothen, smoothen};
use crate::channels::drain_last_u64;
use std::sync::mpsc::Receiver;
use vstd::prelude::*;

verus! {

/// The ambient value reported before the sampler has delivered anything.
pub const DEFAULT_LUX: u64 = 100;

pub struct Als {
    pub webcam_rx: Receiver<u64>,
    pub thresholds: Vec<u64>,
    pub lux: u64,
}

impl Als {
    pub fn new(webcam_rx: Receiver<u64>, thresholds: Vec<u64>) -> (als: Als)
        ensures
            als.lux == DEFAULT_LUX,
            als.thresholds == thresholds,
    {
        Als { webcam_rx, thresholds, lux: DEFAULT_LUX }
    }

    /// Take what a drain of the sampler channel produced into the cache: a
    /// fresh value replaces the cached one, none leaves it unchanged, and
    /// either way the cache holds what is returned.
    pub fn absorb(&mut self, drained: Option<u64>) -> (r: u64)
        ensures
            r == (match drained {
                Option::Some(v) => v,
                Option::None => old(self).lux,
            }),
            final(self).lux == r,
            final(self).thresholds == old(self).thresholds,
    {
        let new_value = match drained {
            Option::Some(v) => v,
            Option::None => self.lux,
        };
        self.lux = new_value;
        new_value
    }

    /// The most recent value the sampler has sent, or the cached last known
    /// value when nothing new has arrived: `absorb` applied to a drain of
    /// the channel.
    pub fn get_raw(&mut self) -> (r: u64)
        ensures
            final(self).lux == r,
            final(self).thresholds == old(self).thresholds,
    {
        let drained = drain_last_u64(&self.webcam_rx);
        self.absorb(drained)
    }

    /// The current ambient value, smoothed onto the profile scale.
    pub fn get(&mut self) -> (r: u64)
        ensures
            final(self).thresholds == old(self).thresholds,
            r as int == spec_smoothen(final(self).lux, old(self).thresholds@),
    {
        let raw = self.get_raw();
        smoothen(raw, &self.thresholds)
    }
}

} // verus!
