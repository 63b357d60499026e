//! Time-of-day ambient-light source: a deterministic synthetic lux curve
//! over the hours of the day, driven by configuration.
//!
//! Unlike the sensor-backed sources, whose raw readings are smoothed onto
//! the profile scale through a threshold list, this source hands out the
//! configured value for the current hour as it stands: here the time-of-day
//! table itself plays the role the thresholds play elsewhere.

use vstd::prelude::*;

verus! {

/// Relies on std::time::SystemTime::now: seconds since the Unix epoch
/// (zero if the clock reads earlier than the epoch).
#[verifier::external_body]
fn unix_now_secs() -> u64 {
    std::time::SystemTime::now().duration_since(std::time::UNIX_EPOCH).map(
        |d| d.as_secs(),
    ).unwrap_or(0)
}

/// The synthetic lux for a given hour: the curve entry for that hour, with a
/// shorter curve repeating over the day and an empty one reading zero.
pub open spec fn spec_lux_at_hour(hour: u64, curve: Seq<u64>) -> int
    recommends
        hour < 24,
{
    if curve.len() == 0 {
        0
    } else {
        curve[(hour as int) % (curve.len() as int)] as int
    }
}

pub struct Als {
    /// Lux per hour of day, typically 24 entries.
    pub curve: Vec<u64>,
}

impl Als {
    pub fn new(curve: Vec<u64>) -> (als: Als)
        ensures
            als.curve == curve,
    {
        Als { curve }
    }

    /// The curve's value for an explicit hour of day.
    pub fn lux_at_hour(&self, hour: u64) -> (r: u64)
        requires
            hour < 24,
        ensures
            r as int == spec_lux_at_hour(hour, self.curve@),
    {
        if self.curve.len() == 0 {
            0
        } else {
            let idx: usize = (hour as usize) % self.curve.len();
            self.curve[idx]
        }
    }

    /// The synthetic ambient value for the wall-clock hour now.
    pub fn get(&mut self) -> (r: u64)
        ensures
            exists|h: u64| h < 24 && r as int == spec_lux_at_hour(h, old(self).curve@),
            final(self).curve == old(self).curve,
    {
        let secs = unix_now_secs();
        let hour: u64 = (secs / 3600) % 24;
        let r = self.lux_at_hour(hour);
        proof {
            assert(hour < 24 && r as int == spec_lux_at_hour(hour, self.curve@));
        }
        r
    }
}

} // verus!
