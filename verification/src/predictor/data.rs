//! Learned datapoints: one `Entry` per committed user preference, gathered in
//! a `Data` set whose shape the learning step keeps monotone ("darker
//! environment or darker screen allows the same or a dimmer backlight").

use vstd::prelude::*;

verus! {

/// The largest number of entries a data set may hold.  The bound is a machine
/// limit (it keeps the prediction arithmetic inside `u128`), far beyond any
/// set a user could accumulate.  A learn step against a data set already at
/// this bound keeps the pruned set and drops the pending entry rather than
/// grow past it; its contract states exactly that.
pub const MAX_ENTRIES: u64 = 0x1_0000_0000;

/// One learned datapoint: at ambient light `lux` and screen lightness `luma`
/// the user preferred device brightness `brightness`.
#[derive(Clone, Copy, Debug, PartialEq, Eq, Hash)]
pub struct Entry {
    pub lux: u64,
    pub luma: Option<u8>,
    pub brightness: u64,
}

impl Entry {
    pub fn new(lux: u64, luma: Option<u8>, brightness: u64) -> (e: Entry)
        ensures
            e.lux == lux,
            e.luma == luma,
            e.brightness == brightness,
    {
        Entry { lux, luma, brightness }
    }
}

/// The learned set for one output.
#[derive(Debug)]
pub struct Data {
    pub entries: Vec<Entry>,
}

impl Data {
    pub open spec fn wf(self) -> bool {
        self.entries@.len() <= MAX_ENTRIES
    }

    pub fn new() -> (d: Data)
        ensures
            d.entries@ == Seq::<Entry>::empty(),
            d.wf(),
    {
        let d = Data { entries: Vec::new() };
        proof {
            assert(d.entries@ =~= Seq::<Entry>::empty());
        }
        d
    }
}

impl Default for Data {
    fn default() -> (d: Data)
        ensures
            d.entries@ == Seq::<Entry>::empty(),
            d.wf(),
    {
        Data::new()
    }
}

/// Strict order on observed lightness: an unobserved luma counts darker than
/// any observed one.
pub open spec fn spec_luma_lt(a: Option<u8>, b: Option<u8>) -> bool {
    match (a, b) {
        (Option::None, Option::Some(_)) => true,
        (Option::Some(x), Option::Some(y)) => x < y,
        _ => false,
    }
}

pub fn luma_lt(a: Option<u8>, b: Option<u8>) -> (r: bool)
    ensures
        r == spec_luma_lt(a, b),
{
    match (a, b) {
        (Option::None, Option::Some(_)) => true,
        (Option::Some(x), Option::Some(y)) => x < y,
        _ => false,
    }
}

/// Whether a previously learned entry `e` is still consistent with a freshly
/// committed entry `p` and may stay in the data set.  Read row by row: in a
/// darker environment or on a darker screen the backlight may only be the
/// same or dimmer, in a brighter one only the same or brighter; when both
/// axes moved in the same direction, any brightness is consistent.  An entry
/// taken under exactly the conditions of `p` is always dropped: `p` itself
/// replaces it.
pub open spec fn spec_keeps(e: Entry, p: Entry) -> bool {
    ||| (e.lux < p.lux && spec_luma_lt(e.luma, p.luma))
    ||| (e.lux < p.lux && e.luma == p.luma && e.brightness <= p.brightness)
    ||| (e.lux < p.lux && spec_luma_lt(p.luma, e.luma) && e.brightness <= p.brightness)
    ||| (e.lux == p.lux && spec_luma_lt(e.luma, p.luma) && e.brightness >= p.brightness)
    ||| (e.lux == p.lux && spec_luma_lt(p.luma, e.luma) && e.brightness <= p.brightness)
    ||| (e.lux > p.lux && spec_luma_lt(e.luma, p.luma) && e.brightness >= p.brightness)
    ||| (e.lux > p.lux && e.luma == p.luma && e.brightness >= p.brightness)
    ||| (e.lux > p.lux && spec_luma_lt(p.luma, e.luma))
}

pub fn keeps(e: &Entry, p: &Entry) -> (r: bool)
    ensures
        r == spec_keeps(*e, *p),
{
    let darker_env_darker_screen = e.lux < p.lux && luma_lt(e.luma, p.luma);
    let darker_env_same_screen =
        e.lux < p.lux && !luma_lt(e.luma, p.luma) && !luma_lt(p.luma, e.luma)
        && e.brightness <= p.brightness;
    let darker_env_brighter_screen =
        e.lux < p.lux && luma_lt(p.luma, e.luma) && e.brightness <= p.brightness;
    let same_env_darker_screen =
        e.lux == p.lux && luma_lt(e.luma, p.luma) && e.brightness >= p.brightness;
    let same_env_brighter_screen =
        e.lux == p.lux && luma_lt(p.luma, e.luma) && e.brightness <= p.brightness;
    let brighter_env_darker_screen =
        e.lux > p.lux && luma_lt(e.luma, p.luma) && e.brightness >= p.brightness;
    let brighter_env_same_screen =
        e.lux > p.lux && !luma_lt(e.luma, p.luma) && !luma_lt(p.luma, e.luma)
        && e.brightness >= p.brightness;
    let brighter_env_brighter_screen = e.lux > p.lux && luma_lt(p.luma, e.luma);

    proof {
        assert((!spec_luma_lt(e.luma, p.luma) && !spec_luma_lt(p.luma, e.luma)) == (e.luma
            == p.luma));
    }

    darker_env_darker_screen || darker_env_same_screen || darker_env_brighter_screen
        || same_env_darker_screen || same_env_brighter_screen || brighter_env_darker_screen
        || brighter_env_same_screen || brighter_env_brighter_screen
}

} // verus!
