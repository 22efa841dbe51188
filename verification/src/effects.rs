//! The integer settings of the colour adjustments.

use vstd::prelude::*;

verus! {

/// `v` limited to `lo ..= hi`.
pub open spec fn clamped(v: int, lo: int, hi: int) -> int {
    if v < lo { lo } else if v > hi { hi } else { v }
}

/// The strength of a contrast, brightness or saturation adjustment in
/// percent, as the adjustments read it: limited to `-100 ..= 100`.
pub fn clamp_percent(v: i32) -> (r: i32)
    ensures
        r == clamped(v as int, -100, 100),
        -100 <= v <= 100 ==> r == v,
        v < -100 ==> r == -100,
        v > 100 ==> r == 100,
{
    if v < -100 {
        -100
    } else if v > 100 {
        100
    } else {
        v
    }
}

/// The hue shift in degrees, as the hue adjustment reads it: limited to
/// `0 ..= 360`.
pub fn clamp_hue_degrees(v: i32) -> (r: i32)
    ensures
        r == clamped(v as int, 0, 360),
        0 <= v <= 360 ==> r == v,
        v < 0 ==> r == 0,
        v > 360 ==> r == 360,
{
    if v < 0 {
        0
    } else if v > 360 {
        360
    } else {
        v
    }
}

/// A setting already within the limits is kept as it is, and every setting
/// ends up within the limits.
pub proof fn lemma_clamped_keeps_settings_in_range(v: int, lo: int, hi: int)
    requires
        lo <= hi,
    ensures
        lo <= clamped(v, lo, hi) <= hi,
        lo <= v <= hi ==> clamped(v, lo, hi) == v,
        v < lo ==> clamped(v, lo, hi) == lo,
        v > hi ==> clamped(v, lo, hi) == hi,
{
}

/// A stronger setting never gives a weaker adjustment.
pub proof fn lemma_clamped_monotone(v1: int, v2: int, lo: int, hi: int)
    requires
        lo <= hi,
        v1 <= v2,
    ensures
        clamped(v1, lo, hi) <= clamped(v2, lo, hi),
{
}

/// Limiting a setting twice is limiting it once.
pub proof fn lemma_clamped_idempotent(v: int, lo: int, hi: int)
    requires
        lo <= hi,
    ensures
        clamped(clamped(v, lo, hi), lo, hi) == clamped(v, lo, hi),
{
}

} // verus!
