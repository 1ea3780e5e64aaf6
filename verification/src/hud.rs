//! Numbers shown on the HUD.
use vstd::prelude::*;

verus! {

/// The HUD's guess of the boss's force: 10, plus 2 per enemy defeated,
/// minus 5 per rune collected, and at least 1.
pub open spec fn boss_estimate_spec(enemies_defeated: u32, runes_collected: u32) -> int {
    let raw = 10 + (enemies_defeated as i32) * 2 - (runes_collected as i32) * 5;
    if raw > 1 {
        raw
    } else {
        1
    }
}

/// The estimate stays within `i32` at every step.
pub open spec fn boss_estimate_defined(enemies_defeated: u32, runes_collected: u32) -> bool {
    let e = (enemies_defeated as i32) as int;
    let r = (runes_collected as i32) as int;
    &&& i32::MIN <= e * 2 <= i32::MAX
    &&& i32::MIN <= r * 5 <= i32::MAX
    &&& i32::MIN <= 10 + e * 2 <= i32::MAX
    &&& i32::MIN <= 10 + e * 2 - r * 5 <= i32::MAX
}

/// The HUD's estimate of the boss's force.
pub fn boss_estimate(enemies_defeated: u32, runes_collected: u32) -> (r: i32)
    requires
        boss_estimate_defined(enemies_defeated, runes_collected),
    ensures
        r == boss_estimate_spec(enemies_defeated, runes_collected),
        r >= 1,
{
    let raw = 10 + enemies_defeated as i32 * 2 - runes_collected as i32 * 5;
    raw.max(1)
}

} // verus!
