//! Run-wide settings and statistics.
use vstd::prelude::*;

verus! {

/// Settings of the game: the floor being played and the window size (in pixels).
#[derive(Clone, Copy, Debug, PartialEq, Eq, Structural)]
pub struct CenturionConfig {
    pub current_floor: u8,
    pub window_width: u32,
    pub window_height: u32,
}

impl Default for CenturionConfig {
    fn default() -> (c: CenturionConfig)
        ensures
            c == (CenturionConfig { current_floor: 1, window_width: 800, window_height: 800 }),
    {
        CenturionConfig { current_floor: 1, window_width: 800, window_height: 800 }
    }
}

/// The seed of a run; every floor of the run is generated from it.
#[derive(Clone, Copy, Debug, PartialEq, Eq, Structural)]
pub struct RunSeed(pub u64);

/// Statistics gathered over a run.
#[derive(Clone, Copy, Debug, PartialEq, Eq, Structural)]
pub struct RunStats {
    pub floors_cleared: u8,
    pub total_steps_taken: i32,
    pub enemies_defeated: u32,
    pub items_collected: u32,
}

impl Default for RunStats {
    fn default() -> (s: RunStats)
        ensures
            s == (RunStats { floors_cleared: 0, total_steps_taken: 0, enemies_defeated: 0, items_collected: 0 }),
    {
        RunStats { floors_cleared: 0, total_steps_taken: 0, enemies_defeated: 0, items_collected: 0 }
    }
}

/// Integer division rounding toward zero, as Rust's `/` on signed integers does.
pub open spec fn div_trunc(a: int, b: int) -> int {
    if a >= 0 {
        a / b
    } else {
        -((-a) / b)
    }
}

/// The score of a finished run: 100 per floor cleared, 2 per step left,
/// 10 per point of force, minus half the steps taken (rounded toward zero).
pub open spec fn score_spec(floors_cleared: int, steps_remaining: int, force: int, total_steps_taken: int) -> int {
    floors_cleared * 100 + steps_remaining * 2 + force * 10 - div_trunc(total_steps_taken, 2)
}

/// Every partial sum of the score fits in an `i32`.
pub open spec fn score_defined(floors_cleared: int, steps_remaining: int, force: int, total_steps_taken: int) -> bool {
    &&& i32::MIN <= steps_remaining * 2 <= i32::MAX
    &&& i32::MIN <= force * 10 <= i32::MAX
    &&& i32::MIN <= floors_cleared * 100 + steps_remaining * 2 <= i32::MAX
    &&& i32::MIN <= floors_cleared * 100 + steps_remaining * 2 + force * 10 <= i32::MAX
    &&& i32::MIN <= score_spec(floors_cleared, steps_remaining, force, total_steps_taken) <= i32::MAX
}

impl RunStats {
    /// The score of the run.
    pub fn calculate_score(&self, floors_cleared: u8, steps_remaining: i32, force: i32) -> (score: i32)
        requires
            score_defined(floors_cleared as int, steps_remaining as int, force as int, self.total_steps_taken as int),
        ensures
            score == score_spec(floors_cleared as int, steps_remaining as int, force as int, self.total_steps_taken as int),
    {
        (floors_cleared as i32 * 100) + (steps_remaining * 2) + (force * 10) - (self.total_steps_taken / 2)
    }
}

} // verus!
