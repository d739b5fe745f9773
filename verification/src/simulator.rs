//! The challenges, and the decisions of the simulation loop.
use vstd::prelude::*;

use crate::params::{Params, RunMode};

verus! {

pub const CHALLENGE_CIRCLE: u32 = 0;
pub const CHALLENGE_RIGHT_HALF: u32 = 1;
pub const CHALLENGE_RIGHT_QUARTER: u32 = 2;
pub const CHALLENGE_STRING: u32 = 3;
pub const CHALLENGE_CENTER_WEIGHTED: u32 = 4;
pub const CHALLENGE_CENTER_UNWEIGHTED: u32 = 40;
pub const CHALLENGE_CORNER: u32 = 5;
pub const CHALLENGE_CORNER_WEIGHTED: u32 = 6;
pub const CHALLENGE_MIGRATE_DISTANCE: u32 = 7;
pub const CHALLENGE_CENTER_SPARSE: u32 = 8;
pub const CHALLENGE_LEFT_EIGHTH: u32 = 9;
pub const CHALLENGE_RADIOACTIVE_WALLS: u32 = 10;
pub const CHALLENGE_AGAINST_ANY_WALL: u32 = 11;
pub const CHALLENGE_TOUCH_ANY_WALL: u32 = 12;
pub const CHALLENGE_EAST_WEST_EIGHTHS: u32 = 13;
pub const CHALLENGE_NEAR_BARRIER: u32 = 14;
pub const CHALLENGE_PAIRS: u32 = 15;
pub const CHALLENGE_LOCATION_SEQUENCE: u32 = 16;
pub const CHALLENGE_ALTRUISM: u32 = 17;
pub const CHALLENGE_ALTRUISM_SACRIFICE: u32 = 18;

/// One of the challenges the simulator knows.
pub open spec fn known_challenge(c: u32) -> bool {
    c <= 18 || c == CHALLENGE_CENTER_UNWEIGHTED
}

/// Whether `c` names a challenge the simulator knows.
pub fn is_known_challenge(c: u32) -> (b: bool)
    ensures
        b == known_challenge(c),
{
    c <= 18 || c == CHALLENGE_CENTER_UNWEIGHTED
}

/// A generation runs while the mode is `Run` and fewer than
/// `max_generations` have run.
pub fn generation_continues(run_mode: &RunMode, generation: u32, max_generations: u32) -> (b: bool)
    ensures
        b == (*run_mode is Run && generation < max_generations),
{
    match run_mode {
        RunMode::Run => generation < max_generations,
        _ => false,
    }
}

/// What follows a generation: the next generation number (0, to start
/// over, when nobody survived) and whether sample genomes are shown
/// (after a generation with survivors whose number is a multiple of the
/// analysis stride).
pub fn after_generation(generation: u32, number_survivors: u32, params: &Params) -> (r: (u32, bool))
    requires
        generation < u32::MAX,
        number_survivors > 0 ==> params.genome_analysis_stride > 0,
    ensures
        r.0 == if number_survivors == 0 {
            0
        } else {
            generation + 1
        },
        r.1 == (number_survivors > 0 && generation % params.genome_analysis_stride == 0),
{
    let show = number_survivors > 0 && generation % params.genome_analysis_stride == 0;
    if number_survivors == 0 {
        (0, show)
    } else {
        (generation + 1, show)
    }
}

/// The deaths of a generation so far after a step that queued
/// `queued_deaths` more, wrapping as a `u32` count does.
pub fn add_murders(murder_count: u32, queued_deaths: usize) -> (r: u32)
    ensures
        r == (murder_count as int + queued_deaths as int) % 0x1_0000_0000,
{
    let q: u64 = queued_deaths as u64 % 0x1_0000_0000;
    let sum: u64 = murder_count as u64 + q;
    (sum % 0x1_0000_0000) as u32
}

} // verus!
