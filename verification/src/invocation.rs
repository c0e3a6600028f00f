//! The configuration record a run is invoked with. Parsing and validation
//! happen outside the library; every field here is already validated (crew
//! sizes and the work, iteration and thread counts are positive).

use crate::power_level::PowerLevel;
use vstd::prelude::*;

verus! {

#[derive(Debug)]
pub struct Invocation {
    /// Crew aboard the player's ship.
    pub ucrew: u32,
    /// Crew aboard the enemy's ship.
    pub mcrew: u32,
    /// The player's government's intrinsic strength.
    pub ugov: PowerLevel,
    /// The enemy government's intrinsic strength.
    pub mgov: PowerLevel,
    /// The player's weapons, each with how many are carried.
    pub uwep: Vec<(PowerLevel, u32)>,
    /// The enemy's weapons, each with how many are carried.
    pub mwep: Vec<(PowerLevel, u32)>,
    /// How many work units to run.
    pub ucount: usize,
    /// How many simulation iterations each work unit performs.
    pub icount: usize,
    /// How many worker threads to use.
    pub tcount: usize,
    pub verbose: bool,
    pub force_threaded: bool,
}

} // verus!
