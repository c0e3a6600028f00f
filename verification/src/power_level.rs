//! A crew member's combat strength: an attack component and a defense
//! component, in integer strength units. Strengths combine by pairwise
//! addition (a government's intrinsic strength added to a weapon's).

use vstd::prelude::*;

verus! {

#[derive(Clone, Copy, Debug, PartialEq, Eq, Structural)]
pub struct PowerLevel {
    pub attack_strength: u64,
    pub defense_strength: u64,
}

impl PowerLevel {
    pub fn new(attack_strength: u64, defense_strength: u64) -> (r: PowerLevel)
        ensures
            r.attack_strength == attack_strength,
            r.defense_strength == defense_strength,
    {
        PowerLevel { attack_strength, defense_strength }
    }

    /// Pairwise addition of the two strength components.
    pub fn combine(self, rhs: PowerLevel) -> (r: PowerLevel)
        requires
            self.attack_strength + rhs.attack_strength <= u64::MAX,
            self.defense_strength + rhs.defense_strength <= u64::MAX,
        ensures
            r.attack_strength == self.attack_strength + rhs.attack_strength,
            r.defense_strength == self.defense_strength + rhs.defense_strength,
    {
        PowerLevel {
            attack_strength: self.attack_strength + rhs.attack_strength,
            defense_strength: self.defense_strength + rhs.defense_strength,
        }
    }
}

} // verus!
