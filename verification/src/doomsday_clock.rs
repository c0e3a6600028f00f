//! Countdown work distributor: a non-negative counter supporting one
//! operation, "claim one unit if any is left". A claim on a positive counter
//! succeeds, reports the pre-decrement value and decrements; a claim on a
//! zero counter fails and leaves the counter at zero, so the counter never
//! goes below zero and the successful claims from an initial count `k` are
//! exactly the first `k`.

use vstd::prelude::*;

verus! {

/// One claim step, as a function of the current count: does the claim
/// succeed?
pub open spec fn claim_succeeds(count: int) -> bool {
    count >= 1
}

/// One claim step: the pre-decrement value the claimer observes (0 on a
/// failed claim).
pub open spec fn claim_previous(count: int) -> int {
    if count >= 1 {
        count
    } else {
        0
    }
}

/// One claim step: the count after the claim.
pub open spec fn claim_next(count: int) -> int {
    if count >= 1 {
        count - 1
    } else {
        0
    }
}

/// The count left after `claims` claim steps from `initial`.
pub open spec fn count_after_claims(initial: int, claims: nat) -> int
    decreases claims,
{
    if claims == 0 {
        initial
    } else {
        claim_next(count_after_claims(initial, (claims - 1) as nat))
    }
}

#[derive(Debug)]
pub struct DoomsdayClock {
    counter: usize,
}

impl DoomsdayClock {
    /// How many work units are still unclaimed.
    pub closed spec fn count(self) -> nat {
        self.counter as nat
    }

    pub fn new(initial: usize) -> (clock: DoomsdayClock)
        ensures
            clock.count() == initial,
    {
        DoomsdayClock { counter: initial }
    }

    /// Claim one unit if any is left: reports whether the claim succeeded
    /// and the pre-decrement value.
    pub fn raw_tick(&mut self) -> (r: (bool, usize))
        ensures
            r.0 == claim_succeeds(old(self).count() as int),
            r.1 == claim_previous(old(self).count() as int),
            final(self).count() == claim_next(old(self).count() as int),
    {
        if self.counter == 0 {
            (false, 0)
        } else {
            let prev = self.counter;
            self.counter = prev - 1;
            (true, prev)
        }
    }

    /// Returns true if we successfully claimed a tick.
    pub fn tick(&mut self) -> (claimed: bool)
        ensures
            claimed == claim_succeeds(old(self).count() as int),
            final(self).count() == claim_next(old(self).count() as int),
    {
        self.raw_tick().0
    }
}

/// Countdown law: from an initial count `initial`, the claim at position
/// `i` (counting from zero) succeeds if and only if `i < initial`, and a
/// successful claim at position `i` observes the pre-decrement value
/// `initial - i`. The successful claims are therefore exactly the first
/// `initial` ones, and their pre-decrement values are `initial`,
/// `initial - 1`, ..., `1`.
pub proof fn lemma_countdown_claims(initial: int, i: nat)
    requires
        initial >= 0,
    ensures
        count_after_claims(initial, i) == if i < initial {
            initial - i
        } else {
            0
        },
        claim_succeeds(count_after_claims(initial, i)) <==> i < initial,
        i < initial ==> claim_previous(count_after_claims(initial, i)) == initial - i,
    decreases i,
{
    if i > 0 {
        lemma_countdown_claims(initial, (i - 1) as nat);
    }
}

/// How many of the first `n` claim steps from `initial` succeed.
pub open spec fn successful_claims(initial: int, n: nat) -> int
    decreases n,
{
    if n == 0 {
        0
    } else {
        successful_claims(initial, (n - 1) as nat) + if claim_succeeds(
            count_after_claims(initial, (n - 1) as nat),
        ) {
            1int
        } else {
            0int
        }
    }
}

/// Countdown law, continued: however many claims are made, the successful
/// ones number exactly `min(n, initial)` — once every claimer has been
/// refused, the units handed out add up to exactly the initial count.
pub proof fn lemma_countdown_total(initial: int, n: nat)
    requires
        initial >= 0,
    ensures
        successful_claims(initial, n) == if n <= initial {
            n as int
        } else {
            initial
        },
    decreases n,
{
    if n > 0 {
        lemma_countdown_total(initial, (n - 1) as nat);
        lemma_countdown_claims(initial, (n - 1) as nat);
    }
}

/// Countdown law, continued: no two successful claims observe the same
/// pre-decrement value.
pub proof fn lemma_countdown_values_distinct(initial: int, i: nat, j: nat)
    requires
        0 <= i < initial,
        0 <= j < initial,
        i != j,
    ensures
        claim_previous(count_after_claims(initial, i)) != claim_previous(
            count_after_claims(initial, j),
        ),
{
    lemma_countdown_claims(initial, i);
    lemma_countdown_claims(initial, j);
}

} // verus!
