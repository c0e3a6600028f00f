//! The strength-profile builder: turns a crew size, an intrinsic strength
//! baseline and a weapon loadout into the cumulative strength profile the
//! capture-odds table consumes. Entry `i` of a profile is the total combat
//! strength available when `i + 1` crew members remain: the per-member
//! strengths (each weapon combined with the baseline, padded with the bare
//! baseline up to the crew size) are sorted in descending order and replaced
//! by their running prefix sums, so losses always cost the weakest surviving
//! contribution last.

use crate::capture_odds::STRENGTH_MAX;
use crate::power_level::PowerLevel;
use vstd::pervasive::VecAdditionalExecFns;
use vstd::prelude::*;

verus! {

/// The attack components of a sequence of strength pairs, as integers.
pub open spec fn attacks_of(s: Seq<PowerLevel>) -> Seq<int> {
    Seq::new(s.len(), |i: int| s[i].attack_strength as int)
}

/// The defense components of a sequence of strength pairs, as integers.
pub open spec fn defenses_of(s: Seq<PowerLevel>) -> Seq<int> {
    Seq::new(s.len(), |i: int| s[i].defense_strength as int)
}

/// A vector of strength values, as integers.
pub open spec fn to_ints(s: Seq<u64>) -> Seq<int> {
    Seq::new(s.len(), |i: int| s[i] as int)
}

/// Attack components of the combined per-member strength list: each weapon's
/// strength plus the baseline, one entry per carried copy, in loadout order.
pub open spec fn attack_items(gov: PowerLevel, weps: Seq<(PowerLevel, u32)>) -> Seq<int>
    decreases weps.len(),
{
    if weps.len() == 0 {
        Seq::empty()
    } else {
        attack_items(gov, weps.drop_last()) + Seq::new(
            weps.last().1 as nat,
            |i: int| weps.last().0.attack_strength + gov.attack_strength,
        )
    }
}

/// Defense components of the combined per-member strength list.
pub open spec fn defense_items(gov: PowerLevel, weps: Seq<(PowerLevel, u32)>) -> Seq<int>
    decreases weps.len(),
{
    if weps.len() == 0 {
        Seq::empty()
    } else {
        defense_items(gov, weps.drop_last()) + Seq::new(
            weps.last().1 as nat,
            |i: int| weps.last().0.defense_strength + gov.defense_strength,
        )
    }
}

/// Pad a per-member strength list with the bare baseline until it covers the
/// whole crew.
pub open spec fn padded(items: Seq<int>, base: int, crew: nat) -> Seq<int> {
    if items.len() >= crew {
        items
    } else {
        items + Seq::new((crew - items.len()) as nat, |i: int| base)
    }
}

/// Insert a value into a descending-sorted sequence, keeping it sorted and
/// placing the value before the first entry it is not smaller than.
pub open spec fn insert_desc(x: int, s: Seq<int>) -> Seq<int>
    decreases s.len(),
{
    if s.len() == 0 {
        seq![x]
    } else if x >= s[0] {
        seq![x] + s
    } else {
        seq![s[0]] + insert_desc(x, s.drop_first())
    }
}

/// Sort a sequence in descending order, by insertion.
pub open spec fn sort_desc(s: Seq<int>) -> Seq<int>
    decreases s.len(),
{
    if s.len() == 0 {
        Seq::empty()
    } else {
        insert_desc(s[0], sort_desc(s.drop_first()))
    }
}

/// The sum of a sequence of integers.
pub open spec fn seq_sum(s: Seq<int>) -> int
    decreases s.len(),
{
    if s.len() == 0 {
        0
    } else {
        seq_sum(s.drop_last()) + s.last()
    }
}

/// The running prefix sums of a sequence: entry `i` is the sum of entries
/// `0..=i`.
pub open spec fn prefix_sums(s: Seq<int>) -> Seq<int> {
    Seq::new(s.len(), |i: int| seq_sum(s.take(i + 1)))
}

/// The full pipeline for the attack dimension of a strength profile.
pub open spec fn profile_attacks(crew: nat, gov: PowerLevel, weps: Seq<(PowerLevel, u32)>) -> Seq<
    int,
> {
    prefix_sums(
        sort_desc(padded(attack_items(gov, weps), gov.attack_strength as int, crew)),
    ).take(crew as int)
}

/// The full pipeline for the defense dimension of a strength profile.
pub open spec fn profile_defenses(crew: nat, gov: PowerLevel, weps: Seq<(PowerLevel, u32)>) -> Seq<
    int,
> {
    prefix_sums(
        sort_desc(padded(defense_items(gov, weps), gov.defense_strength as int, crew)),
    ).take(crew as int)
}

/// The sum of a one-entry sequence is that entry.
proof fn lemma_sum_singleton(s: Seq<int>)
    requires
        s.len() == 1,
    ensures
        seq_sum(s) == s[0],
{
    assert(s.drop_last() =~= Seq::<int>::empty());
    assert(seq_sum(s.drop_last()) == 0);
    assert(s.last() == s[0]);
}

/// Summing can also peel the first entry off.
proof fn lemma_sum_first(s: Seq<int>)
    requires
        s.len() >= 1,
    ensures
        seq_sum(s) == s[0] + seq_sum(s.drop_first()),
    decreases s.len(),
{
    if s.len() == 1 {
        assert(s.drop_last() =~= Seq::<int>::empty());
        assert(s.drop_first() =~= Seq::<int>::empty());
    } else {
        lemma_sum_first(s.drop_last());
        assert(s.drop_last().drop_first() =~= s.drop_first().drop_last());
        assert(s.drop_first().last() == s.last());
    }
}

/// Inserting a value adds exactly that value to the sum.
proof fn lemma_insert_desc_sum(x: int, s: Seq<int>)
    ensures
        seq_sum(insert_desc(x, s)) == x + seq_sum(s),
        insert_desc(x, s).len() == s.len() + 1,
    decreases s.len(),
{
    if s.len() == 0 {
        lemma_sum_singleton(seq![x]);
        assert(seq![x][0] == x);
    } else if x >= s[0] {
        lemma_sum_first(seq![x] + s);
        assert((seq![x] + s)[0] == x);
        assert((seq![x] + s).drop_first() =~= s);
    } else {
        let t = seq![s[0]] + insert_desc(x, s.drop_first());
        lemma_insert_desc_sum(x, s.drop_first());
        lemma_sum_first(t);
        assert(t[0] == s[0]);
        assert(t.drop_first() =~= insert_desc(x, s.drop_first()));
        lemma_sum_first(s);
        assert(insert_desc(x, s) == t);
    }
}

/// Sorting neither changes the sum nor the length.
proof fn lemma_sort_desc_sum(s: Seq<int>)
    ensures
        seq_sum(sort_desc(s)) == seq_sum(s),
        sort_desc(s).len() == s.len(),
    decreases s.len(),
{
    if s.len() > 0 {
        lemma_sort_desc_sum(s.drop_first());
        lemma_insert_desc_sum(s[0], sort_desc(s.drop_first()));
        lemma_sum_first(s);
    }
}

/// Inserting keeps every entry at or above a common lower bound.
proof fn lemma_insert_desc_lower_bound(x: int, s: Seq<int>, b: int)
    requires
        x >= b,
        forall|k: int| 0 <= k < s.len() ==> #[trigger] s[k] >= b,
    ensures
        forall|k: int| 0 <= k < insert_desc(x, s).len() ==> #[trigger] insert_desc(x, s)[k] >= b,
    decreases s.len(),
{
    if s.len() == 0 {
        assert(insert_desc(x, s) == seq![x]);
        assert(seq![x][0] == x);
    } else if x >= s[0] {
        let t = seq![x] + s;
        assert forall|k: int| 0 <= k < t.len() implies #[trigger] t[k] >= b by {
            if k == 0 {
                assert(t[0] == x);
            } else {
                assert(t[k] == s[k - 1]);
            }
        }
        assert(insert_desc(x, s) == t);
    } else {
        assert(forall|k: int|
            0 <= k < s.drop_first().len() ==> #[trigger] s.drop_first()[k] >= b);
        lemma_insert_desc_lower_bound(x, s.drop_first(), b);
        let t = seq![s[0]] + insert_desc(x, s.drop_first());
        assert forall|k: int| 0 <= k < t.len() implies #[trigger] t[k] >= b by {
            if k == 0 {
                assert(t[0] == s[0]);
            } else {
                assert(t[k] == insert_desc(x, s.drop_first())[k - 1]);
            }
        }
        assert(insert_desc(x, s) == t);
    }
}

/// Sorting keeps every entry at or above a common lower bound.
proof fn lemma_sort_desc_lower_bound(s: Seq<int>, b: int)
    requires
        forall|k: int| 0 <= k < s.len() ==> #[trigger] s[k] >= b,
    ensures
        forall|k: int| 0 <= k < sort_desc(s).len() ==> #[trigger] sort_desc(s)[k] >= b,
    decreases s.len(),
{
    if s.len() > 0 {
        assert(forall|k: int|
            0 <= k < s.drop_first().len() ==> #[trigger] s.drop_first()[k] >= b);
        lemma_sort_desc_lower_bound(s.drop_first(), b);
        lemma_insert_desc_lower_bound(s[0], sort_desc(s.drop_first()), b);
    }
}

/// With non-negative entries, prefix sums grow with the prefix and never
/// exceed the total.
proof fn lemma_prefix_sum_grows(s: Seq<int>, i: int, j: int)
    requires
        0 <= i <= j <= s.len(),
        forall|k: int| 0 <= k < s.len() ==> #[trigger] s[k] >= 0,
    ensures
        seq_sum(s.take(i)) <= seq_sum(s.take(j)),
    decreases j - i,
{
    if i < j {
        lemma_prefix_sum_grows(s, i, j - 1);
        assert(s.take(j).drop_last() =~= s.take(j - 1));
    }
}

/// The total of a sequence is the sum of its full prefix.
proof fn lemma_sum_take_all(s: Seq<int>)
    ensures
        seq_sum(s.take(s.len() as int)) == seq_sum(s),
{
    assert(s.take(s.len() as int) =~= s);
}

/// Every entry of the combined per-member attack list carries at least the
/// baseline's attack strength, and likewise for defense; the two component
/// lists always have the same length.
proof fn lemma_items_lower_bound(gov: PowerLevel, weps: Seq<(PowerLevel, u32)>)
    ensures
        forall|k: int|
            0 <= k < attack_items(gov, weps).len() ==> #[trigger] attack_items(gov, weps)[k]
                >= gov.attack_strength,
        forall|k: int|
            0 <= k < defense_items(gov, weps).len() ==> #[trigger] defense_items(gov, weps)[k]
                >= gov.defense_strength,
        attack_items(gov, weps).len() == defense_items(gov, weps).len(),
    decreases weps.len(),
{
    if weps.len() > 0 {
        lemma_items_lower_bound(gov, weps.drop_last());
    }
}

/// Padding keeps the baseline as a lower bound.
proof fn lemma_padded_lower_bound(items: Seq<int>, base: int, crew: nat)
    requires
        forall|k: int| 0 <= k < items.len() ==> #[trigger] items[k] >= base,
    ensures
        forall|k: int|
            0 <= k < padded(items, base, crew).len() ==> #[trigger] padded(items, base, crew)[k]
                >= base,
        padded(items, base, crew).len() >= crew,
{
}

/// Build a strength profile: combine each weapon with the baseline, pad with
/// the bare baseline up to the crew size, sort each component in descending
/// order, accumulate prefix sums, and keep the first `crew` entries. The
/// result is exactly the `profile_attacks`/`profile_defenses` pipeline;
/// every entry is positive, at most `STRENGTH_MAX`, and both components are
/// non-decreasing in the index.
pub fn calculate_strengths(crew: u32, gov: PowerLevel, weps: &Vec<(PowerLevel, u32)>) -> (r: Vec<
    PowerLevel,
>)
    requires
        crew >= 1,
        gov.attack_strength >= 1,
        gov.defense_strength >= 1,
        forall|k: int|
            0 <= k < weps@.len() ==> #[trigger] weps@[k].0.attack_strength + gov.attack_strength
                <= STRENGTH_MAX && weps@[k].0.defense_strength + gov.defense_strength
                <= STRENGTH_MAX,
        seq_sum(padded(attack_items(gov, weps@), gov.attack_strength as int, crew as nat))
            <= STRENGTH_MAX,
        seq_sum(padded(defense_items(gov, weps@), gov.defense_strength as int, crew as nat))
            <= STRENGTH_MAX,
    ensures
        r@.len() == crew,
        attacks_of(r@) == profile_attacks(crew as nat, gov, weps@),
        defenses_of(r@) == profile_defenses(crew as nat, gov, weps@),
        forall|i: int|
            0 <= i < r@.len() ==> 1 <= #[trigger] r@[i].attack_strength <= STRENGTH_MAX && 1 <= r@[
                i
            ].defense_strength <= STRENGTH_MAX,
        forall|i: int, j: int|
            0 <= i <= j < r@.len() ==> #[trigger] r@[i].attack_strength <= #[trigger] r@[
                j
            ].attack_strength && r@[i].defense_strength <= r@[j].defense_strength,
{
    let ghost a_items = attack_items(gov, weps@);
    let ghost d_items = defense_items(gov, weps@);
    let ghost a_pad = padded(a_items, gov.attack_strength as int, crew as nat);
    let ghost d_pad = padded(d_items, gov.defense_strength as int, crew as nat);

    // Expand the loadout: one combined entry per carried weapon copy.
    let mut attack: Vec<u64> = Vec::new();
    let mut defense: Vec<u64> = Vec::new();
    let mut w: usize = 0;
    while w < weps.len()
        invariant
            w <= weps@.len(),
            gov.attack_strength >= 1,
            gov.defense_strength >= 1,
            forall|k: int|
                0 <= k < weps@.len() ==> #[trigger] weps@[k].0.attack_strength
                    + gov.attack_strength <= STRENGTH_MAX && weps@[k].0.defense_strength
                    + gov.defense_strength <= STRENGTH_MAX,
            to_ints(attack@) == attack_items(gov, weps@.take(w as int)),
            to_ints(defense@) == defense_items(gov, weps@.take(w as int)),
            defense@.len() == attack@.len(),
        decreases weps@.len() - w,
    {
        let (wep, count) = weps[w];
        let strength = wep.combine(gov);
        let ghost row_a = Seq::new(count as nat, |i: int| wep.attack_strength + gov.attack_strength);
        let ghost row_d = Seq::new(
            count as nat,
            |i: int| wep.defense_strength + gov.defense_strength,
        );
        let ghost attack0 = attack@;
        let ghost defense0 = defense@;
        let mut k: u32 = 0;
        while k < count
            invariant
                k <= count,
                strength.attack_strength == wep.attack_strength + gov.attack_strength,
                strength.defense_strength == wep.defense_strength + gov.defense_strength,
                row_a == Seq::new(count as nat, |i: int| wep.attack_strength + gov.attack_strength),
                row_d == Seq::new(
                    count as nat,
                    |i: int| wep.defense_strength + gov.defense_strength,
                ),
                to_ints(attack@) == to_ints(attack0) + row_a.take(k as int),
                to_ints(defense@) == to_ints(defense0) + row_d.take(k as int),
                defense@.len() == attack@.len(),
            decreases count - k,
        {
            let ghost before_a = attack@;
            let ghost before_d = defense@;
            attack.push(strength.attack_strength);
            defense.push(strength.defense_strength);
            proof {
                assert(to_ints(before_a.push(strength.attack_strength)) =~= to_ints(before_a).push(
                    strength.attack_strength as int,
                ));
                assert(to_ints(before_d.push(strength.defense_strength)) =~= to_ints(
                    before_d,
                ).push(strength.defense_strength as int));
                assert(row_a.take(k + 1) =~= row_a.take(k as int).push(
                    wep.attack_strength + gov.attack_strength,
                ));
                assert(row_d.take(k + 1) =~= row_d.take(k as int).push(
                    wep.defense_strength + gov.defense_strength,
                ));
                assert((to_ints(attack0) + row_a.take(k as int)).push(
                    strength.attack_strength as int,
                ) =~= to_ints(attack0) + row_a.take(k + 1));
                assert((to_ints(defense0) + row_d.take(k as int)).push(
                    strength.defense_strength as int,
                ) =~= to_ints(defense0) + row_d.take(k + 1));
            }
            k = k + 1;
        }
        proof {
            assert(weps@.take(w + 1).drop_last() =~= weps@.take(w as int));
            assert(weps@.take(w + 1).last() == weps@[w as int]);
            assert(row_a.take(count as int) =~= Seq::new(
                weps@.take(w + 1).last().1 as nat,
                |i: int| weps@.take(w + 1).last().0.attack_strength + gov.attack_strength,
            ));
            assert(row_d.take(count as int) =~= Seq::new(
                weps@.take(w + 1).last().1 as nat,
                |i: int| weps@.take(w + 1).last().0.defense_strength + gov.defense_strength,
            ));
        }
        w = w + 1;
    }
    proof {
        assert(weps@.take(weps@.len() as int) =~= weps@);
    }

    // Pad with the bare baseline until the whole crew is covered.
    proof {
        lemma_items_lower_bound(gov, weps@);
        lemma_padded_lower_bound(a_items, gov.attack_strength as int, crew as nat);
        lemma_padded_lower_bound(d_items, gov.defense_strength as int, crew as nat);
        assert(a_pad.take(a_items.len() as int) =~= a_items);
        assert(d_pad.take(d_items.len() as int) =~= d_items);
    }
    while attack.len() < crew as usize
        invariant
            gov.attack_strength >= 1,
            gov.defense_strength >= 1,
            a_pad == padded(a_items, gov.attack_strength as int, crew as nat),
            d_pad == padded(d_items, gov.defense_strength as int, crew as nat),
            d_pad.len() == a_pad.len(),
            a_pad.len() >= crew,
            d_pad.len() >= crew,
            d_items.len() == a_items.len(),
            attack@.len() <= a_pad.len(),
            to_ints(attack@) == a_pad.take(attack@.len() as int),
            to_ints(defense@) == d_pad.take(defense@.len() as int),
            defense@.len() == attack@.len(),
            attack@.len() >= a_items.len(),
        decreases a_pad.len() - attack@.len(),
    {
        let ghost before_a = attack@;
        let ghost before_d = defense@;
        attack.push(gov.attack_strength);
        defense.push(gov.defense_strength);
        proof {
            assert(a_pad[before_a.len() as int] == gov.attack_strength as int);
            assert(d_pad[before_d.len() as int] == gov.defense_strength as int);
            assert(to_ints(attack@) =~= a_pad.take(attack@.len() as int));
            assert(to_ints(defense@) =~= d_pad.take(defense@.len() as int));
        }
    }
    proof {
        assert(to_ints(attack@) =~= a_pad);
        assert(to_ints(defense@) =~= d_pad);
    }

    // Sort each component in descending order.
    let attack = sort_desc_vec(&attack);
    let defense = sort_desc_vec(&defense);
    let ghost a_sorted = sort_desc(a_pad);
    let ghost d_sorted = sort_desc(d_pad);
    proof {
        lemma_items_lower_bound(gov, weps@);
        lemma_padded_lower_bound(a_items, gov.attack_strength as int, crew as nat);
        lemma_padded_lower_bound(d_items, gov.defense_strength as int, crew as nat);
        lemma_sort_desc_lower_bound(a_pad, gov.attack_strength as int);
        lemma_sort_desc_lower_bound(d_pad, gov.defense_strength as int);
        lemma_sort_desc_sum(a_pad);
        lemma_sort_desc_sum(d_pad);
    }

    // Replace each entry by the running sum of entries up to it.
    let attack = accumulate(attack);
    let defense = accumulate(defense);

    // Keep one entry per possible remaining crew count, then pair them up.
    let mut r: Vec<PowerLevel> = Vec::new();
    proof {
        assert(attacks_of(r@) =~= prefix_sums(a_sorted).take(0));
        assert(defenses_of(r@) =~= prefix_sums(d_sorted).take(0));
        assert(attack@.len() == to_ints(attack@).len());
        assert(defense@.len() == to_ints(defense@).len());
        assert(prefix_sums(a_sorted).len() == a_sorted.len());
        assert(prefix_sums(d_sorted).len() == d_sorted.len());
    }
    let mut i: usize = 0;
    while i < crew as usize
        invariant
            i <= crew,
            to_ints(attack@) == prefix_sums(a_sorted),
            to_ints(defense@) == prefix_sums(d_sorted),
            a_sorted.len() >= crew,
            d_sorted.len() >= crew,
            attack@.len() == a_sorted.len(),
            defense@.len() == d_sorted.len(),
            r@.len() == i,
            attacks_of(r@) == prefix_sums(a_sorted).take(i as int),
            defenses_of(r@) == prefix_sums(d_sorted).take(i as int),
            forall|k: int| 0 <= k < a_sorted.len() ==> #[trigger] a_sorted[k] >= 1,
            forall|k: int| 0 <= k < d_sorted.len() ==> #[trigger] d_sorted[k] >= 1,
            seq_sum(a_sorted) <= STRENGTH_MAX,
            seq_sum(d_sorted) <= STRENGTH_MAX,
        decreases crew - i,
    {
        proof {
            assert(to_ints(attack@)[i as int] == attack@[i as int] as int);
            assert(to_ints(defense@)[i as int] == defense@[i as int] as int);
        }
        let pair = PowerLevel::new(attack[i], defense[i]);
        r.push(pair);
        proof {
            assert(pair.attack_strength as int == prefix_sums(a_sorted)[i as int]);
            assert(pair.defense_strength as int == prefix_sums(d_sorted)[i as int]);
            assert(attacks_of(r@) =~= prefix_sums(a_sorted).take(i + 1));
            assert(defenses_of(r@) =~= prefix_sums(d_sorted).take(i + 1));
        }
        i = i + 1;
    }
    proof {
        assert(attacks_of(r@) =~= profile_attacks(crew as nat, gov, weps@));
        assert(defenses_of(r@) =~= profile_defenses(crew as nat, gov, weps@));
        lemma_profile_properties(r@, a_sorted, d_sorted);
    }
    r
}

/// A sequence of pairs whose components are prefix sums of positive,
/// bounded-total values has positive, bounded, non-decreasing components.
proof fn lemma_profile_properties(rs: Seq<PowerLevel>, a_sorted: Seq<int>, d_sorted: Seq<int>)
    requires
        attacks_of(rs) == prefix_sums(a_sorted).take(rs.len() as int),
        defenses_of(rs) == prefix_sums(d_sorted).take(rs.len() as int),
        rs.len() <= a_sorted.len(),
        rs.len() <= d_sorted.len(),
        forall|k: int| 0 <= k < a_sorted.len() ==> #[trigger] a_sorted[k] >= 1,
        forall|k: int| 0 <= k < d_sorted.len() ==> #[trigger] d_sorted[k] >= 1,
        seq_sum(a_sorted) <= STRENGTH_MAX,
        seq_sum(d_sorted) <= STRENGTH_MAX,
    ensures
        forall|i: int|
            0 <= i < rs.len() ==> 1 <= #[trigger] rs[i].attack_strength <= STRENGTH_MAX && 1 <= rs[
                i
            ].defense_strength <= STRENGTH_MAX,
        forall|i: int, j: int|
            0 <= i <= j < rs.len() ==> #[trigger] rs[i].attack_strength <= #[trigger] rs[
                j
            ].attack_strength && rs[i].defense_strength <= rs[j].defense_strength,
{
    assert forall|i: int| 0 <= i < rs.len() implies 1 <= #[trigger] rs[i].attack_strength
        <= STRENGTH_MAX && 1 <= rs[i].defense_strength <= STRENGTH_MAX by {
        lemma_entry_bounds(a_sorted, i);
        lemma_entry_bounds(d_sorted, i);
        assert(attacks_of(rs)[i] == rs[i].attack_strength as int);
        assert(defenses_of(rs)[i] == rs[i].defense_strength as int);
        assert(rs[i].attack_strength as int == prefix_sums(a_sorted)[i]);
        assert(rs[i].defense_strength as int == prefix_sums(d_sorted)[i]);
    }
    assert forall|i: int, j: int| 0 <= i <= j < rs.len() implies #[trigger] rs[i].attack_strength
        <= #[trigger] rs[j].attack_strength && rs[i].defense_strength <= rs[
        j
    ].defense_strength by {
        assert(forall|k: int| 0 <= k < a_sorted.len() ==> #[trigger] a_sorted[k] >= 0);
        assert(forall|k: int| 0 <= k < d_sorted.len() ==> #[trigger] d_sorted[k] >= 0);
        lemma_prefix_sum_grows(a_sorted, i + 1, j + 1);
        lemma_prefix_sum_grows(d_sorted, i + 1, j + 1);
        assert(attacks_of(rs)[i] == rs[i].attack_strength as int);
        assert(attacks_of(rs)[j] == rs[j].attack_strength as int);
        assert(defenses_of(rs)[i] == rs[i].defense_strength as int);
        assert(defenses_of(rs)[j] == rs[j].defense_strength as int);
        assert(rs[i].attack_strength as int == seq_sum(a_sorted.take(i + 1)));
        assert(rs[j].attack_strength as int == seq_sum(a_sorted.take(j + 1)));
        assert(rs[i].defense_strength as int == seq_sum(d_sorted.take(i + 1)));
        assert(rs[j].defense_strength as int == seq_sum(d_sorted.take(j + 1)));
    }
}

/// Entry `i` of the prefix sums of a positive, bounded-total sequence lies
/// in `[1, STRENGTH_MAX]`.
proof fn lemma_entry_bounds(s: Seq<int>, i: int)
    requires
        0 <= i < s.len(),
        forall|k: int| 0 <= k < s.len() ==> #[trigger] s[k] >= 1,
        seq_sum(s) <= STRENGTH_MAX,
    ensures
        1 <= prefix_sums(s)[i] <= STRENGTH_MAX,
{
    assert(forall|k: int| 0 <= k < s.len() ==> #[trigger] s[k] >= 0);
    lemma_prefix_sum_grows(s, 1, i + 1);
    lemma_prefix_sum_grows(s, i + 1, s.len() as int);
    lemma_sum_take_all(s);
    lemma_sum_singleton(s.take(1));
    assert(s.take(1)[0] == s[0]);
    assert(prefix_sums(s)[i] == seq_sum(s.take(i + 1)));
}

/// Where a value lands in a descending-sorted sequence: right before the
/// first entry it is not smaller than.
proof fn lemma_insert_desc_at(x: int, s: Seq<int>, j: int)
    requires
        0 <= j <= s.len(),
        forall|k: int| 0 <= k < j ==> #[trigger] s[k] > x,
        j < s.len() ==> x >= s[j],
    ensures
        insert_desc(x, s) == s.take(j) + seq![x] + s.skip(j),
    decreases j,
{
    if j == 0 {
        if s.len() == 0 {
            assert(insert_desc(x, s) =~= s.take(0) + seq![x] + s.skip(0));
        } else {
            assert(seq![x] + s =~= s.take(0) + seq![x] + s.skip(0));
        }
    } else {
        assert(s[0] > x);
        assert(forall|k: int|
            0 <= k < j - 1 ==> #[trigger] s.drop_first()[k] == s[k + 1] && s[k + 1] > x);
        lemma_insert_desc_at(x, s.drop_first(), j - 1);
        assert(seq![s[0]] + (s.drop_first().take(j - 1) + seq![x] + s.drop_first().skip(j - 1))
            =~= s.take(j) + seq![x] + s.skip(j));
    }
}

/// Insert a value into a descending-sorted vector, keeping it sorted.
fn insert_sorted_desc(v: &mut Vec<u64>, x: u64)
    ensures
        to_ints(final (v)@) == insert_desc(x as int, to_ints(old(v)@)),
{
    let mut j: usize = 0;
    while j < v.len() && x < v[j]
        invariant
            j <= v@.len(),
            v@ == old(v)@,
            forall|k: int| 0 <= k < j ==> #[trigger] v@[k] > x,
        decreases v@.len() - j,
    {
        j = j + 1;
    }
    proof {
        lemma_insert_desc_at(x as int, to_ints(v@), j as int);
    }
    v.insert(j, x);
    proof {
        assert(to_ints(final (v)@) =~= to_ints(old(v)@).take(j as int) + seq![x as int] + to_ints(
            old(v)@,
        ).skip(j as int));
    }
}

/// Sort a vector of strength values in descending order, by insertion.
fn sort_desc_vec(input: &Vec<u64>) -> (r: Vec<u64>)
    ensures
        to_ints(r@) == sort_desc(to_ints(input@)),
{
    let mut out: Vec<u64> = Vec::new();
    let mut i: usize = input.len();
    while i > 0
        invariant
            i <= input@.len(),
            to_ints(out@) == sort_desc(to_ints(input@).skip(i as int)),
        decreases i,
    {
        i = i - 1;
        insert_sorted_desc(&mut out, input[i]);
        proof {
            assert(to_ints(input@).skip(i as int).drop_first() =~= to_ints(input@).skip(i + 1));
            assert(to_ints(input@).skip(i as int)[0] == input@[i as int] as int);
        }
    }
    proof {
        assert(to_ints(input@).skip(0) =~= to_ints(input@));
    }
    out
}

/// Replace each entry by the sum of all entries up to and including it.
fn accumulate(input: Vec<u64>) -> (r: Vec<u64>)
    requires
        seq_sum(to_ints(input@)) <= STRENGTH_MAX,
    ensures
        to_ints(r@) == prefix_sums(to_ints(input@)),
{
    let ghost s0 = to_ints(input@);
    proof {
        if input@.len() > 0 {
            lemma_sum_singleton(s0.take(1));
            assert(s0.take(1)[0] == s0[0]);
            assert(to_ints(input@)[0] == input@[0] as int);
        }
    }
    let mut v = input;
    let mut n: usize = 1;
    while n < v.len()
        invariant
            1 <= n || v@.len() == 0,
            n <= v@.len() || v@.len() == 0,
            v@.len() == s0.len(),
            s0 == to_ints(input@),
            seq_sum(s0) <= STRENGTH_MAX,
            forall|k: int| 0 <= k < n && k < s0.len() ==> v@[k] as int == seq_sum(s0.take(k + 1)),
            forall|k: int| n <= k < s0.len() ==> v@[k] == input@[k],
        decreases v@.len() - n,
    {
        proof {
            assert(s0.take(n as int + 1).drop_last() =~= s0.take(n as int));
            assert(forall|k: int| 0 <= k < s0.len() ==> #[trigger] s0[k] >= 0);
            lemma_prefix_sum_grows(s0, n as int + 1, s0.len() as int);
            lemma_sum_take_all(s0);
            lemma_prefix_sum_grows(s0, 0, n as int);
        }
        let sum = v[n - 1] + v[n];
        v.set(n, sum);
        n = n + 1;
    }
    proof {
        if v@.len() == 0 {
            assert(to_ints(v@) =~= prefix_sums(s0));
        } else {
            assert(s0.take(1).drop_last() =~= Seq::<int>::empty());
            assert(to_ints(v@) =~= prefix_sums(s0));
        }
    }
    v
}

} // verus!
