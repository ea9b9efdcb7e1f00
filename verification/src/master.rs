//! The tally of wins: how often a player of each aggression value has won.

use crate::report::{push_row, rows};
use std::collections::HashMap;
use vstd::prelude::*;

verus! {

broadcast use vstd::std_specs::hash::group_hash_axioms;

/// The wins that `tally` holds for `aggression`: none where it has no entry.
pub open spec fn wins_of(tally: Map<i32, int>, aggression: i32) -> int {
    if tally.contains_key(aggression) {
        tally[aggression]
    } else {
        0
    }
}

/// `tally` with one more win for `aggression`.
pub open spec fn recorded(tally: Map<i32, int>, aggression: i32) -> Map<i32, int> {
    tally.insert(aggression, wins_of(tally, aggression) + 1)
}

/// Two tallies as one: an entry for each aggression value that either has,
/// with the wins of both added up.
pub open spec fn merged(first: Map<i32, int>, second: Map<i32, int>) -> Map<i32, int> {
    Map::new(
        |aggression: i32| first.contains_key(aggression) || second.contains_key(aggression),
        |aggression: i32| wins_of(first, aggression) + wins_of(second, aggression),
    )
}

/// Two tallies can be merged: no sum of the wins that they hold for one
/// aggression value is more than an `i32` holds.
pub open spec fn mergeable(first: Map<i32, int>, second: Map<i32, int>) -> bool {
    forall|aggression: i32| wins_of(first, aggression) + wins_of(second, aggression) <= i32::MAX
}

/// A tally of wins by aggression value. Each entry counts at least one win.
pub struct Master {
    aggression_to_success: HashMap<i32, i32>,
}

impl View for Master {
    type V = Map<i32, int>;

    closed spec fn view(&self) -> Map<i32, int> {
        self.aggression_to_success@.map_values(|wins: i32| wins as int)
    }
}

impl Clone for Master {
    /// A second tally with the same entries.
    fn clone(&self) -> (copy: Master)
        ensures
            copy@ == self@,
    {
        proof {
            use_type_invariant(self);
        }
        Master { aggression_to_success: self.aggression_to_success.clone() }
    }
}

impl Master {
    #[verifier::type_invariant]
    spec fn every_entry_counts(self) -> bool {
        forall|aggression: i32| #[trigger]
            self.aggression_to_success@.contains_key(aggression)
                ==> self.aggression_to_success@[aggression] >= 1
    }

    /// A tally without entries.
    pub fn new() -> (tally: Master)
        ensures
            tally@ == Map::<i32, int>::empty(),
    {
        let tally = Master { aggression_to_success: HashMap::new() };
        assert(tally@ =~= Map::<i32, int>::empty());
        tally
    }

    /// The wins recorded for `aggression`.
    pub fn wins(&self, aggression: i32) -> (wins: i32)
        ensures
            wins == wins_of(self@, aggression),
            wins >= 0,
            self@.contains_key(aggression) <==> wins >= 1,
    {
        proof {
            use_type_invariant(self);
        }
        match self.aggression_to_success.get(&aggression) {
            Some(wins) => *wins,
            None => 0,
        }
    }

    /// The number of aggression values that have an entry. Each entry
    /// counts at least one win and no more than an `i32` holds.
    pub fn len(&self) -> (entries: usize)
        ensures
            entries == self@.len(),
            self@.dom().finite(),
            forall|aggression: i32| #[trigger]
                self@.contains_key(aggression) ==> 1 <= self@[aggression] <= i32::MAX,
    {
        proof {
            use_type_invariant(self);
        }
        assert(self@.dom() =~= self.aggression_to_success@.dom());
        self.aggression_to_success.len()
    }

    /// No entry of a tally counts more wins than an `i32` holds, and none
    /// fewer than the least `i32`.
    pub proof fn lemma_counts_fit(self)
        ensures
            forall|aggression: i32| #[trigger]
                self@.contains_key(aggression) ==> i32::MIN <= self@[aggression] <= i32::MAX,
            forall|aggression: i32|
                i32::MIN <= #[trigger] wins_of(self@, aggression) <= i32::MAX,
    {
    }

    /// Records one more win for `winner_aggression`.
    pub fn record_game(&mut self, winner_aggression: i32)
        requires
            wins_of(old(self)@, winner_aggression) < i32::MAX,
        ensures
            final(self)@ == recorded(old(self)@, winner_aggression),
    {
        proof {
            use_type_invariant(&*self);
        }
        let mut counts: HashMap<i32, i32> = HashMap::new();
        std::mem::swap(&mut self.aggression_to_success, &mut counts);
        match counts.get(&winner_aggression) {
            Some(wins) => {
                let more: i32 = *wins + 1;
                counts.insert(winner_aggression, more);
            },
            None => {
                counts.insert(winner_aggression, 1);
            },
        }
        std::mem::swap(&mut self.aggression_to_success, &mut counts);
        assert(self@ =~= recorded(old(self)@, winner_aggression));
    }

    /// The tally as text: a line for each entry, the aggression value and
    /// its wins with a comma between them, in the order in which the map
    /// hands its entries out.
    pub fn contents(&self) -> (text: Vec<u8>)
        ensures
            exists|keys: Seq<i32>|
                {
                    &&& #[trigger] rows(keys, self@) == text@
                    &&& keys.no_duplicates()
                    &&& keys.to_set() == self@.dom()
                },
    {
        let ghost counts = self.aggression_to_success@;
        let ghost mut keys: Seq<i32> = Seq::empty();
        let mut text: Vec<u8> = Vec::new();
        for entry in it: self.aggression_to_success.iter()
            invariant
                counts == self.aggression_to_success@,
                it.seq().no_duplicates(),
                forall|i: int|
                    0 <= i < it.seq().len() ==> counts.contains_key(*(#[trigger] it.seq()[i]).0)
                        && counts[*it.seq()[i].0] == *it.seq()[i].1,
                forall|aggression: i32| #[trigger]
                    counts.contains_key(aggression) ==> keys.contains(aggression) || exists|i: int|
                        it.index() <= i < it.seq().len() && *(#[trigger] it.seq()[i]).0
                            == aggression,
                keys.len() == it.index(),
                forall|i: int| 0 <= i < keys.len() ==> #[trigger] keys[i] == *it.seq()[i].0,
                keys.no_duplicates(),
                text@ == rows(keys, self@),
        {
            let ghost earlier = keys;
            proof {
                let at = it.index();
                assert(entry == it.seq()[at]);
                assert(counts.contains_key(*entry.0) && counts[*entry.0] == *entry.1);
                assert(self@[*entry.0] == *entry.1);
                keys = earlier.push(*entry.0);
                assert(keys.drop_last() =~= earlier);
                assert forall|i: int, j: int|
                    0 <= i < keys.len() && 0 <= j < keys.len() && i != j implies keys[i]
                    != keys[j] by {
                    if keys[i] == keys[j] {
                        assert(it.seq()[i] == it.seq()[j]);
                    }
                }
                assert forall|other: i32| #[trigger] counts.contains_key(other) implies keys.contains(
                    other,
                ) || exists|i: int|
                    it.index() + 1 <= i < it.seq().len() && *(#[trigger] it.seq()[i]).0
                        == other by {
                    if earlier.contains(other) {
                        let i = choose|i: int| 0 <= i < earlier.len() && earlier[i] == other;
                        assert(keys[i] == other);
                    } else if other == *entry.0 {
                        assert(keys[at] == other);
                    } else {
                        let i = choose|i: int|
                            it.index() <= i < it.seq().len() && *(#[trigger] it.seq()[i]).0
                                == other;
                        assert(i != it.index());
                    }
                }
            }
            push_row(&mut text, *entry.0, *entry.1);
        }
        proof {
            assert(keys.to_set() =~= self@.dom()) by {
                assert forall|k: i32| keys.to_set().contains(k) implies self@.dom().contains(k) by {
                    let i = choose|i: int| 0 <= i < keys.len() && keys[i] == k;
                    assert(counts.contains_key(keys[i]));
                }
            }
        }
        text
    }

    /// Whether `rhs` can be merged into this tally: whether every sum of
    /// wins fits.
    pub fn can_merge(&self, rhs: &Master) -> (fits: bool)
        ensures
            fits == mergeable(self@, rhs@),
    {
        proof {
            use_type_invariant(self);
            use_type_invariant(rhs);
        }
        let ghost first = self.aggression_to_success@;
        let ghost second = rhs.aggression_to_success@;
        for entry in it: rhs.aggression_to_success.iter()
            invariant
                first == self.aggression_to_success@,
                second == rhs.aggression_to_success@,
                forall|i: int|
                    0 <= i < it.seq().len() ==> second.contains_key(*(#[trigger] it.seq()[i]).0)
                        && second[*it.seq()[i].0] == *it.seq()[i].1,
                forall|aggression: i32| #[trigger]
                    second.contains_key(aggression) ==> wins_of(self@, aggression) + wins_of(
                        rhs@,
                        aggression,
                    ) <= i32::MAX || exists|i: int|
                        it.index() <= i < it.seq().len() && *(#[trigger] it.seq()[i]).0
                            == aggression,
        {
            let aggression: i32 = *entry.0;
            let theirs: i32 = *entry.1;
            proof {
                assert(entry == it.seq()[it.index()]);
                assert(second.contains_key(aggression) && second[aggression] == theirs);
                assert(wins_of(rhs@, aggression) == theirs);
            }
            let mine: i32 = match self.aggression_to_success.get(&aggression) {
                Some(wins) => *wins,
                None => 0,
            };
            assert(wins_of(self@, aggression) == mine);
            if mine as i64 + theirs as i64 > i32::MAX as i64 {
                return false;
            }
            proof {
                assert forall|other: i32| #[trigger] second.contains_key(other) implies wins_of(
                    self@,
                    other,
                ) + wins_of(rhs@, other) <= i32::MAX || exists|i: int|
                    it.index() + 1 <= i < it.seq().len() && *(#[trigger] it.seq()[i]).0
                        == other by {
                    if other != aggression && !(wins_of(self@, other) + wins_of(rhs@, other)
                        <= i32::MAX) {
                        let i = choose|i: int|
                            it.index() <= i < it.seq().len() && *(#[trigger] it.seq()[i]).0
                                == other;
                        assert(i != it.index());
                    }
                }
            }
        }
        proof {
            assert forall|aggression: i32|
                wins_of(self@, aggression) + wins_of(rhs@, aggression) <= i32::MAX by {
                if !second.contains_key(aggression) {
                    assert(wins_of(rhs@, aggression) == 0);
                }
            }
        }
        true
    }

    /// Adds the wins of `rhs` to this tally, entry by entry.
    pub fn merge(self, rhs: Master) -> (total: Master)
        requires
            mergeable(self@, rhs@),
        ensures
            total@ == merged(self@, rhs@),
    {
        proof {
            use_type_invariant(&self);
            use_type_invariant(&rhs);
        }
        let ghost first = self.aggression_to_success@;
        let ghost second = rhs.aggression_to_success@;
        let ghost mut done: Set<i32> = Set::empty();
        let mut counts: HashMap<i32, i32> = self.aggression_to_success;
        for entry in it: rhs.aggression_to_success.iter()
            invariant
                first == self.aggression_to_success@,
                second == rhs.aggression_to_success@,
                it.seq().no_duplicates(),
                forall|i: int|
                    0 <= i < it.seq().len() ==> second.contains_key(*(#[trigger] it.seq()[i]).0)
                        && second[*it.seq()[i].0] == *it.seq()[i].1,
                forall|aggression: i32| #[trigger]
                    second.contains_key(aggression) ==> it.seq().contains(
                        (&aggression, &second[aggression]),
                    ),
                forall|aggression: i32| #[trigger]
                    second.contains_key(aggression) ==> done.contains(aggression) || exists|i: int|
                        it.index() <= i < it.seq().len() && *(#[trigger] it.seq()[i]).0
                            == aggression,
                forall|aggression: i32| #[trigger]
                    done.contains(aggression) ==> exists|i: int|
                        0 <= i < it.index() && *(#[trigger] it.seq()[i]).0 == aggression,
                forall|aggression: i32| #[trigger]
                    counts@.contains_key(aggression) <==> first.contains_key(aggression)
                        || done.contains(aggression),
                forall|aggression: i32| #[trigger]
                    counts@.contains_key(aggression) ==> counts@[aggression] == (if first.contains_key(
                        aggression,
                    ) {
                        first[aggression] as int
                    } else {
                        0
                    }) + (if done.contains(aggression) {
                        second[aggression] as int
                    } else {
                        0
                    }),
                forall|aggression: i32| #[trigger]
                    first.contains_key(aggression) ==> first[aggression] >= 1,
                forall|aggression: i32| #[trigger]
                    second.contains_key(aggression) ==> second[aggression] >= 1,
                mergeable(self@, rhs@),
        {
            let aggression: i32 = *entry.0;
            let success: i32 = *entry.1;
            proof {
                let at = it.index();
                assert(entry == it.seq()[at]);
                assert(second.contains_key(aggression) && second[aggression] == success);
                if done.contains(aggression) {
                    let earlier = choose|i: int|
                        0 <= i < at && *(#[trigger] it.seq()[i]).0 == aggression;
                    assert(it.seq()[earlier] == it.seq()[at]);
                }
                assert(wins_of(self@, aggression) + wins_of(rhs@, aggression) <= i32::MAX);
            }
            match counts.get(&aggression) {
                Some(val) => {
                    let sum: i32 = *val + success;
                    counts.insert(aggression, sum);
                },
                None => {
                    counts.insert(aggression, success);
                },
            }
            proof {
                let ghost before = done;
                done = done.insert(aggression);
                assert forall|other: i32| #[trigger] second.contains_key(other) implies done.contains(
                    other,
                ) || exists|i: int|
                    it.index() + 1 <= i < it.seq().len() && *(#[trigger] it.seq()[i]).0
                        == other by {
                    if !done.contains(other) {
                        let i = choose|i: int|
                            it.index() <= i < it.seq().len() && *(#[trigger] it.seq()[i]).0
                                == other;
                        assert(i != it.index());
                    }
                }
                assert forall|other: i32| #[trigger] done.contains(other) implies exists|i: int|
                    0 <= i < it.index() + 1 && *(#[trigger] it.seq()[i]).0 == other by {
                    if other == aggression {
                        assert(*it.seq()[it.index()].0 == other);
                    } else {
                        let i = choose|i: int|
                            0 <= i < it.index() && *(#[trigger] it.seq()[i]).0 == other;
                        assert(0 <= i < it.index() + 1);
                    }
                }
            }
        }
        let total = Master { aggression_to_success: counts };
        proof {
            assert(total@ =~= merged(self@, rhs@));
        }
        total
    }
}

/// Merging does not depend on which tally comes first.
pub proof fn lemma_merge_commutes(first: Map<i32, int>, second: Map<i32, int>)
    ensures
        merged(first, second) == merged(second, first),
{
    assert(merged(first, second) =~= merged(second, first));
}

/// Merging three tallies does not depend on which two are merged first.
pub proof fn lemma_merge_associates(
    first: Map<i32, int>,
    second: Map<i32, int>,
    third: Map<i32, int>,
)
    ensures
        merged(merged(first, second), third) == merged(first, merged(second, third)),
{
    assert(merged(merged(first, second), third) =~= merged(first, merged(second, third)));
}

/// Merging with a tally without entries changes nothing.
pub proof fn lemma_merge_empty(tally: Map<i32, int>)
    ensures
        merged(tally, Map::empty()) == tally,
        merged(Map::empty(), tally) == tally,
{
    assert(merged(tally, Map::empty()) =~= tally);
    assert(merged(Map::empty(), tally) =~= tally);
}

} // verus!
