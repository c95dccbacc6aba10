use vstd::prelude::*;

use crate::basic_strategy::{class_of_hand, class_of_unsplittable, BasicStrategyChartKey, BasicStrategyHand};
use crate::complex_strategy::split_limit;
use crate::hand::{hand_is_pair, Hand};
use crate::rules::BlackjackRules;
use crate::table::{entries_map, lemma_entries_map_absent, lemma_entries_map_last, lemma_entries_map_update};
use crate::types::{Rank, A};

verus! {

/// How often a cell of the chart was seen, and how often perfect play deviated from it there.
#[derive(PartialEq, Eq, Structural, Clone, Copy, Debug, Default)]
pub struct ChartValue {
    pub times_seen: u32,
    pub times_deviated: u32,
}

/// A count that stops at the largest `u32`.
pub open spec fn count_up(x: u32) -> u32 {
    if x < u32::MAX {
        (x + 1) as u32
    } else {
        x
    }
}

/// The cell of a decision: the pair class when the pair may still be split, else the total.
pub open spec fn comparison_key(rules: BlackjackRules, s: Seq<Rank>, up: Rank, num_hands: u32) -> BasicStrategyChartKey {
    BasicStrategyChartKey {
        hand: if num_hands < split_limit(rules, if hand_is_pair(s) { Some(s[0]) } else { None }) {
            class_of_hand(s)
        } else {
            class_of_unsplittable(s)
        },
        upcard: up,
    }
}

/// The counts of a cell after one more observation.
pub open spec fn seen(v: ChartValue, deviated: bool) -> ChartValue {
    ChartValue {
        times_seen: count_up(v.times_seen),
        times_deviated: if deviated { count_up(v.times_deviated) } else { v.times_deviated },
    }
}

/// Per cell of the strategy chart, how often it was met and how often perfect play deviated from
/// the chart. A cell never met counts zero.
pub struct ComparisonBSChart {
    chart: Vec<(BasicStrategyChartKey, ChartValue)>,
}

impl View for ComparisonBSChart {
    type V = Map<BasicStrategyChartKey, ChartValue>;

    closed spec fn view(&self) -> Map<BasicStrategyChartKey, ChartValue> {
        entries_map(self.chart@)
    }
}

impl ComparisonBSChart {
    /// The counts of a cell in the map, zero where it was never met.
    pub open spec fn value_at(m: Map<BasicStrategyChartKey, ChartValue>, k: BasicStrategyChartKey) -> ChartValue {
        if m.contains_key(k) {
            m[k]
        } else {
            ChartValue { times_seen: 0, times_deviated: 0 }
        }
    }

    /// A chart with no observations.
    pub fn new() -> (c: ComparisonBSChart)
        ensures
            c@ == Map::<BasicStrategyChartKey, ChartValue>::empty(),
    {
        ComparisonBSChart { chart: Vec::new() }
    }

    fn find(&self, key: BasicStrategyChartKey) -> (r: Option<usize>)
        ensures
            match r {
                Some(i) => i < self.chart@.len() && self.chart@[i as int].0 == key
                    && forall|j: int| i < j < self.chart@.len() ==> self.chart@[j].0 != key,
                None => forall|j: int| 0 <= j < self.chart@.len() ==> self.chart@[j].0 != key,
            },
    {
        let mut i: usize = self.chart.len();
        while i > 0
            invariant
                0 <= i <= self.chart@.len(),
                forall|j: int| i <= j < self.chart@.len() ==> self.chart@[j].0 != key,
            decreases i,
        {
            i = i - 1;
            if self.chart[i].0 == key {
                return Some(i);
            }
        }
        None
    }

    /// The counts of a cell.
    pub fn get(&self, key: BasicStrategyChartKey) -> (v: ChartValue)
        ensures
            v == Self::value_at(self@, key),
    {
        match self.find(key) {
            Some(i) => {
                proof {
                    lemma_entries_map_last(self.chart@, key, i as int);
                }
                self.chart[i].1
            },
            None => {
                proof {
                    lemma_entries_map_absent(self.chart@, key);
                }
                ChartValue { times_seen: 0, times_deviated: 0 }
            },
        }
    }

    /// Records a decision on `hand` against `dealer_up` with `num_hands` hands in play, and
    /// whether perfect play deviated from the chart. A pair that may no longer be split counts
    /// under its total.
    pub fn see(&mut self, rules: &BlackjackRules, hand: &Hand, dealer_up: Rank, num_hands: u32, deviated: bool)
        requires
            hand.wf(),
        ensures
            final(self)@ == old(self)@.insert(
                comparison_key(*rules, hand@, dealer_up, num_hands),
                seen(Self::value_at(old(self)@, comparison_key(*rules, hand@, dealer_up, num_hands)), deviated),
            ),
    {
        let is_splittable_pair = num_hands < match hand.is_pair() {
            Some(r) => if r == A {
                rules.split_aces_limit
            } else {
                rules.split_hands_limit
            },
            None => 1,
        };
        let key = BasicStrategyChartKey {
            hand: if is_splittable_pair {
                BasicStrategyHand::from(hand)
            } else {
                BasicStrategyHand::from_unsplittable(hand)
            },
            upcard: dealer_up,
        };
        let old_value = self.get(key);
        let times_seen = if old_value.times_seen < u32::MAX { old_value.times_seen + 1 } else { old_value.times_seen };
        let times_deviated = if deviated && old_value.times_deviated < u32::MAX {
            old_value.times_deviated + 1
        } else {
            old_value.times_deviated
        };
        let value = ChartValue { times_seen, times_deviated };
        match self.find(key) {
            Some(i) => {
                proof {
                    lemma_entries_map_update(self.chart@, i as int, key, value);
                }
                self.chart.set(i, (key, value));
            },
            None => {
                self.chart.push((key, value));
                assert(self.chart@.drop_last() == old(self).chart@);
            },
        }
    }
}

impl Default for ComparisonBSChart {
    fn default() -> (c: ComparisonBSChart)
        ensures
            c@ == Map::<BasicStrategyChartKey, ChartValue>::empty(),
    {
        ComparisonBSChart::new()
    }
}

} // verus!
