use vstd::prelude::*;

verus! {

/// A card rank: `T` (ten or face card), `A` (ace), or the number itself for 2 through 9.
pub type Rank = u32;

/// The rank that stands for tens and face cards.
pub const T: Rank = 0;

/// The rank of an ace.
pub const A: Rank = 1;


/// A rank is one of the ten values `0..10`.
pub open spec fn valid_rank(r: Rank) -> bool {
    r < 10
}

/// Additive value of a rank: 10 for a ten, 1 for an ace, the number itself otherwise.
pub open spec fn rank_value(r: Rank) -> nat {
    if r == T {
        10
    } else {
        r as nat
    }
}

/// Additive value of a valid rank.
pub fn additive_value(r: Rank) -> (v: u32)
    requires
        valid_rank(r),
    ensures
        v == rank_value(r),
        1 <= v <= 10,
{
    if r == T {
        10
    } else {
        r
    }
}

/// Sum of a sequence of counts.
pub open spec fn seq_sum(s: Seq<u32>) -> int
    decreases s.len(),
{
    if s.len() == 0 {
        0
    } else {
        seq_sum(s.drop_last()) + s.last()
    }
}

pub proof fn lemma_seq_sum_prefix(s: Seq<u32>, i: int)
    requires
        0 <= i < s.len(),
    ensures
        seq_sum(s.subrange(0, i + 1)) == seq_sum(s.subrange(0, i)) + s[i],
{
    assert(s.subrange(0, i + 1).drop_last() =~= s.subrange(0, i));
}

pub proof fn lemma_seq_sum_prefix_le(s: Seq<u32>, i: int)
    requires
        0 <= i <= s.len(),
    ensures
        seq_sum(s.subrange(0, i)) <= seq_sum(s),
        seq_sum(s.subrange(0, i)) >= 0,
    decreases s.len() - i,
{
    if i == s.len() {
        assert(s.subrange(0, i) =~= s);
        lemma_seq_sum_nonneg(s);
    } else {
        lemma_seq_sum_prefix(s, i);
        lemma_seq_sum_prefix_le(s, i + 1);
        lemma_seq_sum_nonneg(s.subrange(0, i));
    }
}

pub proof fn lemma_seq_sum_nonneg(s: Seq<u32>)
    ensures
        seq_sum(s) >= 0,
    decreases s.len(),
{
    if s.len() > 0 {
        lemma_seq_sum_nonneg(s.drop_last());
    }
}

/// Changing one entry of a sequence changes its sum by the difference.
pub proof fn lemma_seq_sum_update(s: Seq<u32>, i: int, v: u32)
    requires
        0 <= i < s.len(),
    ensures
        seq_sum(s.update(i, v)) == seq_sum(s) - s[i] + v,
    decreases s.len(),
{
    if i == s.len() - 1 {
        assert(s.update(i, v).drop_last() =~= s.drop_last());
    } else {
        assert(s.update(i, v).drop_last() =~= s.drop_last().update(i, v));
        lemma_seq_sum_update(s.drop_last(), i, v);
    }
}

/// An array of values indexed by rank.
#[derive(Clone, Copy, Debug, Default, PartialEq, Eq, Hash)]
pub struct RankArray<V>(pub [V; 10]);

impl RankArray<u32> {
    /// Sum of all ten entries.
    pub fn sum(&self) -> (r: u32)
        requires
            seq_sum(self.0@) <= u32::MAX,
        ensures
            r == seq_sum(self.0@),
    {
        let mut total: u32 = 0;
        let mut i: usize = 0;
        while i < 10
            invariant
                0 <= i <= 10,
                self.0@.len() == 10,
                seq_sum(self.0@) <= u32::MAX,
                total == seq_sum(self.0@.subrange(0, i as int)),
            decreases 10 - i,
        {
            proof {
                lemma_seq_sum_prefix(self.0@, i as int);
                lemma_seq_sum_prefix_le(self.0@, i as int + 1);
            }
            total = total + self.0[i];
            i = i + 1;
        }
        assert(self.0@.subrange(0, 10) =~= self.0@);
        total
    }
}

/// A decision the player can make.
#[derive(PartialEq, Eq, Structural, Clone, Copy, Debug, Hash)]
pub enum Action {
    Stand,
    Hit,
    Double,
    Split,
}

/// The three classes of hands in a strategy chart.
#[derive(PartialEq, Eq, Structural, Clone, Copy, Debug, Hash)]
pub enum HandType {
    Hard,
    Soft,
    Pair,
}

/// Which of the four actions are allowed in a situation.
#[derive(PartialEq, Eq, Structural, Clone, Copy, Debug, Hash, Default)]
pub struct ActionMask {
    pub stand: bool,
    pub hit: bool,
    pub double: bool,
    pub split: bool,
}

impl ActionMask {
    pub open spec fn allows(self, a: Action) -> bool {
        match a {
            Action::Stand => self.stand,
            Action::Hit => self.hit,
            Action::Double => self.double,
            Action::Split => self.split,
        }
    }

    /// Whether the action is allowed.
    pub fn get(&self, a: Action) -> (r: bool)
        ensures
            r == self.allows(a),
    {
        match a {
            Action::Stand => self.stand,
            Action::Hit => self.hit,
            Action::Double => self.double,
            Action::Split => self.split,
        }
    }
}

} // verus!
