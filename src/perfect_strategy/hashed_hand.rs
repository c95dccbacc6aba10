use vstd::prelude::*;

use crate::hand::{hand_is_pair, hand_is_soft, hand_total, valid_cards, lemma_hand_sum_push, lemma_hand_sum_bounds, Hand};
use crate::types::{additive_value, rank_value, valid_rank, Rank, A, T};

verus! {

/// Total and softness of a hand after one more card of rank `r`, from its total and softness.
pub open spec fn total_plus(total: nat, is_soft: bool, r: Rank) -> (nat, bool) {
    let t1 = total + rank_value(r);
    let (t2, s2) = if t1 > 21 && is_soft {
        ((t1 - 10) as nat, false)
    } else {
        (t1, is_soft)
    };
    if r == A && t2 <= 11 {
        (t2 + 10, true)
    } else {
        (t2, s2)
    }
}

/// Total and softness of a hand after one more card follow from its total and softness alone.
pub proof fn lemma_total_plus(s: Seq<Rank>, r: Rank)
    requires
        valid_cards(s),
        valid_rank(r),
    ensures
        total_plus(hand_total(s), hand_is_soft(s), r) == (hand_total(s.push(r)), hand_is_soft(s.push(r))),
{
    lemma_hand_sum_push(s, r);
    lemma_hand_sum_bounds(s);
    let t = s.push(r);
    if s.contains(A) {
        let j = choose|j: int| 0 <= j < s.len() && s[j] == A;
        assert(t[j] == A);
    }
    if r == A {
        assert(t[s.len() as int] == A);
    }
    if t.contains(A) && r != A {
        let j = choose|j: int| 0 <= j < t.len() && t[j] == A;
        assert(s[j] == A);
    }
}

/// The order-independent summary of a player's hand of two or more cards: enough to decide
/// every action, coarse enough that equivalent hands share it.
#[derive(PartialEq, Eq, Structural, Clone, Copy, Debug, Hash)]
pub struct HashedPlayerHand {
    /// High total of the hand; blackjack bonuses and busts are not taken into account.
    pub total: u32,
    /// Whether the hand is soft.
    pub is_soft: bool,
    /// Whether the hand holds exactly two cards, which allows a double or a split.
    pub is_two: bool,
    /// The rank of the pair when the hand is two cards of equal rank.
    pub is_pair: Option<Rank>,
}

/// The summary of a dealer's hand that was already checked for blackjack.
#[derive(PartialEq, Eq, Structural, Clone, Copy, Debug, Hash)]
pub struct HashedDealerHand {
    /// High total of the hand.
    pub total: u32,
    /// Whether the hand is soft.
    pub is_soft: bool,
    /// Whether only the upcard is known: the next card then cannot make a natural blackjack.
    pub is_one: bool,
}

impl HashedPlayerHand {
    /// The summary describes the cards `s`.
    pub open spec fn represents(self, s: Seq<Rank>) -> bool {
        &&& self.total == hand_total(s)
        &&& self.is_soft == hand_is_soft(s)
        &&& self.is_two == (s.len() == 2)
        &&& self.is_pair == (if hand_is_pair(s) {
            Some(s[0])
        } else {
            None::<Rank>
        })
    }

    /// The summary of a hand.
    pub fn from(hand: &Hand) -> (h: HashedPlayerHand)
        requires
            hand.wf(),
        ensures
            h.represents(hand@),
    {
        HashedPlayerHand {
            total: hand.total(),
            is_soft: hand.is_soft(),
            is_two: hand.len() == 2,
            is_pair: hand.is_pair(),
        }
    }

    /// The summary of a hand of the two cards `a` and `b`.
    pub fn from_two_cards(a: Rank, b: Rank) -> (h: HashedPlayerHand)
        requires
            valid_rank(a),
            valid_rank(b),
        ensures
            h.represents(seq![a, b]),
    {
        let hand = Hand::from_two(a, b);
        proof {
            assert(seq![a, b] =~= seq![a].push(b));
            assert(seq![a] =~= Seq::<Rank>::empty().push(a));
            lemma_hand_sum_push(seq![a], b);
            lemma_hand_sum_push(Seq::<Rank>::empty(), a);
            if a == A {
                assert(seq![a, b][0] == A);
            }
            if b == A {
                assert(seq![a, b][1] == A);
            }
        }
        let mut new_hand = HashedPlayerHand::from(&hand);
        new_hand.is_soft = a == A || b == A;
        new_hand.is_two = true;
        new_hand.is_pair = if a == b {
            Some(a)
        } else {
            None
        };
        new_hand
    }

    /// The summary after one more card: no longer two cards, nor a pair.
    pub fn add(self, rhs: Rank) -> (h: HashedPlayerHand)
        requires
            valid_rank(rhs),
            self.total <= u32::MAX - 10,
        ensures
            (h.total as nat, h.is_soft) == total_plus(self.total as nat, self.is_soft, rhs),
            !h.is_two,
            h.is_pair is None,
    {
        let (total, is_soft) = plus_card(self.total, self.is_soft, rhs);
        HashedPlayerHand { total, is_soft, is_two: false, is_pair: None }
    }
}

fn plus_card(total: u32, is_soft: bool, rhs: Rank) -> (res: (u32, bool))
    requires
        valid_rank(rhs),
        total <= u32::MAX - 10,
    ensures
        (res.0 as nat, res.1) == total_plus(total as nat, is_soft, rhs),
        res.0 <= total + 11,
{
    let mut t = total + additive_value(rhs);
    let mut soft = is_soft;
    if t > 21 && is_soft {
        t = t - 10;
        soft = false;
    }
    if rhs == A && t <= 11 {
        t = t + 10;
        soft = true;
    }
    (t, soft)
}

impl HashedDealerHand {
    /// The summary describes the cards `s`.
    pub open spec fn represents(self, s: Seq<Rank>) -> bool {
        &&& self.total == hand_total(s)
        &&& self.is_soft == hand_is_soft(s)
        &&& self.is_one == (s.len() == 1)
    }

    /// The summary of a dealer hand of which only the upcard `rank` is known.
    pub fn from_single_card(rank: Rank) -> (h: HashedDealerHand)
        requires
            valid_rank(rank),
        ensures
            h.represents(seq![rank]),
            h.total == (if rank == T {
                10
            } else if rank == A {
                11
            } else {
                rank
            }),
    {
        proof {
            assert(seq![rank] =~= Seq::<Rank>::empty().push(rank));
            lemma_hand_sum_push(Seq::<Rank>::empty(), rank);
            if rank == A {
                assert(seq![rank][0] == A);
            }
        }
        HashedDealerHand {
            total: if rank == T {
                10
            } else if rank == A {
                11
            } else {
                rank
            },
            is_one: true,
            is_soft: rank == A,
        }
    }

    /// The summary after one more card.
    pub fn add(self, rhs: Rank) -> (h: HashedDealerHand)
        requires
            valid_rank(rhs),
            self.total <= u32::MAX - 10,
        ensures
            (h.total as nat, h.is_soft) == total_plus(self.total as nat, self.is_soft, rhs),
            !h.is_one,
    {
        let (total, is_soft) = plus_card(self.total, self.is_soft, rhs);
        HashedDealerHand { total, is_soft, is_one: false }
    }
}

} // verus!
