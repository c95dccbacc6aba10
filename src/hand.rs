use vstd::prelude::*;

use crate::types::{additive_value, rank_value, valid_rank, Rank, A};

pub mod canonical_hand;
pub mod composition_hashed;

verus! {

/// Sum of the additive values of the cards, every ace counted as one.
pub open spec fn hand_sum(s: Seq<Rank>) -> nat
    decreases s.len(),
{
    if s.len() == 0 {
        0
    } else {
        hand_sum(s.drop_last()) + rank_value(s.last())
    }
}

/// Every card is a valid rank.
pub open spec fn valid_cards(s: Seq<Rank>) -> bool {
    forall|i: int| 0 <= i < s.len() ==> valid_rank(#[trigger] s[i])
}

/// The hand counts an ace as eleven: it holds an ace and its hard sum leaves room for ten more.
pub open spec fn hand_is_soft(s: Seq<Rank>) -> bool {
    s.contains(A) && hand_sum(s) <= 11
}

/// The high total of a hand: one ace counts as eleven when that does not bust the hand.
pub open spec fn hand_total(s: Seq<Rank>) -> nat {
    if hand_is_soft(s) {
        hand_sum(s) + 10
    } else {
        hand_sum(s)
    }
}

/// Exactly two cards of equal rank.
pub open spec fn hand_is_pair(s: Seq<Rank>) -> bool {
    s.len() == 2 && s[0] == s[1]
}

pub proof fn lemma_hand_sum_push(s: Seq<Rank>, r: Rank)
    ensures
        hand_sum(s.push(r)) == hand_sum(s) + rank_value(r),
{
    assert(s.push(r).drop_last() =~= s);
}

/// Each valid card adds between one and ten to the sum.
pub proof fn lemma_hand_sum_bounds(s: Seq<Rank>)
    requires
        valid_cards(s),
    ensures
        s.len() <= hand_sum(s) <= 10 * s.len(),
    decreases s.len(),
{
    if s.len() > 0 {
        assert(valid_cards(s.drop_last()));
        assert(valid_rank(s[s.len() - 1]));
        lemma_hand_sum_bounds(s.drop_last());
    }
}

/// A hand of cards, in the order they were dealt.
#[derive(PartialEq, Eq, Clone, Debug, Hash)]
pub struct Hand {
    /// All cards in this hand.
    pub cards: Vec<Rank>,
}

impl View for Hand {
    type V = Seq<Rank>;

    open spec fn view(&self) -> Seq<Rank> {
        self.cards@
    }
}

impl Hand {
    /// The cards are valid ranks and few enough that their sum fits a `u32`.
    pub open spec fn wf(&self) -> bool {
        valid_cards(self@) && self@.len() <= 400_000_000
    }

    /// A hand with no cards.
    pub fn new() -> (h: Hand)
        ensures
            h@ == Seq::<Rank>::empty(),
    {
        Hand { cards: Vec::new() }
    }

    /// A hand of two cards, in the given order.
    pub fn from_two(a: Rank, b: Rank) -> (h: Hand)
        ensures
            h@ == seq![a, b],
    {
        let mut cards = Vec::new();
        cards.push(a);
        cards.push(b);
        assert(cards@ =~= seq![a, b]);
        Hand { cards }
    }

    /// Sum total of this hand, returning the high total of a soft hand; blackjack bonuses and
    /// busts are not taken into account.
    pub fn total(&self) -> (t: u32)
        requires
            self.wf(),
        ensures
            t == hand_total(self@),
    {
        self.total_internal().0
    }

    /// Whether the hand is soft.
    pub fn is_soft(&self) -> (b: bool)
        requires
            self.wf(),
        ensures
            b == hand_is_soft(self@),
    {
        self.total_internal().1
    }

    /// The rank of the pair if this hand is exactly two cards of equal rank. Split limits are not
    /// checked here.
    pub fn is_pair(&self) -> (p: Option<Rank>)
        ensures
            p == (if hand_is_pair(self@) {
                Some(self@[0])
            } else {
                None::<Rank>
            }),
    {
        if self.cards.len() == 2 && self.cards[0] == self.cards[1] {
            Some(self.cards[0])
        } else {
            None
        }
    }

    /// A copy of this hand.
    pub fn copy(&self) -> (h: Hand)
        ensures
            h@ == self@,
    {
        let mut cards: Vec<Rank> = Vec::new();
        let mut i: usize = 0;
        while i < self.cards.len()
            invariant
                0 <= i <= self@.len(),
                cards@ == self@.subrange(0, i as int),
            decreases self@.len() - i,
        {
            cards.push(self.cards[i]);
            i = i + 1;
            assert(cards@ =~= self@.subrange(0, i as int));
        }
        assert(self@.subrange(0, self@.len() as int) =~= self@);
        Hand { cards }
    }

    /// Number of cards.
    pub fn len(&self) -> (n: usize)
        ensures
            n == self@.len(),
    {
        self.cards.len()
    }

    /// The card at position `index`.
    pub fn card(&self, index: usize) -> (r: Rank)
        requires
            index < self@.len(),
        ensures
            r == self@[index as int],
    {
        self.cards[index]
    }

    /// Appends a card.
    pub fn push(&mut self, r: Rank)
        ensures
            final(self)@ == old(self)@.push(r),
    {
        self.cards.push(r);
    }

    /// Replaces the card at position `index`.
    pub fn set_card(&mut self, index: usize, r: Rank)
        requires
            index < old(self)@.len(),
        ensures
            final(self)@ == old(self)@.update(index as int, r),
    {
        self.cards.set(index, r);
    }

    fn total_internal(&self) -> (res: (u32, bool))
        requires
            self.wf(),
        ensures
            res.0 == hand_total(self@),
            res.1 == hand_is_soft(self@),
    {
        let mut contains_ace = false;
        let mut total: u32 = 0;
        let mut i: usize = 0;
        while i < self.cards.len()
            invariant
                self.wf(),
                0 <= i <= self@.len(),
                total == hand_sum(self@.subrange(0, i as int)),
                contains_ace == self@.subrange(0, i as int).contains(A),
            decreases self@.len() - i,
        {
            let card = self.cards[i];
            proof {
                let pre = self@.subrange(0, i as int);
                assert(self@.subrange(0, i as int + 1) =~= pre.push(card));
                lemma_hand_sum_push(pre, card);
                assert(valid_cards(pre));
                lemma_hand_sum_bounds(pre);
                if pre.push(card).contains(A) && !pre.contains(A) {
                    let j = choose|j: int| 0 <= j < pre.push(card).len() && pre.push(card)[j] == A;
                    if j < pre.len() {
                        assert(pre[j] == A);
                    }
                }
                if pre.contains(A) {
                    let j = choose|j: int| 0 <= j < pre.len() && pre[j] == A;
                    assert(pre.push(card)[j] == A);
                }
            }
            if card == A {
                contains_ace = true;
            }
            total = total + additive_value(card);
            i = i + 1;
        }
        assert(self@.subrange(0, self@.len() as int) =~= self@);
        if contains_ace && total <= 11 {
            (total + 10, true)
        } else {
            (total, false)
        }
    }
}

/// Totals of hands: a non-empty hand that took each card after the first while its total was at
/// most 20 has a total between 2 and 30; a hand holding an ace with a hard sum of at most 11 is
/// soft; a soft hand of two or more cards totals at least 12; a pair has two cards.
pub proof fn lemma_total_properties(s: Seq<Rank>)
    requires
        valid_cards(s),
        s.len() >= 1,
        s.len() == 1 || hand_total(s.drop_last()) <= 20,
    ensures
        2 <= hand_total(s) <= 30,
        s.contains(A) && hand_sum(s) <= 11 ==> hand_is_soft(s),
        hand_is_soft(s) && s.len() >= 2 ==> hand_total(s) >= 12,
        hand_is_pair(s) ==> s.len() == 2,
{
    lemma_hand_sum_bounds(s);
    let p = s.drop_last();
    assert(valid_cards(p));
    lemma_hand_sum_bounds(p);
    assert(valid_rank(s[s.len() - 1]));
    if s.len() == 1 {
        if s[0] == A {
            assert(s.contains(A));
        }
    }
}

} // verus!
