use vstd::prelude::*;

use crate::deck::Deck;
use crate::hand::{valid_cards, Hand};
use crate::types::{valid_rank, Rank, RankArray, T};

verus! {

/// Number of cards of rank `r` among the first `i` cards of `s`.
pub open spec fn count_in(s: Seq<Rank>, r: Rank, i: int) -> nat
    decreases i,
{
    if i <= 0 {
        0
    } else {
        count_in(s, r, i - 1) + (if s[i - 1] == r {
            1nat
        } else {
            0
        })
    }
}

/// `counts[r]` copies of each rank `r`, in rank order, for the ranks below `k`.
pub open spec fn expand_counts(counts: Seq<u32>, k: int) -> Seq<Rank>
    decreases k,
{
    if k <= 0 {
        Seq::empty()
    } else {
        expand_counts(counts, k - 1) + Seq::new(counts[k - 1] as nat, |i: int| (k - 1) as Rank)
    }
}

/// A player's hand held as the number of cards of each rank: the order of the cards is
/// forgotten, the cards themselves are kept.
#[derive(PartialEq, Eq, Clone, Copy, Debug, Default, Hash)]
pub struct CompositionHashedHand {
    card_counts: RankArray<u32>,
}

impl View for CompositionHashedHand {
    type V = Seq<u32>;

    closed spec fn view(&self) -> Seq<u32> {
        self.card_counts.0@
    }
}

impl CompositionHashedHand {
    /// The counts of the cards of a hand.
    pub fn from(hand: &Hand) -> (h: CompositionHashedHand)
        requires
            valid_cards(hand@),
            hand@.len() <= u32::MAX,
        ensures
            forall|r: Rank| valid_rank(r) ==> h@[r as int] == count_in(hand@, r, hand@.len() as int),
    {
        let mut counts = [0u32; 10];
        let mut i: usize = 0;
        while i < hand.cards.len()
            invariant
                valid_cards(hand@),
                hand@.len() <= u32::MAX,
                0 <= i <= hand@.len(),
                forall|r: Rank| valid_rank(r) ==> #[trigger] counts@[r as int] == count_in(hand@, r, i as int),
                forall|r: Rank| valid_rank(r) ==> count_in(hand@, r, i as int) <= i,
            decreases hand@.len() - i,
        {
            let c = hand.cards[i];
            assert(valid_rank(c));
            assert forall|r: Rank| valid_rank(r) implies count_in(hand@, r, i as int + 1) == count_in(hand@, r, i as int) + (if hand@[i as int] == r { 1nat } else { 0 }) by {}
            counts[c as usize] = counts[c as usize] + 1;
            i = i + 1;
        }
        CompositionHashedHand { card_counts: RankArray(counts) }
    }

    /// Number of cards of rank `r`.
    pub fn count(&self, r: Rank) -> (n: u32)
        requires
            valid_rank(r),
        ensures
            n == self@[r as int],
    {
        self.card_counts.0[r as usize]
    }

    /// A hand of these cards, in rank order (tens, aces, then twos through nines).
    pub fn to_hand(&self) -> (h: Hand)
        ensures
            h@ == expand_counts(self@, 10),
    {
        let mut hand = Hand::new();
        let mut rank: u32 = 0;
        while rank < 10
            invariant
                0 <= rank <= 10,
                self@.len() == 10,
                hand@ == expand_counts(self@, rank as int),
            decreases 10 - rank,
        {
            let count = self.card_counts.0[rank as usize];
            let ghost before = hand@;
            let mut j: u32 = 0;
            while j < count
                invariant
                    0 <= j <= count,
                    hand@ == before + Seq::new(j as nat, |i: int| rank as Rank),
                decreases count - j,
            {
                hand.push(rank);
                j = j + 1;
                assert(hand@ =~= before + Seq::new(j as nat, |i: int| rank as Rank));
            }
            rank = rank + 1;
        }
        hand
    }

    /// Number of cards of rank `r` in a shoe of `decks` decks.
    pub open spec fn shoe_count(decks: u32, r: Rank) -> int {
        if r == T {
            16 * decks
        } else {
            4 * decks
        }
    }

    /// A shoe of `decks` decks holds fewer cards of rank `k` than the counts and the upcard.
    pub open spec fn short_of(counts: Seq<u32>, decks: u32, up: Rank, k: Rank) -> bool {
        Self::shoe_count(decks, k) < counts[k as int] + (if k == up { 1int } else { 0 })
    }

    /// The deck left once these cards and the dealer's upcard are taken out of a full shoe of
    /// `num_decks` decks, or `None` when the shoe does not hold them.
    pub fn remaining_deck(&self, dealer_up: Rank, num_decks: u32) -> (r: Option<Deck>)
        requires
            valid_rank(dealer_up),
            num_decks <= u32::MAX / 16,
        ensures
            match r {
                Some(d) => forall|k: Rank| valid_rank(k) ==> d.count(k) == Self::shoe_count(num_decks, k) - self@[k as int] - (if k == dealer_up { 1int } else { 0 }),
                None => exists|k: Rank| valid_rank(k) && #[trigger] Self::short_of(self@, num_decks, dealer_up, k),
            },
    {
        let mut deck = Deck::shoe(num_decks);
        let mut r: u32 = 0;
        while r < 10
            invariant
                0 <= r <= 10,
                num_decks <= u32::MAX / 16,
                self@.len() == 10,
                deck@.len() == 10,
                forall|k: Rank| r <= k < 10 ==> deck.count(k) == Self::shoe_count(num_decks, k),
                forall|k: Rank| k < r ==> deck.count(k) == Self::shoe_count(num_decks, k) - self@[k as int] - (if k == dealer_up { 1int } else { 0 }),
            decreases 10 - r,
        {
            let need: u64 = self.card_counts.0[r as usize] as u64 + if r == dealer_up { 1 } else { 0 };
            let have = deck.card_counts[r as usize];
            assert(deck.count(r) == Self::shoe_count(num_decks, r));
            assert(self@[r as int] == self.card_counts.0@[r as int]);
            assert(need == self@[r as int] + (if r == dealer_up { 1int } else { 0 }));
            assert(have == deck.count(r));
            if (have as u64) < need {
                assert(Self::short_of(self@, num_decks, dealer_up, r));
                return None;
            }
            let ghost before = deck@;
            let ghost old_deck = deck;
            deck.card_counts[r as usize] = have - need as u32;
            assert(deck@ == before.update(r as int, (have - need) as u32));
            assert forall|k: Rank| k < r + 1 implies deck.count(k) == Self::shoe_count(num_decks, k) - self@[k as int] - (if k == dealer_up { 1int } else { 0 }) by {
                if k < r {
                    assert(deck@[k as int] == before[k as int]);
                    assert(old_deck.count(k) == Self::shoe_count(num_decks, k) - self@[k as int] - (if k == dealer_up { 1int } else { 0 }));
                } else {
                    assert(k == r);
                    assert(deck@[k as int] == (have - need) as u32);
                    assert(have as int == Self::shoe_count(num_decks, k));
                    assert(need as int == self@[k as int] + (if k == dealer_up { 1int } else { 0 }));
                }
            }
            assert forall|k: Rank| r + 1 <= k < 10 implies deck.count(k) == Self::shoe_count(num_decks, k) by {
                assert(deck@[k as int] == before[k as int]);
                assert(old_deck.count(k) == Self::shoe_count(num_decks, k));
            }
            r = r + 1;
        }
        Some(deck)
    }
}

} // verus!
