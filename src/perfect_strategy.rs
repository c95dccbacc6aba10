use vstd::prelude::*;

use crate::complex_strategy::double_allowed;
use crate::deck::Deck;
use crate::hand::canonical_hand::{canonical_add, CanonicalHand};
use crate::perfect_strategy::hashed_hand::HashedDealerHand;
use crate::rules::BlackjackRules;
use crate::types::{seq_sum, valid_rank, ActionMask, Rank, RankArray, A, T};

pub mod hashed_hand;

verus! {

/// Weight of rank `r` in the next-card distribution: its count, or zero where the rank is
/// excluded.
pub open spec fn next_card_weight(d: Deck, r: Rank, can_be_ten: bool, can_be_ace: bool) -> u32 {
    if (r == T && !can_be_ten) || (r == A && !can_be_ace) {
        0
    } else {
        d@[r as int]
    }
}

/// The weights with which the next card is each rank: the probability of rank `r` is
/// `weights[r] / total`, where `total` is the number of cards that remain possible. A ten (or an
/// ace) can be excluded, as when the dealer is known not to hold a natural.
pub fn next_card_weights(deck: &Deck, can_be_ten: bool, can_be_ace: bool) -> (r: (RankArray<u32>, u32))
    requires
        deck.fits(),
    ensures
        forall|k: Rank| valid_rank(k) ==> r.0.0@[k as int] == next_card_weight(*deck, k, can_be_ten, can_be_ace),
        r.1 == seq_sum(r.0.0@),
        r.1 == deck.total() - (if can_be_ten { 0 } else { deck.count(T) as int }) - (if can_be_ace { 0 } else { deck.count(A) as int }),
{
    let mut w = deck.card_counts;
    if !can_be_ten {
        w[0] = 0;
    }
    if !can_be_ace {
        w[1] = 0;
    }
    proof {
        assert(deck@.len() == 10);
        crate::types::lemma_seq_sum_update(deck@, 0, if can_be_ten { deck@[0] } else { 0 });
        let s1 = if can_be_ten { deck@ } else { deck@.update(0, 0) };
        assert(s1 == deck@.update(0, if can_be_ten { deck@[0] } else { 0 })) by {
            if can_be_ten {
                assert(deck@.update(0, deck@[0]) =~= deck@);
            }
        }
        crate::types::lemma_seq_sum_update(s1, 1, if can_be_ace { s1[1] } else { 0 });
        if can_be_ace {
            assert(s1.update(1, s1[1]) =~= s1);
        }
        assert(w@ =~= s1.update(1, if can_be_ace { s1[1] } else { 0 }));
        crate::types::lemma_seq_sum_nonneg(w@);
    }
    let weights = RankArray(w);
    let total = weights.sum();
    (weights, total)
}

/// The next dealer card can be a ten, and can be an ace, given that the dealer was checked for
/// a natural: with only the upcard known, an ace upcard excludes a ten and a ten upcard excludes
/// an ace.
pub fn dealer_next_card_possible(hand: &HashedDealerHand) -> (r: (bool, bool))
    ensures
        r.0 == !(hand.is_one && hand.total == 11),
        r.1 == !(hand.is_one && hand.total == 10),
{
    (!(hand.is_one && hand.total == 11), !(hand.is_one && hand.total == 10))
}

/// The dealer stops drawing: 18 or more, or 17 unless it is soft and the dealer hits soft 17.
pub open spec fn dealer_done(rules: BlackjackRules, total: nat, is_soft: bool) -> bool {
    total >= 18 || (total >= 17 && (!rules.hit_soft_17 || !is_soft))
}

/// Whether the dealer's hand is finished.
pub fn dealer_stands(rules: &BlackjackRules, hand: &HashedDealerHand) -> (b: bool)
    ensures
        b == dealer_done(*rules, hand.total as nat, hand.is_soft),
{
    hand.total >= 18 || (hand.total >= 17 && (!rules.hit_soft_17 || !hand.is_soft))
}

/// How a finished dealer hand compares with the total the player needs to beat.
#[derive(PartialEq, Eq, Structural, Clone, Copy, Debug)]
pub enum DealerOutcome {
    /// The dealer beats the player (or the player had busted).
    DealerWins,
    /// Equal totals.
    Push,
    /// The dealer busts or ends lower.
    DealerLoses,
}

/// The outcome for a finished dealer total against the player's total.
pub open spec fn outcome_of(player_total: nat, dealer_total: nat) -> DealerOutcome {
    if player_total > 21 {
        DealerOutcome::DealerWins
    } else if dealer_total > 21 {
        DealerOutcome::DealerLoses
    } else if dealer_total > player_total {
        DealerOutcome::DealerWins
    } else if dealer_total == player_total {
        DealerOutcome::Push
    } else {
        DealerOutcome::DealerLoses
    }
}

/// Compares a finished dealer total with the total the player needs to beat: a player total
/// above 21 has lost, a dealer total above 21 has lost, otherwise the higher total wins.
pub fn dealer_final_outcome(player_hand_to_beat: u32, dealer_total: u32) -> (r: DealerOutcome)
    ensures
        r == outcome_of(player_hand_to_beat as nat, dealer_total as nat),
{
    if player_hand_to_beat > 21 {
        DealerOutcome::DealerWins
    } else if dealer_total > 21 {
        DealerOutcome::DealerLoses
    } else if dealer_total > player_hand_to_beat {
        DealerOutcome::DealerWins
    } else if dealer_total == player_hand_to_beat {
        DealerOutcome::Push
    } else {
        DealerOutcome::DealerLoses
    }
}

/// Insurance is worth taking: the chance that the down card is a ten, `tens / cards`, is above
/// one third (the bet pays two to one and costs half a unit).
pub open spec fn insurance_favorable(deck: Deck) -> bool {
    3 * deck.count(T) > deck.total()
}

/// Whether to take insurance against an ace upcard, given the deck that still holds the dealer's
/// down card.
pub fn perfect_insure_choice(deck: &Deck) -> (b: bool)
    requires
        deck.fits(),
    ensures
        b == insurance_favorable(*deck),
{
    let tens = deck.get(T) as u64;
    let cards = deck.len() as u64;
    3 * tens > cards
}

/// The actions allowed after a hit: stand or hit again.
pub fn actions_after_hit() -> (m: ActionMask)
    ensures
        m == (ActionMask { stand: true, hit: true, double: false, split: false }),
{
    ActionMask { stand: true, hit: true, double: false, split: false }
}

/// The actions allowed to one of the hands made by splitting a pair of `split_card` that
/// received `new_card`, with `splits_allowed` splits left before this one, and the splits left
/// after it: hitting unless the rules forbid hitting split aces, splitting again on a new pair
/// while splits remain, doubling where the rules allow doubling after a split.
pub open spec fn split_followup(rules: BlackjackRules, split_card: Rank, new_card: Rank, splits_allowed: u32) -> (ActionMask, u32) {
    let again = splits_allowed > 1 && new_card == split_card;
    let hand = canonical_add(CanonicalHand::Single(split_card), new_card);
    (ActionMask {
        stand: true,
        hit: rules.hit_split_aces || split_card != A,
        double: rules.double_after_split && double_allowed(rules, true, hand.spec_total(), 2),
        split: again,
    }, if again { (splits_allowed - 1) as u32 } else { 0 })
}

/// The actions allowed to a hand made by a split, and the splits left.
pub fn actions_after_split(rules: &BlackjackRules, split_card: Rank, new_card: Rank, splits_allowed: u32) -> (r: (ActionMask, u32))
    requires
        valid_rank(split_card),
        valid_rank(new_card),
    ensures
        r == split_followup(*rules, split_card, new_card, splits_allowed),
{
    let again = splits_allowed > 1 && new_card == split_card;
    let hand = CanonicalHand::Single(split_card).plus(new_card);
    let total = hand.total();
    let double = rules.double_after_split
        && (rules.double_any_hands || (total >= rules.double_hard_hands_thru_11 && total <= 11));
    (ActionMask {
        stand: true,
        hit: rules.hit_split_aces || split_card != A,
        double,
        split: again,
    }, if again { splits_allowed - 1 } else { 0 })
}

} // verus!
