use vstd::prelude::*;

verus! {

/// A rule set of the game. The payout of a natural blackjack is held as the fraction
/// `blackjack_payout_numerator / blackjack_payout_denominator` of the bet.
#[derive(Clone, Copy, Debug, PartialEq, Eq, Structural)]
pub struct BlackjackRules {
    pub decks: u32,
    pub shuffle_at_cards: u32,
    pub blackjack_payout_numerator: u32,
    pub blackjack_payout_denominator: u32,
    pub hit_soft_17: bool,
    pub split_hands_limit: u32,
    pub split_aces_limit: u32,
    pub double_any_hands: bool,
    /// Lowest hard total that may double when `double_any_hands` is off (9 means 9 to 11).
    pub double_hard_hands_thru_11: u32,
    pub double_after_split: bool,
    pub hit_split_aces: bool,
}

/// One deck, dealer hits soft 17, no double after split, double on 10 and 11 only.
pub fn rules_1d_h17_ndas_d10() -> (r: BlackjackRules)
    ensures
        r.decks == 1,
        r.shuffle_at_cards == 26,
        r.blackjack_payout_numerator == 3,
        r.blackjack_payout_denominator == 2,
        r.hit_soft_17,
        r.split_hands_limit == 4,
        r.split_aces_limit == 2,
        !r.double_any_hands,
        r.double_hard_hands_thru_11 == 10,
        !r.double_after_split,
        !r.hit_split_aces,
{
    BlackjackRules {
        decks: 1,
        shuffle_at_cards: 52 / 2,
        blackjack_payout_numerator: 3,
        blackjack_payout_denominator: 2,
        hit_soft_17: true,
        split_hands_limit: 4,
        split_aces_limit: 2,
        double_any_hands: false,
        double_hard_hands_thru_11: 10,
        double_after_split: false,
        hit_split_aces: false,
    }
}

/// Six decks, dealer hits soft 17, double after split, double on any two cards.
pub fn rules_6d_h17_das_dany() -> (r: BlackjackRules)
    ensures
        r.decks == 6,
        r.shuffle_at_cards == 78,
        r.blackjack_payout_numerator == 3,
        r.blackjack_payout_denominator == 2,
        r.hit_soft_17,
        r.split_hands_limit == 4,
        r.split_aces_limit == 2,
        r.double_any_hands,
        r.double_hard_hands_thru_11 == 10,
        r.double_after_split,
        !r.hit_split_aces,
{
    BlackjackRules {
        decks: 6,
        shuffle_at_cards: 52 + (52 / 2),
        blackjack_payout_numerator: 3,
        blackjack_payout_denominator: 2,
        hit_soft_17: true,
        split_hands_limit: 4,
        split_aces_limit: 2,
        double_any_hands: true,
        double_hard_hands_thru_11: 10,
        double_after_split: true,
        hit_split_aces: false,
    }
}

} // verus!
