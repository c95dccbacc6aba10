use blackjack::deck::Deck;
use blackjack::hand::composition_hashed::CompositionHashedHand;
use blackjack::hand::Hand;
use blackjack::perfect_strategy::hashed_hand::{HashedDealerHand, HashedPlayerHand};
use blackjack::types::{Rank, RankArray, A, T};

const DECKS: u32 = 1;

#[test]
fn complex_strategy_test_dealer_prob_beating() {
    let mut deck: Deck = Deck::shoe(DECKS);
    let upcard: Rank = 1;
    deck.card_counts[upcard as usize] -= 1;
    assert_eq!(deck.len(), 51);
}

#[test]
fn perfect_strategy_test_simulate_hand() {
    let deck = Deck { card_counts: [11, 3, 0, 1, 1, 0, 2, 2, 2, 3] };
    let upcard: Rank = 5;
    let sims = 10;
    let roi = 0f64;
    assert_eq!(deck.len(), 25);
    assert_eq!(upcard, 5);
    assert_eq!(sims, 10);
    assert_eq!(roi, 0.0);
}

#[test]
fn shoe_counts() {
    let deck = Deck::shoe(6);
    assert_eq!(deck.card_counts, [96, 24, 24, 24, 24, 24, 24, 24, 24, 24]);
    assert_eq!(deck.len(), 312);
}

#[test]
fn added_then_removed_gives_back_the_deck() {
    let deck = Deck::shoe(1);
    for r in 0..10u32 {
        assert_eq!(deck.added(r).removed(r), deck);
        assert_eq!(deck.removed(r).added(r), deck);
        assert_eq!(deck.added(r).len(), 53);
        assert_eq!(deck.removed(r).len(), 51);
    }
    assert_eq!(deck.removed(T).get(T), 15);
}

#[test]
fn draw_removes_one_card() {
    let mut deck = Deck::shoe(2);
    for n in 0..20u32 {
        let before = deck;
        let card = deck.draw();
        assert!(card < 10);
        assert!(before.get(card) > 0);
        assert_eq!(deck, before.removed(card));
        assert_eq!(deck.len(), 104 - n - 1);
    }
}

#[test]
fn draw_from_single_rank_deck() {
    let mut deck = Deck { card_counts: [0, 0, 0, 0, 0, 0, 3, 0, 0, 0] };
    assert_eq!(deck.random_card(), 6);
    assert_eq!(deck.draw(), 6);
    assert_eq!(deck.card_counts[6], 2);
}

#[test]
fn rank_array_sum() {
    assert_eq!(RankArray([1u32, 2, 3, 4, 5, 6, 7, 8, 9, 10]).sum(), 55);
}

#[test]
fn hand_totals() {
    let h = Hand { cards: vec![A, 7] };
    assert_eq!(h.total(), 18);
    assert!(h.is_soft());
    let h = Hand { cards: vec![A, 7, T] };
    assert_eq!(h.total(), 18);
    assert!(!h.is_soft());
    let h = Hand { cards: vec![A, A, 9] };
    assert_eq!(h.total(), 21);
    assert!(h.is_soft());
    let h = Hand { cards: vec![T, T, 5] };
    assert_eq!(h.total(), 25);
    assert_eq!(Hand { cards: vec![A] }.total(), 11);
    assert_eq!(Hand { cards: vec![2] }.total(), 2);
}

#[test]
fn hand_pairs() {
    assert_eq!(Hand { cards: vec![8, 8] }.is_pair(), Some(8));
    assert_eq!(Hand { cards: vec![8, 8, 8] }.is_pair(), None);
    assert_eq!(Hand { cards: vec![8, 7] }.is_pair(), None);
}

#[test]
fn hand_totals_stay_in_range() {
    // Every hand that draws while its total is at most 20 ends between 2 and 30.
    let mut deck = Deck::shoe(1);
    for _ in 0..10 {
        let mut hand = Hand { cards: vec![] };
        hand.push(deck.draw());
        while hand.total() <= 20 && deck.len() > 5 {
            hand.push(deck.draw());
        }
        assert!(hand.total() >= 2 && hand.total() <= 30);
        if hand.is_soft() {
            assert!(hand.total() >= 12);
        }
        if deck.len() < 10 {
            deck = Deck::shoe(1);
        }
    }
}

#[test]
fn hashed_player_hand() {
    let h = HashedPlayerHand::from_two_cards(A, 6);
    assert_eq!(h, HashedPlayerHand { total: 17, is_soft: true, is_two: true, is_pair: None });
    let h2 = h.add(T);
    assert_eq!(h2, HashedPlayerHand { total: 17, is_soft: false, is_two: false, is_pair: None });
    let p = HashedPlayerHand::from_two_cards(A, A);
    assert_eq!(p, HashedPlayerHand { total: 12, is_soft: true, is_two: true, is_pair: Some(A) });
    let h3 = HashedPlayerHand::from_two_cards(5, 4).add(A);
    assert_eq!(h3.total, 20);
    assert!(h3.is_soft);
}

#[test]
fn hashed_dealer_hand() {
    let d = HashedDealerHand::from_single_card(A);
    assert_eq!(d, HashedDealerHand { total: 11, is_soft: true, is_one: true });
    assert_eq!(HashedDealerHand::from_single_card(T).total, 10);
    assert_eq!(HashedDealerHand::from_single_card(7).total, 7);
    let d2 = d.add(6);
    assert_eq!(d2, HashedDealerHand { total: 17, is_soft: true, is_one: false });
    let d3 = d2.add(9);
    assert_eq!(d3, HashedDealerHand { total: 16, is_soft: false, is_one: false });
}

#[test]
fn composition_hashed_hand() {
    let c = CompositionHashedHand::from(&Hand { cards: vec![7, A, 7, T] });
    assert_eq!(c.count(7), 2);
    assert_eq!(c.count(A), 1);
    assert_eq!(c.count(T), 1);
    assert_eq!(c.count(2), 0);
    assert_eq!(c.to_hand().cards, vec![T, A, 7, 7]);
    let d = c.remaining_deck(6, 1).unwrap();
    assert_eq!(d.card_counts, [15, 3, 4, 4, 4, 4, 3, 2, 4, 4]);
    let many = CompositionHashedHand::from(&Hand { cards: vec![A, A, A, A] });
    assert!(many.remaining_deck(A, 1).is_none());
}
