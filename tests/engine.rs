use blackjack::complex_strategy::{allowed_actions, can_double, can_split, play_shortcuts};
use blackjack::deck::Deck;
use blackjack::hand::Hand;
use blackjack::perfect_strategy::hashed_hand::{HashedDealerHand, HashedPlayerHand};
use blackjack::perfect_strategy::{actions_after_hit, actions_after_split, dealer_final_outcome, dealer_next_card_possible, dealer_stands, next_card_weights, perfect_insure_choice, DealerOutcome};
use blackjack::rules::{rules_1d_h17_ndas_d10, rules_6d_h17_das_dany};
use blackjack::simulation::{HandSimulation, SimulationError};
use blackjack::types::{Action, ActionMask, A, T};

#[test]
fn next_card_weights_exclusions() {
    let deck = Deck { card_counts: [2, 1, 0, 0, 0, 0, 0, 0, 0, 1] };
    let (w, n) = next_card_weights(&deck, true, true);
    assert_eq!(w.0, [2, 1, 0, 0, 0, 0, 0, 0, 0, 1]);
    assert_eq!(n, 4);
    let (w, n) = next_card_weights(&deck, false, true);
    assert_eq!(w.0, [0, 1, 0, 0, 0, 0, 0, 0, 0, 1]);
    assert_eq!(n, 2);
    let (w, n) = next_card_weights(&deck, true, false);
    assert_eq!(w.0[1], 0);
    assert_eq!(n, 3);
}

#[test]
fn dealer_rules() {
    let h17 = rules_6d_h17_das_dany();
    let mut s17 = h17;
    s17.hit_soft_17 = false;
    let soft17 = HashedDealerHand { total: 17, is_soft: true, is_one: false };
    let hard17 = HashedDealerHand { total: 17, is_soft: false, is_one: false };
    assert!(!dealer_stands(&h17, &soft17));
    assert!(dealer_stands(&s17, &soft17));
    assert!(dealer_stands(&h17, &hard17));
    assert!(!dealer_stands(&h17, &HashedDealerHand { total: 16, is_soft: false, is_one: false }));
    assert_eq!(dealer_next_card_possible(&HashedDealerHand::from_single_card(A)), (false, true));
    assert_eq!(dealer_next_card_possible(&HashedDealerHand::from_single_card(T)), (true, false));
    assert_eq!(dealer_next_card_possible(&HashedDealerHand::from_single_card(T).add(2)), (true, true));
}

#[test]
fn dealer_outcomes() {
    assert_eq!(dealer_final_outcome(22, 18), DealerOutcome::DealerWins);
    assert_eq!(dealer_final_outcome(18, 22), DealerOutcome::DealerLoses);
    assert_eq!(dealer_final_outcome(18, 19), DealerOutcome::DealerWins);
    assert_eq!(dealer_final_outcome(18, 18), DealerOutcome::Push);
    assert_eq!(dealer_final_outcome(19, 18), DealerOutcome::DealerLoses);
}

#[test]
fn scenario_insurance_at_one_third() {
    let mut deck = Deck { card_counts: [16, 0, 4, 4, 4, 4, 4, 4, 4, 4] };
    assert!(!perfect_insure_choice(&deck));
    deck.card_counts[0] = 17;
    assert!(perfect_insure_choice(&deck));
    assert!(!perfect_insure_choice(&Deck::shoe(6)));
}

#[test]
fn split_followups() {
    let das = rules_6d_h17_das_dany();
    let (m, left) = actions_after_split(&das, 8, 8, 3);
    assert_eq!(m, ActionMask { stand: true, hit: true, double: true, split: true });
    assert_eq!(left, 2);
    let (m, left) = actions_after_split(&das, 8, 3, 3);
    assert!(!m.split);
    assert_eq!(left, 0);
    let (m, _) = actions_after_split(&das, A, 5, 1);
    assert!(!m.hit);
    let nodas = rules_1d_h17_ndas_d10();
    let (m, _) = actions_after_split(&nodas, 5, 5, 3);
    assert!(!m.double);
    assert_eq!(actions_after_hit(), ActionMask { stand: true, hit: true, double: false, split: false });
}

#[test]
fn double_and_split_rules() {
    let one = rules_1d_h17_ndas_d10();
    let ten = HashedPlayerHand::from_two_cards(6, 4);
    let nine = HashedPlayerHand::from_two_cards(5, 4);
    assert!(can_double(&one, &ten, 1));
    assert!(!can_double(&one, &nine, 1));
    assert!(!can_double(&one, &ten, 2));
    assert!(!can_double(&one, &ten.add(2), 1));
    let aces = HashedPlayerHand::from_two_cards(A, A);
    assert!(can_split(&one, &aces, 1));
    assert!(!can_split(&one, &aces, 2));
    assert!(can_split(&one, &HashedPlayerHand::from_two_cards(2, 2), 3));
    assert!(!can_split(&one, &ten, 1));
    // Without doubling after a split, only a lone hand may double.
    assert!(!can_double(&one, &ten, 0));
    let das = rules_6d_h17_das_dany();
    assert!(can_double(&das, &HashedPlayerHand::from_two_cards(9, 2), 3));
    let (mask, left) = allowed_actions(&one, &Hand { cards: vec![8, 8] }, 2);
    assert!(mask.split && !mask.double);
    assert_eq!(left, 2);
}

#[test]
fn shortcuts() {
    let rules = rules_6d_h17_das_dany();
    assert_eq!(play_shortcuts(&rules, &Hand { cards: vec![5, 3, 2] }, 1), Some(Action::Hit));
    assert_eq!(play_shortcuts(&rules, &Hand { cards: vec![5, 5] }, 1), None);
    assert_eq!(play_shortcuts(&rules, &Hand { cards: vec![A, T] }, 1), Some(Action::Stand));
    assert_eq!(play_shortcuts(&rules, &Hand { cards: vec![T, 6] }, 1), None);
}

#[test]
fn simulated_push_of_twenties() {
    let rules = rules_6d_h17_das_dany();
    let mut deck = Deck { card_counts: [20, 0, 0, 0, 0, 0, 0, 0, 0, 0] };
    let mut sim = HandSimulation::deal(&mut deck, &rules).unwrap();
    assert_eq!(deck.len(), 16);
    assert!(!sim.offers_insurance());
    assert!(!sim.settle_naturals());
    assert!(sim.pending());
    let ctx = sim.context(&deck);
    assert_eq!(ctx.hand.cards, vec![T, T]);
    assert_eq!(ctx.dealer_up, T);
    assert_eq!(ctx.deck_plus_down.card_counts[0], 17);
    assert!(ctx.allowed.split && ctx.allowed.double);
    assert_eq!(ctx.splits_allowed, 3);
    sim.apply(Action::Stand, &mut deck).unwrap();
    assert!(!sim.pending());
    sim.finish(&mut deck).unwrap();
    assert_eq!(sim.result.roi_scaled, 0);
    assert_eq!(sim.result.bet_units_placed, 1);
    assert_eq!(sim.result.decisions_made, 1);
}

#[test]
fn simulated_split_and_bust() {
    let rules = rules_6d_h17_das_dany();
    let mut deck = Deck { card_counts: [30, 0, 0, 0, 0, 0, 0, 0, 0, 0] };
    let mut sim = HandSimulation::deal(&mut deck, &rules).unwrap();
    sim.apply(Action::Split, &mut deck).unwrap();
    assert_eq!(sim.hands.len(), 2);
    assert_eq!(sim.bets, vec![1, 1]);
    sim.apply(Action::Hit, &mut deck).unwrap();
    assert_eq!(sim.hand_idx, 1);
    sim.apply(Action::Double, &mut deck).unwrap();
    assert!(!sim.pending());
    sim.finish(&mut deck).unwrap();
    // Both hands busted: the dealer draws nothing and wins both bets (1 + 2).
    assert_eq!(sim.dealer.cards.len(), 2);
    assert_eq!(sim.result.bet_units_placed, 3);
    assert_eq!(sim.result.roi_scaled, -3 * sim.result.roi_scale as i64);
}

#[test]
fn simulated_natural_and_insurance() {
    let rules = rules_6d_h17_das_dany();
    // Dealer A then T, player A then T (draw order: up, down, player, player).
    let mut deck = Deck { card_counts: [0, 1, 0, 0, 0, 0, 0, 0, 0, 0] };
    assert!(matches!(HandSimulation::deal(&mut deck, &rules), Err(SimulationError::DeckExhausted)));
    let mut deck = Deck { card_counts: [0, 4, 0, 0, 0, 0, 0, 0, 0, 0] };
    let mut sim = HandSimulation::deal(&mut deck, &rules).unwrap();
    assert!(sim.offers_insurance());
    assert_eq!(sim.result.insurances_offered, 1);
    sim.resolve_insurance(true);
    assert_eq!(sim.result.insurances_taken, 1);
    assert_eq!(sim.result.roi_scaled, -2);
    assert!(!sim.settle_naturals());
}

#[test]
fn simulated_hand_takes_cards_only_from_the_deck() {
    let rules = rules_6d_h17_das_dany();
    let start = Deck { card_counts: [10, 0, 0, 0, 0, 0, 6, 0, 0, 0] };
    let mut deck = start;
    let mut sim = HandSimulation::deal(&mut deck, &rules).unwrap();
    while sim.pending() {
        sim.apply(Action::Stand, &mut deck).unwrap();
    }
    sim.finish(&mut deck).unwrap();
    let mut used = [0u32; 10];
    for c in sim.dealer.cards.iter().chain(sim.hands.iter().flat_map(|h| h.cards.iter())) {
        used[*c as usize] += 1;
    }
    for r in 0..10 {
        assert!(deck.card_counts[r] <= start.card_counts[r]);
        assert_eq!(deck.card_counts[r] + used[r], start.card_counts[r]);
    }
    assert!(start.len() - deck.len() >= 4);
    assert_eq!(sim.result.hands_started, 1);
    assert_eq!(sim.result.shoes_played, 0);
}

#[test]
fn simulated_dealer_runs_out_of_cards() {
    let rules = rules_6d_h17_das_dany();
    // Dealer and player hold only twos; the dealer must draw from an empty deck.
    let mut deck = Deck { card_counts: [0, 0, 4, 0, 0, 0, 0, 0, 0, 0] };
    let mut sim = HandSimulation::deal(&mut deck, &rules).unwrap();
    sim.apply(Action::Stand, &mut deck).unwrap();
    assert!(matches!(sim.finish(&mut deck), Err(SimulationError::DeckExhausted)));
    assert_eq!(deck.len(), 0);
}
