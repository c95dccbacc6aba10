use vstd::prelude::*;

use crate::basic_strategy::mask_for;
use crate::complex_strategy::{allowed_actions, split_limit};
use crate::deck::{counts_removed, lemma_removed_all_push, removed_all, Deck};
use crate::hand::{hand_is_pair, hand_is_soft, hand_sum, hand_total, valid_cards, lemma_hand_sum_bounds, lemma_hand_sum_push, Hand};
use crate::perfect_strategy::dealer_done;
use crate::rules::BlackjackRules;
use crate::types::{valid_rank, Action, ActionMask, Rank, A, T};

verus! {

/// Why a hand could not be played to the end.
#[derive(PartialEq, Eq, Structural, Clone, Copy, Debug)]
pub enum SimulationError {
    /// The deck ran out of cards.
    DeckExhausted,
}

/// Counts gathered while playing hands. The return is held exactly, in units of
/// `1 / roi_scale` bets, where `roi_scale` is twice the denominator of the blackjack payout: an
/// insurance loss is half a bet and a natural pays the payout fraction.
#[derive(Clone, Copy, Debug, Default, PartialEq, Eq, Structural)]
pub struct SimulationResult {
    pub shoes_played: u64,
    pub hands_started: u64,
    pub bet_units_placed: u64,
    pub decisions_made: u64,
    pub insurances_offered: u64,
    pub insurances_taken: u64,
    pub insurances_won: u64,
    /// Return on investment, in units of `1 / roi_scale` bets.
    pub roi_scaled: i64,
    pub roi_scale: u64,
}

/// The rules can be simulated: a payout with a positive denominator, a split limit of at most
/// a million hands, and no resplitting of aces.
pub open spec fn simulable(rules: BlackjackRules) -> bool {
    &&& 0 < rules.blackjack_payout_denominator
    &&& 1 <= rules.split_hands_limit <= 1_000_000
    &&& rules.split_aces_limit == 2
}

/// The score of a player hand at settlement: its total, or 0 when busted.
pub open spec fn player_score(s: Seq<Rank>) -> int {
    if hand_total(s) > 21 {
        0
    } else {
        hand_total(s) as int
    }
}

/// The score of the dealer's hand at settlement: its total, or 1 when busted, which still beats
/// a busted player.
pub open spec fn dealer_score(s: Seq<Rank>) -> int {
    if hand_total(s) > 21 {
        1
    } else {
        hand_total(s) as int
    }
}

/// What one hand wins, in bets: its bet when it scores higher than the dealer, nothing on a tie,
/// minus its bet when lower.
pub open spec fn settle(s: Seq<Rank>, bet: int, dealer: Seq<Rank>) -> int {
    if player_score(s) > dealer_score(dealer) {
        bet
    } else if player_score(s) == dealer_score(dealer) {
        0
    } else {
        -bet
    }
}

/// What the first `n` hands win together.
pub open spec fn settle_all(hands: Seq<Hand>, bets: Seq<u32>, dealer: Seq<Rank>, n: int) -> int
    decreases n,
{
    if n <= 0 {
        0
    } else {
        settle_all(hands, bets, dealer, n - 1) + settle(hands[n - 1]@, bets[n - 1] as int, dealer)
    }
}

/// Sum of the first `n` bets.
pub open spec fn bets_sum(bets: Seq<u32>, n: int) -> int
    decreases n,
{
    if n <= 0 {
        0
    } else {
        bets_sum(bets, n - 1) + bets[n - 1]
    }
}

/// The counts with the three cards `a`, `b` and `c` taken out.
pub open spec fn removed_three(s: Seq<u32>, a: Rank, b: Rank, c: Rank) -> Seq<u32> {
    removed_all(s, seq![a, b, c])
}

/// Some hand is not busted.
pub open spec fn any_live(hands: Seq<Hand>) -> bool {
    exists|i: int| 0 <= i < hands.len() && hand_total((#[trigger] hands[i])@) <= 21
}

/// What a player needs to decide an action.
pub struct DecisionContext {
    /// The hand to act on.
    pub hand: Hand,
    /// Number of hands the player holds.
    pub num_hands: u32,
    /// The actions the rules allow.
    pub allowed: ActionMask,
    /// Splits left before the split limit.
    pub splits_allowed: u32,
    /// The dealer's upcard.
    pub dealer_up: Rank,
    /// The deck as the player knows it: the dealer's down card is still in it.
    pub deck_plus_down: Deck,
}

/// One hand of play, from the deal to the settlement.
pub struct HandSimulation {
    pub rules: BlackjackRules,
    pub dealer: Hand,
    pub hands: Vec<Hand>,
    /// Bet of each hand, in units.
    pub bets: Vec<u32>,
    /// The hand being played.
    pub hand_idx: usize,
    /// False once split aces were dealt their cards and no hand may act again.
    pub can_act_again_at_all: bool,
    pub result: SimulationResult,
}

fn bump(x: u64) -> (r: u64)
    ensures
        r == (if x < u64::MAX { x as int + 1 } else { x as int }),
{
    if x < u64::MAX {
        x + 1
    } else {
        x
    }
}

/// Draws a card, or fails when the deck is empty.
fn draw_card(deck: &mut Deck) -> (r: Result<Rank, SimulationError>)
    requires
        old(deck).fits(),
    ensures
        final(deck).fits(),
        match r {
            Ok(c) => {
                &&& valid_rank(c)
                &&& old(deck).count(c) > 0
                &&& final(deck)@ == counts_removed(old(deck)@, c)
                &&& final(deck).total() == old(deck).total() - 1
            },
            Err(_) => old(deck).total() == 0 && *final(deck) == *old(deck),
        },
        forall|k: Rank| valid_rank(k) ==> final(deck).count(k) <= old(deck).count(k),
{
    if deck.len() == 0 {
        return Err(SimulationError::DeckExhausted);
    }
    let c = deck.draw();
    assert forall|k: Rank| valid_rank(k) implies deck.count(k) <= old(deck).count(k) by {
        assert(deck@ == counts_removed(old(deck)@, c));
    }
    Ok(c)
}

proof fn lemma_count_le_total(d: Deck, r: Rank)
    requires
        valid_rank(r),
    ensures
        d.count(r) <= d.total(),
{
    assert(d@.len() == 10);
    crate::types::lemma_seq_sum_update(d@, r as int, 0);
    crate::types::lemma_seq_sum_nonneg(d@.update(r as int, 0));
}

/// A hand of two valid cards is never busted.
proof fn lemma_two_cards_live(s: Seq<Rank>)
    requires
        valid_cards(s),
        s.len() == 2,
    ensures
        hand_total(s) <= 21,
{
    lemma_hand_sum_bounds(s);
}

/// A hand that is not busted has at most 21 cards.
proof fn lemma_live_len(s: Seq<Rank>)
    requires
        valid_cards(s),
        hand_total(s) <= 21,
    ensures
        s.len() <= 21,
{
    lemma_hand_sum_bounds(s);
}

impl HandSimulation {
    /// The state is consistent: hands, bets and scale agree, the hand being played is not
    /// busted, the hands after it hold their two dealt cards.
    pub open spec fn wf(&self) -> bool {
        &&& simulable(self.rules)
        &&& self.result.roi_scale == 2 * self.rules.blackjack_payout_denominator
        &&& -100_000_000_000_000_000 <= self.result.roi_scaled <= 100_000_000_000_000_000
        &&& self.result.bet_units_placed <= 1
        &&& self.dealer.wf()
        &&& self.dealer@.len() == 2
        &&& 1 <= self.hands@.len() <= 1_000_000
        &&& self.hands@.len() == self.bets@.len()
        &&& forall|i: int| 0 <= i < self.hands@.len() ==> (#[trigger] self.hands@[i]).wf() && 2 <= self.hands@[i]@.len() <= 32
        &&& forall|i: int| 0 <= i < self.bets@.len() ==> 1 <= #[trigger] self.bets@[i] <= 2
        &&& self.hand_idx <= self.hands@.len()
        &&& self.hand_idx < self.hands@.len() ==> hand_total(self.hands@[self.hand_idx as int]@) <= 21
        &&& forall|j: int| self.hand_idx < j < self.hands@.len() ==> (#[trigger] self.hands@[j])@.len() == 2
    }

    /// Some hand still waits for a decision.
    pub open spec fn spec_pending(&self) -> bool {
        self.hand_idx < self.hands@.len() && self.can_act_again_at_all
    }

    /// The hand being played.
    pub open spec fn current(&self) -> Seq<Rank> {
        self.hands@[self.hand_idx as int]@
    }

    /// Deals the dealer's upcard and down card, then the player's two cards, from the deck.
    pub fn deal(deck: &mut Deck, rules: &BlackjackRules) -> (r: Result<HandSimulation, SimulationError>)
        requires
            old(deck).fits(),
            simulable(*rules),
        ensures
            final(deck).fits(),
            match r {
                Ok(sim) => {
                    &&& sim.wf()
                    &&& sim.rules == *rules
                    &&& sim.dealer@.len() == 2
                    &&& sim.hands@.len() == 1
                    &&& sim.hands@[0]@.len() == 2
                    &&& sim.bets@ == seq![1u32]
                    &&& sim.hand_idx == 0
                    &&& sim.can_act_again_at_all
                    &&& sim.result == (SimulationResult {
                        shoes_played: 0,
                        hands_started: 1,
                        bet_units_placed: 0,
                        decisions_made: 0,
                        insurances_offered: if sim.dealer@[0] == A { 1 } else { 0 },
                        insurances_taken: 0,
                        insurances_won: 0,
                        roi_scaled: 0,
                        roi_scale: (2 * rules.blackjack_payout_denominator) as u64,
                    })
                    &&& final(deck).total() == old(deck).total() - 4
                    &&& final(deck)@ == removed_all(old(deck)@, seq![sim.dealer@[0], sim.dealer@[1], sim.hands@[0]@[0], sim.hands@[0]@[1]])
                },
                Err(_) => old(deck).total() < 4 && final(deck).total() == 0,
            },
            old(deck).total() >= 4 ==> r is Ok,
            forall|k: Rank| valid_rank(k) ==> final(deck).count(k) <= old(deck).count(k),
    {
        let up = draw_card(deck)?;
        let down = draw_card(deck)?;
        let p1 = draw_card(deck)?;
        let p2 = draw_card(deck)?;
        proof {
            let s0 = Seq::<Rank>::empty();
            lemma_removed_all_push(old(deck)@, s0, up);
            lemma_removed_all_push(old(deck)@, s0.push(up), down);
            lemma_removed_all_push(old(deck)@, s0.push(up).push(down), p1);
            lemma_removed_all_push(old(deck)@, s0.push(up).push(down).push(p1), p2);
            assert(s0.push(up).push(down).push(p1).push(p2) =~= seq![up, down, p1, p2]);
        }
        let dealer = Hand::from_two(up, down);
        let hand = Hand::from_two(p1, p2);
        proof {
            lemma_two_cards_live(hand@);
        }
        let mut hands: Vec<Hand> = Vec::new();
        hands.push(hand);
        let mut bets: Vec<u32> = Vec::new();
        bets.push(1);
        assert(bets@ =~= seq![1u32]);
        let result = SimulationResult {
            shoes_played: 0,
            hands_started: 1,
            bet_units_placed: 0,
            decisions_made: 0,
            insurances_offered: if up == A { 1 } else { 0 },
            insurances_taken: 0,
            insurances_won: 0,
            roi_scaled: 0,
            roi_scale: 2 * rules.blackjack_payout_denominator as u64,
        };
        Ok(HandSimulation { rules: *rules, dealer, hands, bets, hand_idx: 0, can_act_again_at_all: true, result })
    }

    /// Whether insurance is offered: the dealer shows an ace.
    pub fn offers_insurance(&self) -> (b: bool)
        requires
            self.wf(),
        ensures
            b == (self.dealer@[0] == A),
    {
        self.dealer.card(0) == A
    }

    /// Settles an insurance bet of half a unit against the down card: a ten pays one unit, any
    /// other card loses half a unit.
    pub fn resolve_insurance(&mut self, take: bool)
        requires
            old(self).wf(),
            -10_000_000_000_000_000 <= old(self).result.roi_scaled <= 10_000_000_000_000_000,
        ensures
            final(self).wf(),
            final(self).rules == old(self).rules,
            final(self).dealer == old(self).dealer,
            final(self).hands == old(self).hands,
            final(self).bets == old(self).bets,
            final(self).hand_idx == old(self).hand_idx,
            final(self).can_act_again_at_all == old(self).can_act_again_at_all,
            !take ==> final(self).result == old(self).result,
            take ==> final(self).result == (SimulationResult {
                insurances_taken: if old(self).result.insurances_taken < u64::MAX { (old(self).result.insurances_taken + 1) as u64 } else { old(self).result.insurances_taken },
                insurances_won: if old(self).dealer@[1] == T && old(self).result.insurances_won < u64::MAX { (old(self).result.insurances_won + 1) as u64 } else { old(self).result.insurances_won },
                roi_scaled: if old(self).dealer@[1] == T {
                    (old(self).result.roi_scaled + old(self).result.roi_scale) as i64
                } else {
                    (old(self).result.roi_scaled - old(self).result.roi_scale / 2) as i64
                },
                ..old(self).result
            }),
    {
        if take {
            self.result.insurances_taken = bump(self.result.insurances_taken);
            if self.dealer.card(1) == T {
                self.result.insurances_won = bump(self.result.insurances_won);
                self.result.roi_scaled = self.result.roi_scaled + self.result.roi_scale as i64;
            } else {
                self.result.roi_scaled = self.result.roi_scaled - (self.result.roi_scale / 2) as i64;
            }
        }
    }
}

impl HandSimulation {
    /// Settles dealt naturals: both 21 is a push, a dealer 21 loses the bet, a player 21 wins
    /// the blackjack payout. Returns whether the hand ended there.
    pub fn settle_naturals(&mut self) -> (ended: bool)
        requires
            old(self).wf(),
            -10_000_000_000_000_000 <= old(self).result.roi_scaled <= 10_000_000_000_000_000,
            old(self).result.bet_units_placed == 0,
        ensures
            final(self).wf(),
            final(self).rules == old(self).rules,
            final(self).dealer == old(self).dealer,
            final(self).hands == old(self).hands,
            final(self).bets == old(self).bets,
            final(self).hand_idx == old(self).hand_idx,
            final(self).can_act_again_at_all == old(self).can_act_again_at_all,
            ended == (hand_total(old(self).dealer@) == 21 || hand_total(old(self).hands@[0]@) == 21),
            !ended ==> final(self).result == old(self).result,
            ended ==> final(self).result == (SimulationResult {
                bet_units_placed: 1,
                roi_scaled: if hand_total(old(self).dealer@) == 21 && hand_total(old(self).hands@[0]@) == 21 {
                    old(self).result.roi_scaled
                } else if hand_total(old(self).dealer@) == 21 {
                    (old(self).result.roi_scaled - old(self).result.roi_scale) as i64
                } else {
                    (old(self).result.roi_scaled + 2 * old(self).rules.blackjack_payout_numerator) as i64
                },
                ..old(self).result
            }),
    {
        let dealer_total = self.dealer.total();
        let player_total = self.hands[0].total();
        if dealer_total == 21 && player_total == 21 {
            self.result.bet_units_placed = 1;
            true
        } else if dealer_total == 21 {
            self.result.roi_scaled = self.result.roi_scaled - self.result.roi_scale as i64;
            self.result.bet_units_placed = 1;
            true
        } else if player_total == 21 {
            self.result.roi_scaled = self.result.roi_scaled + 2 * self.rules.blackjack_payout_numerator as i64;
            self.result.bet_units_placed = 1;
            true
        } else {
            false
        }
    }

    /// Whether a hand waits for a decision.
    pub fn pending(&self) -> (b: bool)
        ensures
            b == self.spec_pending(),
    {
        self.hand_idx < self.hands.len() && self.can_act_again_at_all
    }

    /// What the player knows when deciding on the current hand. The deck it reports still holds
    /// the dealer's down card.
    pub fn context(&self, deck: &Deck) -> (c: DecisionContext)
        requires
            self.wf(),
            self.spec_pending(),
            deck.total() < u32::MAX,
        ensures
            c.hand@ == self.current(),
            c.num_hands == self.hands@.len(),
            c.allowed == mask_for(self.rules, self.current(), self.hands@.len() as u32),
            c.splits_allowed == (if c.allowed.split {
                split_limit(self.rules, if hand_is_pair(self.current()) { Some(self.current()[0]) } else { None }) - self.hands@.len()
            } else {
                0
            }),
            c.dealer_up == self.dealer@[0],
            c.deck_plus_down@ == crate::deck::counts_added(deck@, self.dealer@[1]),
    {
        let hand = self.hands[self.hand_idx].copy();
        let num_hands = self.hands.len() as u32;
        assert(self.hands@[self.hand_idx as int].wf());
        let (allowed, splits_allowed) = allowed_actions(&self.rules, &self.hands[self.hand_idx], num_hands);
        let down = self.dealer.card(1);
        assert(valid_rank(self.dealer@[1]));
        proof {
            lemma_count_le_total(*deck, down);
        }
        let deck_plus_down = deck.added(down);
        DecisionContext { hand, num_hands, allowed, splits_allowed, dealer_up: self.dealer.card(0), deck_plus_down }
    }
}

/// The hands other than the one at `idx` are the same.
pub open spec fn others_same(a: Seq<Hand>, b: Seq<Hand>, idx: int) -> bool {
    forall|j: int| 0 <= j < a.len() && j != idx ==> #[trigger] b[j] == a[j]
}

impl HandSimulation {
    /// Plays an allowed action on the current hand. A stand ends the hand; a hit draws a card;
    /// a double doubles the bet and draws one card, ending the hand; a split moves the second
    /// card to a new hand at the end with the same bet and draws a new second card for each,
    /// and split aces that may not be hit end all play. A busted hand ends; play moves on to
    /// the next hand when one ends.
    pub fn apply(&mut self, action: Action, deck: &mut Deck) -> (r: Result<(), SimulationError>)
        requires
            old(self).wf(),
            old(self).spec_pending(),
            mask_for(old(self).rules, old(self).current(), old(self).hands@.len() as u32).allows(action),
            old(deck).fits(),
        ensures
            final(deck).fits(),
            old(deck).total() >= 3 ==> r is Ok,
            r is Err ==> final(deck).total() == 0,
            forall|k: Rank| valid_rank(k) ==> final(deck).count(k) <= old(deck).count(k),
            r is Ok ==> match action {
                Action::Stand => final(deck)@ == old(deck)@,
                Action::Hit => final(deck)@ == counts_removed(old(deck)@, final(self).hands@[old(self).hand_idx as int]@.last()),
                Action::Double => final(deck)@ == counts_removed(old(deck)@, final(self).hands@[old(self).hand_idx as int]@.last()),
                Action::Split => if !old(self).rules.hit_split_aces && old(self).current()[1] == A {
                    // The card first dealt to the new hand is replaced and leaves play.
                    exists|burned: Rank| valid_rank(burned) && #[trigger] removed_three(old(deck)@, burned, final(self).hands@[old(self).hand_idx as int]@[1], final(self).hands@.last()@[1]) == final(deck)@
                } else {
                    final(deck)@ == removed_all(old(deck)@, seq![final(self).hands@.last()@[1], final(self).hands@[old(self).hand_idx as int]@[1]])
                },
            },
            r is Ok ==> {
                &&& final(self).wf()
                &&& final(self).rules == old(self).rules
                &&& final(self).dealer == old(self).dealer
                &&& final(self).result == (SimulationResult {
                    decisions_made: if old(self).result.decisions_made < u64::MAX { (old(self).result.decisions_made + 1) as u64 } else { old(self).result.decisions_made },
                    ..old(self).result
                })
            },
            r is Ok ==> match action {
                Action::Stand => {
                    &&& final(self).hands == old(self).hands
                    &&& final(self).bets == old(self).bets
                    &&& final(self).hand_idx == old(self).hand_idx + 1
                    &&& final(self).can_act_again_at_all == old(self).can_act_again_at_all
                },
                Action::Hit => {
                    &&& final(self).hands@.len() == old(self).hands@.len()
                    &&& others_same(old(self).hands@, final(self).hands@, old(self).hand_idx as int)
                    &&& final(self).hands@[old(self).hand_idx as int]@.drop_last() == old(self).current()
                    &&& final(self).hands@[old(self).hand_idx as int]@.len() == old(self).current().len() + 1
                    &&& final(self).bets == old(self).bets
                    &&& final(self).hand_idx == (if hand_total(final(self).hands@[old(self).hand_idx as int]@) > 21 {
                        old(self).hand_idx + 1
                    } else {
                        old(self).hand_idx as int
                    })
                    &&& final(self).can_act_again_at_all == old(self).can_act_again_at_all
                },
                Action::Double => {
                    &&& final(self).hands@.len() == old(self).hands@.len()
                    &&& others_same(old(self).hands@, final(self).hands@, old(self).hand_idx as int)
                    &&& final(self).hands@[old(self).hand_idx as int]@.drop_last() == old(self).current()
                    &&& final(self).hands@[old(self).hand_idx as int]@.len() == old(self).current().len() + 1
                    &&& final(self).bets@ == old(self).bets@.update(old(self).hand_idx as int, 2)
                    &&& final(self).hand_idx == old(self).hand_idx + 1
                    &&& final(self).can_act_again_at_all == old(self).can_act_again_at_all
                },
                Action::Split => {
                    &&& final(self).hands@.len() == old(self).hands@.len() + 1
                    &&& others_same(old(self).hands@, final(self).hands@.drop_last(), old(self).hand_idx as int)
                    &&& final(self).hands@[old(self).hand_idx as int]@.len() == 2
                    &&& final(self).hands@[old(self).hand_idx as int]@[0] == old(self).current()[0]
                    &&& final(self).hands@.last()@.len() == 2
                    &&& final(self).hands@.last()@[0] == old(self).current()[1]
                    &&& final(self).bets@ == old(self).bets@.push(old(self).bets@[old(self).hand_idx as int])
                    &&& final(self).hand_idx == old(self).hand_idx
                    &&& final(self).can_act_again_at_all == !(!old(self).rules.hit_split_aces && old(self).current()[1] == A)
                },
            },
    {
        let idx = self.hand_idx;
        let ghost old_hands = self.hands@;
        let ghost mut burned: Rank = 0;
        assert(self.hands@[idx as int].wf());
        proof {
            lemma_live_len(self.hands@[idx as int]@);
        }
        match action {
            Action::Stand => {
                self.hand_idx = idx + 1;
            },
            Action::Hit => {
                let c = draw_card(deck)?;
                let mut h = self.hands[idx].copy();
                h.push(c);
                assert(h@.drop_last() =~= old_hands[idx as int]@);
                assert(valid_cards(h@));
                self.hands.set(idx, h);
                if self.hands[idx].total() > 21 {
                    self.hand_idx = idx + 1;
                }
            },
            Action::Double => {
                self.bets.set(idx, 2);
                let c = draw_card(deck)?;
                let mut h = self.hands[idx].copy();
                h.push(c);
                assert(h@.drop_last() =~= old_hands[idx as int]@);
                assert(valid_cards(h@));
                self.hands.set(idx, h);
                self.hand_idx = idx + 1;
            },
            Action::Split => {
                let split_rank = self.hands[idx].card(1);
                let c1 = draw_card(deck)?;
                let new_hand = Hand::from_two(split_rank, c1);
                proof {
                    lemma_two_cards_live(new_hand@);
                }
                self.hands.push(new_hand);
                let bet = self.bets[idx];
                self.bets.push(bet);
                let c2 = draw_card(deck)?;
                proof {
                    let s0 = Seq::<Rank>::empty();
                    lemma_removed_all_push(old(deck)@, s0, c1);
                    lemma_removed_all_push(old(deck)@, s0.push(c1), c2);
                    assert(s0.push(c1).push(c2) =~= seq![c1, c2]);
                }
                let mut h = self.hands[idx].copy();
                h.set_card(1, c2);
                assert(valid_cards(h@));
                proof {
                    lemma_two_cards_live(h@);
                }
                self.hands.set(idx, h);
                if !self.rules.hit_split_aces && split_rank == A {
                    let c3 = draw_card(deck)?;
                    proof {
                        lemma_removed_all_push(old(deck)@, seq![c1, c2], c3);
                        assert(seq![c1, c2].push(c3) =~= seq![c1, c2, c3]);
                    }
                    let last = self.hands.len() - 1;
                    let mut h2 = self.hands[last].copy();
                    h2.set_card(1, c3);
                    assert(valid_cards(h2@));
                    self.hands.set(last, h2);
                    self.can_act_again_at_all = false;
                    assert(self.hands@[idx as int]@[1] == c2);
                    assert(self.hands@.last()@[1] == c3);
                    assert(valid_rank(c1) && removed_three(old(deck)@, c1, self.hands@[idx as int]@[1], self.hands@.last()@[1]) == deck@);
                    proof {
                        burned = c1;
                    }
                } else {
                    assert(self.hands@[idx as int]@[1] == c2);
                    assert(self.hands@.last()@[1] == c1);
                }
                assert(self.hands@.drop_last().len() == old_hands.len());
            },
        }
        proof {
            let k = self.hand_idx as int;
            if k < self.hands@.len() && k != idx as int {
                assert(self.hands@[k].wf());
                assert(self.hands@[k]@.len() == 2);
                lemma_two_cards_live(self.hands@[k]@);
            }
        }
        self.result.decisions_made = bump(self.result.decisions_made);
        proof {
            if action == Action::Split && !old(self).rules.hit_split_aces && old(self).current()[1] == A {
                assert(valid_rank(burned) && removed_three(old(deck)@, burned, self.hands@[idx as int]@[1], self.hands@.last()@[1]) == deck@);
            }
        }
        Ok(())
    }
}

fn dealer_finished(rules: &BlackjackRules, dealer: &Hand) -> (b: bool)
    requires
        dealer.wf(),
    ensures
        b == dealer_done(*rules, hand_total(dealer@), hand_is_soft(dealer@)),
{
    let total = dealer.total();
    total >= 18 || (total >= 17 && (!rules.hit_soft_17 || !dealer.is_soft()))
}

proof fn lemma_settle_all_bounds(hands: Seq<Hand>, bets: Seq<u32>, dealer: Seq<Rank>, n: int)
    requires
        0 <= n <= bets.len(),
        forall|i: int| 0 <= i < bets.len() ==> 1 <= #[trigger] bets[i] <= 2,
    ensures
        -2 * n <= settle_all(hands, bets, dealer, n) <= 2 * n,
        0 <= bets_sum(bets, n) <= 2 * n,
    decreases n,
{
    if n > 0 {
        lemma_settle_all_bounds(hands, bets, dealer, n - 1);
        assert(1 <= bets[n - 1] <= 2);
    }
}

impl HandSimulation {
    /// Plays the dealer's hand and settles every hand. When some player hand is not busted the
    /// dealer draws until standing on 18 or more, or on 17 unless it is soft and the dealer hits
    /// soft 17; otherwise the dealer draws nothing. Each hand then wins its bet when its score
    /// beats the dealer's, loses it when lower, and pushes on a tie (a busted player scores 0, a
    /// busted dealer 1).
    pub fn finish(&mut self, deck: &mut Deck) -> (r: Result<(), SimulationError>)
        requires
            old(self).wf(),
            old(deck).fits(),
        ensures
            final(deck).fits(),
            old(deck).total() >= 15 ==> r is Ok,
            r is Err ==> final(deck).total() == 0,
            forall|k: Rank| valid_rank(k) ==> final(deck).count(k) <= old(deck).count(k),
            r is Ok ==> final(deck)@ == removed_all(old(deck)@, final(self).dealer@.subrange(old(self).dealer@.len() as int, final(self).dealer@.len() as int)),
            r is Ok ==> {
                &&& final(self).rules == old(self).rules
                &&& final(self).hands == old(self).hands
                &&& final(self).bets == old(self).bets
                &&& final(self).dealer@.subrange(0, old(self).dealer@.len() as int) == old(self).dealer@
                &&& any_live(old(self).hands@) ==> dealer_done(old(self).rules, hand_total(final(self).dealer@), hand_is_soft(final(self).dealer@))
                &&& !any_live(old(self).hands@) ==> final(self).dealer == old(self).dealer
                &&& final(self).result == (SimulationResult {
                    bet_units_placed: (old(self).result.bet_units_placed + bets_sum(old(self).bets@, old(self).bets@.len() as int)) as u64,
                    roi_scaled: (old(self).result.roi_scaled + old(self).result.roi_scale * settle_all(old(self).hands@, old(self).bets@, final(self).dealer@, old(self).hands@.len() as int)) as i64,
                    ..old(self).result
                })
            },
    {
        let mut any = false;
        let mut i: usize = 0;
        while i < self.hands.len()
            invariant
                self.wf(),
                0 <= i <= self.hands@.len(),
                any == exists|j: int| 0 <= j < i && hand_total((#[trigger] self.hands@[j])@) <= 21,
                *self == *old(self),
                *deck == *old(deck),
            decreases self.hands@.len() - i,
        {
            assert(self.hands@[i as int].wf());
            if self.hands[i].total() <= 21 {
                any = true;
            }
            i = i + 1;
        }
        if any {
            let ghost start = self.dealer@;
            proof {
                lemma_hand_sum_bounds(self.dealer@);
                assert(self.dealer@.subrange(0, start.len() as int) =~= start);
                assert(self.dealer@.subrange(start.len() as int, self.dealer@.len() as int) =~= Seq::<Rank>::empty());
            }
            while !dealer_finished(&self.rules, &self.dealer)
                invariant
                    self.dealer.wf(),
                    2 <= self.dealer@.len() <= 32,
                    hand_sum(self.dealer@) <= 27,
                    start.len() <= self.dealer@.len(),
                    self.dealer@.subrange(0, start.len() as int) == start,
                    start.len() >= 2,
                    deck.fits(),
                    start == old(self).dealer@,
                    self.rules == old(self).rules,
                    self.hands == old(self).hands,
                    self.bets == old(self).bets,
                    self.result == old(self).result,
                    start.len() == 2,
                    deck@ == removed_all(old(deck)@, self.dealer@.subrange(start.len() as int, self.dealer@.len() as int)),
                    deck.total() == old(deck).total() - (self.dealer@.len() - start.len()),
                    forall|k: Rank| valid_rank(k) ==> deck.count(k) <= old(deck).count(k),
                decreases 40 - hand_sum(self.dealer@),
            {
                proof {
                    lemma_hand_sum_bounds(self.dealer@);
                    // A dealer that still draws has a hard sum of at most 16, so at most 14
                    // cards were drawn before this one.
                    assert(hand_sum(self.dealer@) <= 16);
                    assert(old(deck).total() >= 15 ==> deck.total() >= 1);
                }
                let c = draw_card(deck)?;
                proof {
                    lemma_hand_sum_push(self.dealer@, c);
                    lemma_removed_all_push(old(deck)@, self.dealer@.subrange(start.len() as int, self.dealer@.len() as int), c);
                }
                let ghost before = self.dealer@;
                self.dealer.push(c);
                assert(self.dealer@.subrange(0, start.len() as int) =~= before.subrange(0, start.len() as int));
                assert(self.dealer@.subrange(start.len() as int, self.dealer@.len() as int) =~= before.subrange(start.len() as int, before.len() as int).push(c));
            }
        }
        assert(any == any_live(self.hands@)) by {
            if any {
                let j = choose|j: int| 0 <= j < self.hands@.len() && hand_total((#[trigger] self.hands@[j])@) <= 21;
            }
        }
        let dealer_total = self.dealer.total();
        let dealer_points: u32 = if dealer_total > 21 { 1 } else { dealer_total };
        let scale = self.result.roi_scale as i64;
        let ghost roi0 = self.result.roi_scaled;
        let ghost units0 = self.result.bet_units_placed;
        let ghost r0 = self.result;
        let mut j: usize = 0;
        while j < self.hands.len()
            invariant
                simulable(self.rules),
                self.result.roi_scale == 2 * self.rules.blackjack_payout_denominator,
                scale == self.result.roi_scale,
                -100_000_000_000_000_000 <= roi0 <= 100_000_000_000_000_000,
                units0 <= 1,
                1 <= self.hands@.len() <= 1_000_000,
                self.hands@.len() == self.bets@.len(),
                forall|i: int| 0 <= i < self.hands@.len() ==> (#[trigger] self.hands@[i]).wf(),
                forall|i: int| 0 <= i < self.bets@.len() ==> 1 <= #[trigger] self.bets@[i] <= 2,
                self.dealer.wf(),
                dealer_points == dealer_score(self.dealer@),
                0 <= j <= self.hands@.len(),
                self.result.roi_scaled == roi0 + scale * settle_all(self.hands@, self.bets@, self.dealer@, j as int),
                self.result.bet_units_placed == units0 + bets_sum(self.bets@, j as int),
                self.result == (SimulationResult { roi_scaled: self.result.roi_scaled, bet_units_placed: self.result.bet_units_placed, ..r0 }),
                r0 == old(self).result,
                roi0 == r0.roi_scaled,
                units0 == r0.bet_units_placed,
                self.rules == old(self).rules,
                self.hands == old(self).hands,
                self.bets == old(self).bets,
                any_live(old(self).hands@) ==> dealer_done(old(self).rules, hand_total(self.dealer@), hand_is_soft(self.dealer@)),
                !any_live(old(self).hands@) ==> self.dealer == old(self).dealer,
                old(self).dealer@.len() <= self.dealer@.len(),
                self.dealer@.subrange(0, old(self).dealer@.len() as int) == old(self).dealer@,
                deck.fits(),
                deck@ == removed_all(old(deck)@, self.dealer@.subrange(old(self).dealer@.len() as int, self.dealer@.len() as int)),
                forall|k: Rank| valid_rank(k) ==> deck.count(k) <= old(deck).count(k),
            decreases self.hands@.len() - j,
        {
            proof {
                lemma_settle_all_bounds(self.hands@, self.bets@, self.dealer@, j as int);
                lemma_settle_all_bounds(self.hands@, self.bets@, self.dealer@, j as int + 1);
                assert(0 <= scale <= 8_589_934_590);
                let a = settle_all(self.hands@, self.bets@, self.dealer@, j as int);
                assert(-2_000_002 <= a <= 2_000_002);
                assert(-17_179_886_360_000_000 <= scale * a <= 17_179_886_360_000_000) by (nonlinear_arith)
                    requires 0 <= scale <= 8_589_934_590, -2_000_002 <= a <= 2_000_002;
            }
            assert(self.hands@[j as int].wf());
            let bet = self.bets[j];
            self.result.bet_units_placed = self.result.bet_units_placed + bet as u64;
            let total = self.hands[j].total();
            let hand_score: u32 = if total > 21 { 0 } else { total };
            assert(0 <= scale * (bet as i64) <= 17_179_869_180) by (nonlinear_arith)
                requires 0 <= scale <= 8_589_934_590, 1 <= bet <= 2;
            let stake = scale * bet as i64;
            if hand_score > dealer_points {
                self.result.roi_scaled = self.result.roi_scaled + stake;
            } else if hand_score < dealer_points {
                self.result.roi_scaled = self.result.roi_scaled - stake;
            }
            proof {
                let a = settle_all(self.hands@, self.bets@, self.dealer@, j as int);
                let b = settle(self.hands@[j as int]@, bet as int, self.dealer@);
                assert(scale * (a + b) == scale * a + scale * b) by (nonlinear_arith);
                assert(scale * (-(bet as int)) == -(scale * bet)) by (nonlinear_arith);
                assert(scale * 0 == 0);
            }
            j = j + 1;
        }
        Ok(())
    }
}

} // verus!
