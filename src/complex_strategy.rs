use vstd::prelude::*;

use crate::hand::{hand_is_pair, hand_total, Hand};
use crate::perfect_strategy::hashed_hand::HashedPlayerHand;
use crate::rules::BlackjackRules;
use crate::types::{Action, ActionMask, Rank, A};

verus! {

/// Doubling is allowed: two cards; a single hand in play unless the rules allow doubling after a
/// split; and any total, or a hard total from `double_hard_hands_thru_11` to 11.
pub open spec fn double_allowed(rules: BlackjackRules, is_two: bool, total: nat, num_hands: nat) -> bool {
    &&& is_two
    &&& (rules.double_after_split || num_hands == 1)
    &&& (rules.double_any_hands || (rules.double_hard_hands_thru_11 <= total && total <= 11))
}

/// Number of hands the player may hold when splitting a pair of `pair`: the ace limit for aces,
/// the hand limit otherwise, and one for a hand that is not a pair.
pub open spec fn split_limit(rules: BlackjackRules, pair: Option<Rank>) -> nat {
    match pair {
        Some(r) => if r == A {
            rules.split_aces_limit as nat
        } else {
            rules.split_hands_limit as nat
        },
        None => 1,
    }
}

/// Whether the hand may double with `num_hands` hands in play.
pub fn can_double(rules: &BlackjackRules, player_hand: &HashedPlayerHand, num_hands: u32) -> (b: bool)
    ensures
        b == double_allowed(*rules, player_hand.is_two, player_hand.total as nat, num_hands as nat),
{
    if !player_hand.is_two {
        return false;
    }
    if !rules.double_after_split && num_hands != 1 {
        return false;
    }
    if rules.double_any_hands {
        return true;
    }
    let total = player_hand.total;
    total >= rules.double_hard_hands_thru_11 && total <= 11
}

/// Whether the hand may split with `num_hands` hands in play.
pub fn can_split(rules: &BlackjackRules, player_hand: &HashedPlayerHand, num_hands: u32) -> (b: bool)
    ensures
        b == (num_hands < split_limit(*rules, player_hand.is_pair)),
{
    let max_hands_allowed = match player_hand.is_pair {
        Some(r) => if r == A {
            rules.split_aces_limit
        } else {
            rules.split_hands_limit
        },
        None => 1,
    };
    num_hands < max_hands_allowed
}

/// The actions allowed for a hand with `num_hands` hands in play, and how many more splits the
/// split limit leaves.
pub fn allowed_actions(rules: &BlackjackRules, hand: &Hand, num_hands: u32) -> (res: (ActionMask, u32))
    requires
        hand.wf(),
    ensures
        res.0.stand,
        res.0.hit,
        res.0.double == double_allowed(*rules, hand@.len() == 2, hand_total(hand@), num_hands as nat),
        res.0.split == (num_hands < split_limit(*rules, if hand_is_pair(hand@) { Some(hand@[0]) } else { None })),
        res.1 == (if res.0.split {
            split_limit(*rules, if hand_is_pair(hand@) { Some(hand@[0]) } else { None }) - num_hands
        } else {
            0
        }),
{
    let hashed = HashedPlayerHand::from(hand);
    let double = can_double(rules, &hashed, num_hands);
    let split = can_split(rules, &hashed, num_hands);
    let splits_allowed = if split {
        let limit = match hashed.is_pair {
            Some(r) => if r == A {
                rules.split_aces_limit
            } else {
                rules.split_hands_limit
            },
            None => 1,
        };
        limit - num_hands
    } else {
        0
    };
    (ActionMask { stand: true, hit: true, double, split }, splits_allowed)
}

/// The decisions that need no evaluation: hit a total of 11 or less that can neither split nor
/// double, stand on 21. `None` when the hand needs a full evaluation.
pub fn play_shortcuts(rules: &BlackjackRules, hand: &Hand, num_hands: u32) -> (r: Option<Action>)
    requires
        hand.wf(),
    ensures
        r == (if hand_total(hand@) <= 11
            && !(num_hands < split_limit(*rules, if hand_is_pair(hand@) { Some(hand@[0]) } else { None }))
            && !double_allowed(*rules, hand@.len() == 2, hand_total(hand@), num_hands as nat) {
            Some(Action::Hit)
        } else if hand_total(hand@) == 21 {
            Some(Action::Stand)
        } else {
            None::<Action>
        }),
{
    let hashed = HashedPlayerHand::from(hand);
    if hashed.total <= 11 && !can_split(rules, &hashed, num_hands) && !can_double(rules, &hashed, num_hands) {
        return Some(Action::Hit);
    }
    if hashed.total == 21 {
        return Some(Action::Stand);
    }
    None
}

} // verus!
