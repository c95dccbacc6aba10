use blackjack::hand::canonical_hand::CanonicalHand;
use blackjack::hand::canonical_hand::CanonicalHand::{Blackjack, Busted, Empty, Hard2Card, Hard3PlusCard, Pair, Single, Soft2Card, Soft3PlusCard};
use blackjack::hand::Hand;
use blackjack::types::{A, T};

#[test]
fn test_empty() {
    assert_eq!(Empty + 2, Single(2));
    assert_eq!(Empty + T, Single(T));
    assert_eq!(Empty + A, Single(A));
}

#[test]
fn test_single() {
    assert_eq!(Single(6) + 2, Hard2Card(8));
    assert_eq!(Single(6) + 5, Hard2Card(11));
    assert_eq!(Single(6) + T, Hard2Card(16));
    assert_eq!(Single(6) + A, Soft2Card(17));

    assert_eq!(Single(T) + A, Blackjack);
    assert_eq!(Single(A) + T, Blackjack);

    assert_eq!(Single(3) + 3, Pair(3));
    assert_eq!(Single(T) + T, Pair(T));
    assert_eq!(Single(A) + A, Pair(A));
}

#[test]
fn test_hard() {
    assert_eq!(Hard2Card(5) + 2, Hard3PlusCard(7));
    assert_eq!(Hard2Card(5) + 8, Hard3PlusCard(13));
    assert_eq!(Hard2Card(5) + T, Hard3PlusCard(15));
    assert_eq!(Hard2Card(5) + A, Soft3PlusCard(16));

    assert_eq!(Hard2Card(12) + 2, Hard3PlusCard(14));
    assert_eq!(Hard2Card(12) + 8, Hard3PlusCard(20));
    assert_eq!(Hard2Card(12) + T, Busted);
    assert_eq!(Hard2Card(12) + A, Hard3PlusCard(13));

    assert_eq!(Hard2Card(14) + 8, Busted);
    assert_eq!(Hard2Card(11) + T, Hard3PlusCard(21));
    assert_eq!(Hard2Card(11) + A, Hard3PlusCard(12));

    assert_eq!(Hard3PlusCard(5) + 2, Hard3PlusCard(7));
    assert_eq!(Hard3PlusCard(5) + 8, Hard3PlusCard(13));
    assert_eq!(Hard3PlusCard(5) + T, Hard3PlusCard(15));
    assert_eq!(Hard3PlusCard(5) + A, Soft3PlusCard(16));

    assert_eq!(Hard3PlusCard(12) + 2, Hard3PlusCard(14));
    assert_eq!(Hard3PlusCard(12) + 8, Hard3PlusCard(20));
    assert_eq!(Hard3PlusCard(12) + T, Busted);
    assert_eq!(Hard3PlusCard(12) + A, Hard3PlusCard(13));

    assert_eq!(Hard3PlusCard(14) + 8, Busted);
    assert_eq!(Hard3PlusCard(11) + T, Hard3PlusCard(21));
    assert_eq!(Hard3PlusCard(11) + A, Hard3PlusCard(12));
}

#[test]
fn test_soft() {
    assert_eq!(Soft2Card(15) + 2, Soft3PlusCard(17));
    assert_eq!(Soft2Card(15) + 6, Soft3PlusCard(21));
    assert_eq!(Soft2Card(15) + 8, Hard3PlusCard(13));
    assert_eq!(Soft2Card(15) + T, Hard3PlusCard(15));
    assert_eq!(Soft2Card(15) + A, Soft3PlusCard(16));

    assert_eq!(Soft2Card(12) + A, Soft3PlusCard(13));
    assert_eq!(Soft2Card(12) + T, Hard3PlusCard(12));

    assert_eq!(Soft2Card(20) + 6, Hard3PlusCard(16));
    assert_eq!(Soft2Card(20) + A, Soft3PlusCard(21));
    assert_eq!(Soft2Card(20) + T, Hard3PlusCard(20));

    assert_eq!(Soft3PlusCard(15) + 2, Soft3PlusCard(17));
    assert_eq!(Soft3PlusCard(15) + 6, Soft3PlusCard(21));
    assert_eq!(Soft3PlusCard(15) + 8, Hard3PlusCard(13));
    assert_eq!(Soft3PlusCard(15) + T, Hard3PlusCard(15));
    assert_eq!(Soft3PlusCard(15) + A, Soft3PlusCard(16));

    assert_eq!(Soft3PlusCard(12) + A, Soft3PlusCard(13));
    assert_eq!(Soft3PlusCard(12) + T, Hard3PlusCard(12));

    assert_eq!(Soft3PlusCard(20) + 6, Hard3PlusCard(16));
    assert_eq!(Soft3PlusCard(20) + A, Soft3PlusCard(21));
    assert_eq!(Soft3PlusCard(20) + T, Hard3PlusCard(20));

    assert_eq!(Soft3PlusCard(21) + 6, Hard3PlusCard(17));
    assert_eq!(Soft3PlusCard(21) + A, Hard3PlusCard(12));
    assert_eq!(Soft3PlusCard(21) + T, Hard3PlusCard(21));
}

#[test]
fn test_pair() {
    assert_eq!(Pair(8) + 2, Hard3PlusCard(18));
    assert_eq!(Pair(8) + 6, Busted);
    assert_eq!(Pair(8) + T, Busted);
    assert_eq!(Pair(8) + A, Hard3PlusCard(17));

    assert_eq!(Pair(5) + 2, Hard3PlusCard(12));
    assert_eq!(Pair(5) + 6, Hard3PlusCard(16));
    assert_eq!(Pair(5) + T, Hard3PlusCard(20));
    assert_eq!(Pair(5) + A, Soft3PlusCard(21));

    assert_eq!(Pair(T) + 2, Busted);
    assert_eq!(Pair(T) + 6, Busted);
    assert_eq!(Pair(T) + T, Busted);
    assert_eq!(Pair(T) + A, Hard3PlusCard(21));

    assert_eq!(Pair(A) + 2, Soft3PlusCard(14));
    assert_eq!(Pair(A) + 6, Soft3PlusCard(18));
    assert_eq!(Pair(A) + T, Hard3PlusCard(12));
    assert_eq!(Pair(A) + A, Soft3PlusCard(13));
}

#[test]
fn canonical_blackjack_plus_card() {
    assert_eq!(Blackjack + 5, Hard3PlusCard(16));
    assert_eq!(Busted + 5, Busted);
}

#[test]
fn canonical_from_cards_ignores_order() {
    let orders: Vec<Vec<u32>> = vec![vec![A, T, 5], vec![5, A, T], vec![T, 5, A]];
    for cards in orders {
        assert_eq!(CanonicalHand::from_cards(&Hand { cards }), Hard3PlusCard(16));
    }
    let a = CanonicalHand::from_cards(&Hand { cards: vec![A, 2, 3] });
    let b = CanonicalHand::from_cards(&Hand { cards: vec![3, A, 2] });
    assert_eq!(a, Soft3PlusCard(16));
    assert_eq!(a, b);
    assert_eq!(CanonicalHand::from_cards(&Hand { cards: vec![] }), Empty);
    assert_eq!(CanonicalHand::from_cards(&Hand { cards: vec![7, 7] }), Pair(7));
}

#[test]
fn canonical_totals() {
    assert_eq!(Empty.total(), 0);
    assert_eq!(Single(T).total(), 10);
    assert_eq!(Single(A).total(), 1);
    assert_eq!(Pair(T).total(), 20);
    assert_eq!(Pair(8).total(), 16);
    assert_eq!(Soft2Card(17).total(), 17);
    assert_eq!(Blackjack.total(), 21);
}
