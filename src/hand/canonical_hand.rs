use vstd::prelude::*;
use vstd::multiset::Multiset;

use crate::hand::{hand_sum, valid_cards, lemma_hand_sum_push, lemma_hand_sum_bounds, Hand};
use crate::types::{additive_value, rank_value, valid_rank, Rank, A, T};

verus! {

/// A summary of a player's cards that keeps everything the strategy depends on: two hands with
/// equal summaries play the same way in the same situation.
#[derive(PartialEq, Eq, Structural, Clone, Copy, Debug, Hash)]
pub enum CanonicalHand {
    /// No cards.
    Empty,
    /// One card of the given rank.
    Single(Rank),
    /// Two cards that are neither a pair nor blackjack, with no ace counted as eleven.
    Hard2Card(u32),
    /// Three or more cards with no ace counted as eleven.
    Hard3PlusCard(u32),
    /// Two cards, one an ace counted as eleven; neither a pair of aces nor blackjack (13 to 20).
    Soft2Card(u32),
    /// Three or more cards, one an ace counted as eleven (13 to 21).
    Soft3PlusCard(u32),
    /// Two cards of the given rank.
    Pair(Rank),
    /// An ace and a ten.
    Blackjack,
    /// More than 21 points.
    Busted,
}

/// A hard hand of sum `prev` takes a card of rank `r`.
pub open spec fn hard_plus(prev: u32, r: Rank) -> CanonicalHand {
    let new_total = prev + rank_value(r);
    if r == A && prev < 11 {
        CanonicalHand::Soft3PlusCard((new_total + 10) as u32)
    } else if new_total <= 21 {
        CanonicalHand::Hard3PlusCard(new_total as u32)
    } else {
        CanonicalHand::Busted
    }
}

/// A soft hand of total `prev` takes a card of rank `r`.
pub open spec fn soft_plus(prev: u32, r: Rank) -> CanonicalHand {
    let new_total = prev + rank_value(r);
    if new_total <= 21 {
        CanonicalHand::Soft3PlusCard(new_total as u32)
    } else {
        CanonicalHand::Hard3PlusCard((new_total - 10) as u32)
    }
}

/// The summary of the two cards `a` then `b`.
pub open spec fn two_cards(a: Rank, b: Rank) -> CanonicalHand {
    if (a == A && b == T) || (a == T && b == A) {
        CanonicalHand::Blackjack
    } else if a == b {
        CanonicalHand::Pair(a)
    } else if a == A {
        CanonicalHand::Soft2Card((11 + b) as u32)
    } else if b == A {
        CanonicalHand::Soft2Card((11 + a) as u32)
    } else {
        CanonicalHand::Hard2Card((rank_value(a) + rank_value(b)) as u32)
    }
}

/// The summary after taking one more card of rank `r`.
pub open spec fn canonical_add(c: CanonicalHand, r: Rank) -> CanonicalHand {
    match c {
        CanonicalHand::Empty => CanonicalHand::Single(r),
        CanonicalHand::Single(l) => two_cards(l, r),
        CanonicalHand::Hard2Card(prev) => hard_plus(prev, r),
        CanonicalHand::Hard3PlusCard(prev) => hard_plus(prev, r),
        CanonicalHand::Soft2Card(prev) => soft_plus(prev, r),
        CanonicalHand::Soft3PlusCard(prev) => soft_plus(prev, r),
        CanonicalHand::Pair(p) => if p == A && r == T {
            CanonicalHand::Hard3PlusCard(12)
        } else if p == A {
            soft_plus(12, r)
        } else {
            hard_plus((2 * rank_value(p)) as u32, r)
        },
        CanonicalHand::Blackjack => soft_plus(21, r),
        CanonicalHand::Busted => CanonicalHand::Busted,
    }
}

/// The summary of a sequence of cards: the empty summary with each card added in turn.
pub open spec fn canonical_of(s: Seq<Rank>) -> CanonicalHand
    decreases s.len(),
{
    if s.len() == 0 {
        CanonicalHand::Empty
    } else {
        canonical_add(canonical_of(s.drop_last()), s.last())
    }
}

/// The summary of a hand of three or more cards, from its hard sum and whether it holds an ace.
pub open spec fn three_plus_of(sum: nat, has_ace: bool) -> CanonicalHand {
    if sum > 21 {
        CanonicalHand::Busted
    } else if has_ace && sum <= 11 {
        CanonicalHand::Soft3PlusCard((sum + 10) as u32)
    } else {
        CanonicalHand::Hard3PlusCard(sum as u32)
    }
}

impl CanonicalHand {
    /// The payload of each variant lies in the range it can take.
    pub open spec fn wf(self) -> bool {
        match self {
            CanonicalHand::Empty => true,
            CanonicalHand::Single(r) => valid_rank(r),
            CanonicalHand::Hard2Card(n) => 4 <= n <= 21,
            CanonicalHand::Hard3PlusCard(n) => 4 <= n <= 21,
            CanonicalHand::Soft2Card(n) => 12 <= n <= 21,
            CanonicalHand::Soft3PlusCard(n) => 12 <= n <= 21,
            CanonicalHand::Pair(r) => valid_rank(r),
            CanonicalHand::Blackjack => true,
            CanonicalHand::Busted => true,
        }
    }

    /// The total of a summary that is not busted: the value of a single card, twice the value of
    /// a paired card, 21 for blackjack, the held total otherwise.
    pub open spec fn spec_total(self) -> nat {
        match self {
            CanonicalHand::Empty => 0,
            CanonicalHand::Single(r) => rank_value(r),
            CanonicalHand::Hard2Card(n) => n as nat,
            CanonicalHand::Hard3PlusCard(n) => n as nat,
            CanonicalHand::Soft2Card(n) => n as nat,
            CanonicalHand::Soft3PlusCard(n) => n as nat,
            CanonicalHand::Pair(r) => 2 * rank_value(r),
            CanonicalHand::Blackjack => 21,
            CanonicalHand::Busted => 0,
        }
    }

    /// The summary after taking one more card.
    pub fn plus(self, r: Rank) -> (c: CanonicalHand)
        requires
            self.wf(),
            valid_rank(r),
        ensures
            c == canonical_add(self, r),
            c.wf(),
    {
        match self {
            CanonicalHand::Empty => CanonicalHand::Single(r),
            CanonicalHand::Single(l) => {
                if (l == A && r == T) || (l == T && r == A) {
                    CanonicalHand::Blackjack
                } else if l == r {
                    CanonicalHand::Pair(l)
                } else if l == A {
                    CanonicalHand::Soft2Card(11 + r)
                } else if r == A {
                    CanonicalHand::Soft2Card(11 + l)
                } else {
                    CanonicalHand::Hard2Card(additive_value(l) + additive_value(r))
                }
            },
            CanonicalHand::Hard2Card(prev) => add_to_hard(prev, r),
            CanonicalHand::Hard3PlusCard(prev) => add_to_hard(prev, r),
            CanonicalHand::Soft2Card(prev) => add_to_soft(prev, r),
            CanonicalHand::Soft3PlusCard(prev) => add_to_soft(prev, r),
            CanonicalHand::Pair(p) => {
                if p == A && r == T {
                    // A pair of aces and a ten is a hard 12.
                    CanonicalHand::Hard3PlusCard(12)
                } else if p == A {
                    add_to_soft(12, r)
                } else {
                    add_to_hard(additive_value(p) * 2, r)
                }
            },
            CanonicalHand::Blackjack => add_to_soft(21, r),
            CanonicalHand::Busted => CanonicalHand::Busted,
        }
    }

    /// The summary of a hand of cards: the empty summary with each card added in order.
    pub fn from_cards(hand: &Hand) -> (c: CanonicalHand)
        requires
            valid_cards(hand@),
        ensures
            c == canonical_of(hand@),
            c.wf(),
    {
        let mut c = CanonicalHand::Empty;
        let mut i: usize = 0;
        while i < hand.cards.len()
            invariant
                valid_cards(hand@),
                0 <= i <= hand@.len(),
                c == canonical_of(hand@.subrange(0, i as int)),
                c.wf(),
            decreases hand@.len() - i,
        {
            assert(hand@.subrange(0, i as int + 1).drop_last() =~= hand@.subrange(0, i as int));
            c = c.plus(hand.cards[i]);
            i = i + 1;
        }
        assert(hand@.subrange(0, hand@.len() as int) =~= hand@);
        c
    }

    /// The total of a summary that is not busted.
    pub fn total(&self) -> (t: u32)
        requires
            self.wf(),
            *self != CanonicalHand::Busted,
        ensures
            t == self.spec_total(),
    {
        match self {
            CanonicalHand::Empty => 0,
            CanonicalHand::Single(r) => additive_value(*r),
            CanonicalHand::Hard2Card(n) => *n,
            CanonicalHand::Hard3PlusCard(n) => *n,
            CanonicalHand::Soft2Card(n) => *n,
            CanonicalHand::Soft3PlusCard(n) => *n,
            CanonicalHand::Pair(r) => 2 * additive_value(*r),
            CanonicalHand::Blackjack => 21,
            CanonicalHand::Busted => 0,
        }
    }
}

fn add_to_hard(prev: u32, r: Rank) -> (c: CanonicalHand)
    requires
        4 <= prev <= 21,
        valid_rank(r),
    ensures
        c == hard_plus(prev, r),
        c.wf(),
{
    let new_total = prev + additive_value(r);
    if r == A && prev < 11 {
        CanonicalHand::Soft3PlusCard(new_total + 10)
    } else if new_total <= 21 {
        CanonicalHand::Hard3PlusCard(new_total)
    } else {
        CanonicalHand::Busted
    }
}

fn add_to_soft(prev: u32, r: Rank) -> (c: CanonicalHand)
    requires
        12 <= prev <= 21,
        valid_rank(r),
    ensures
        c == soft_plus(prev, r),
        c.wf(),
{
    let new_total = prev + additive_value(r);
    if new_total <= 21 {
        CanonicalHand::Soft3PlusCard(new_total)
    } else {
        CanonicalHand::Hard3PlusCard(new_total - 10)
    }
}

impl core::ops::Add<Rank> for CanonicalHand {
    type Output = CanonicalHand;

    fn add(self, rhs: Rank) -> CanonicalHand {
        self.plus(rhs)
    }
}

impl vstd::std_specs::ops::AddSpecImpl<Rank> for CanonicalHand {
    open spec fn obeys_add_spec() -> bool {
        true
    }

    open spec fn add_req(self, rhs: Rank) -> bool {
        self.wf() && valid_rank(rhs)
    }

    open spec fn add_spec(self, rhs: Rank) -> CanonicalHand {
        canonical_add(self, rhs)
    }
}


proof fn lemma_contains_push(s: Seq<Rank>, r: Rank)
    ensures
        s.push(r).contains(A) == (s.contains(A) || r == A),
{
    if s.contains(A) {
        let j = choose|j: int| 0 <= j < s.len() && s[j] == A;
        assert(s.push(r)[j] == A);
    }
    if r == A {
        assert(s.push(r)[s.len() as int] == A);
    }
    if s.push(r).contains(A) {
        let j = choose|j: int| 0 <= j < s.push(r).len() && s.push(r)[j] == A;
        if j < s.len() {
            assert(s[j] == A);
        }
    }
}

/// The summary of a sequence of cards in closed form: by its cards up to two cards, and by its
/// hard sum and whether it holds an ace from three cards on.
pub proof fn lemma_canonical_closed_form(s: Seq<Rank>)
    requires
        valid_cards(s),
    ensures
        s.len() == 0 ==> canonical_of(s) == CanonicalHand::Empty,
        s.len() == 1 ==> canonical_of(s) == CanonicalHand::Single(s[0]),
        s.len() == 2 ==> canonical_of(s) == two_cards(s[0], s[1]),
        s.len() >= 3 ==> canonical_of(s) == three_plus_of(hand_sum(s), s.contains(A)),
    decreases s.len(),
{
    if s.len() == 0 {
    } else {
        let p = s.drop_last();
        let c = s.last();
        assert(valid_cards(p));
        assert(valid_rank(s[s.len() - 1]));
        lemma_canonical_closed_form(p);
        assert(p.push(c) =~= s);
        lemma_hand_sum_push(p, c);
        lemma_contains_push(p, c);
        lemma_hand_sum_bounds(p);
        if s.len() == 1 {
            assert(p.len() == 0);
        } else if s.len() == 2 {
            assert(p =~= seq![s[0]]);
        } else if s.len() == 3 {
            let a = s[0];
            let b = s[1];
            assert(p =~= seq![a, b]);
            assert(p =~= seq![a].push(b));
            assert(seq![a] =~= Seq::<Rank>::empty().push(a));
            lemma_hand_sum_push(seq![a], b);
            lemma_hand_sum_push(Seq::<Rank>::empty(), a);
            lemma_contains_push(seq![a], b);
            lemma_contains_push(Seq::<Rank>::empty(), a);
            assert(hand_sum(p) == rank_value(a) + rank_value(b));
            assert(p.contains(A) == (a == A || b == A));
        }
    }
}

/// Sum of the values of the valid ranks in a multiset, over the ranks below `k`.
pub open spec fn count_sum(m: Multiset<Rank>, k: nat) -> nat
    decreases k,
{
    if k == 0 {
        0
    } else {
        count_sum(m, (k - 1) as nat) + m.count((k - 1) as Rank) * rank_value((k - 1) as Rank)
    }
}

proof fn lemma_count_sum_insert(m: Multiset<Rank>, x: Rank, k: nat)
    requires
        k <= 10,
    ensures
        count_sum(m.insert(x), k) == count_sum(m, k) + (if x < k {
            rank_value(x)
        } else {
            0
        }),
    decreases k,
{
    if k > 0 {
        lemma_count_sum_insert(m, x, (k - 1) as nat);
        let y = (k - 1) as Rank;
        let c = m.count(y);
        let v = rank_value(y);
        if x == y {
            assert(m.insert(x).count(y) == c + 1);
            assert((c + 1) * v == c * v + v) by (nonlinear_arith);
        } else {
            assert(m.insert(x).count(y) == c);
        }
    }
}

proof fn lemma_hand_sum_counts(s: Seq<Rank>)
    requires
        valid_cards(s),
    ensures
        hand_sum(s) == count_sum(s.to_multiset(), 10),
    decreases s.len(),
{
    broadcast use vstd::seq_lib::group_to_multiset_ensures;

    if s.len() == 0 {
        assert(s.to_multiset() =~= Multiset::<Rank>::empty());
        lemma_count_sum_empty(10);
    } else {
        let p = s.drop_last();
        assert(valid_cards(p));
        assert(valid_rank(s[s.len() - 1]));
        lemma_hand_sum_counts(p);
        assert(p.push(s.last()) =~= s);
        lemma_hand_sum_push(p, s.last());
        lemma_count_sum_insert(p.to_multiset(), s.last(), 10);
    }
}

proof fn lemma_count_sum_empty(k: nat)
    ensures
        count_sum(Multiset::<Rank>::empty(), k) == 0,
    decreases k,
{
    if k > 0 {
        lemma_count_sum_empty((k - 1) as nat);
    }
}

/// The order of the cards does not matter: two sequences of cards that are permutations of one
/// another have the same summary.
pub proof fn lemma_canonical_permutation(s1: Seq<Rank>, s2: Seq<Rank>)
    requires
        valid_cards(s1),
        s1.to_multiset() == s2.to_multiset(),
    ensures
        canonical_of(s1) == canonical_of(s2),
{
    broadcast use vstd::seq_lib::group_to_multiset_ensures;

    assert(s1.len() == s1.to_multiset().len());
    assert(s2.len() == s2.to_multiset().len());
    assert forall|i: int| 0 <= i < s2.len() implies valid_rank(#[trigger] s2[i]) by {
        assert(s2.contains(s2[i]));
        assert(s2.to_multiset().count(s2[i]) > 0);
        assert(s1.contains(s2[i]));
        let j = choose|j: int| 0 <= j < s1.len() && s1[j] == s2[i];
        assert(valid_rank(s1[j]));
    }
    lemma_canonical_closed_form(s1);
    lemma_canonical_closed_form(s2);
    if s1.len() == 1 {
        assert(s1 =~= Seq::<Rank>::empty().push(s1[0]));
        assert(s2 =~= Seq::<Rank>::empty().push(s2[0]));
        assert(s1.to_multiset().count(s1[0]) > 0) by {
            assert(s1.contains(s1[0]));
        }
        assert(s2.contains(s1[0]));
    } else if s1.len() == 2 {
        let a = s1[0];
        let b = s1[1];
        let c = s2[0];
        let d = s2[1];
        assert(s1 =~= Seq::<Rank>::empty().push(a).push(b));
        assert(s2 =~= Seq::<Rank>::empty().push(c).push(d));
        assert(Seq::<Rank>::empty().to_multiset() =~= Multiset::<Rank>::empty());
        let m = s1.to_multiset();
        assert(m =~= Multiset::<Rank>::empty().insert(a).insert(b));
        assert(m =~= Multiset::<Rank>::empty().insert(c).insert(d));
        assert(m.count(c) > 0);
        assert(m.count(d) > 0);
        if c == a {
            assert(m.count(a) == 1 + (if b == a { 1int } else { 0 }));
            assert(d == b);
        } else {
            assert(c == b);
            assert(m.count(b) == 1 + (if a == b { 1int } else { 0 }));
            assert(d == a);
        }
    } else if s1.len() >= 3 {
        lemma_hand_sum_counts(s1);
        lemma_hand_sum_counts(s2);
        assert(s1.contains(A) == (s1.to_multiset().count(A) > 0));
        assert(s2.contains(A) == (s2.to_multiset().count(A) > 0));
    }
}

} // verus!
