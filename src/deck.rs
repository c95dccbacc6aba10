use vstd::prelude::*;

use crate::types::{seq_sum, lemma_seq_sum_prefix, lemma_seq_sum_prefix_le, lemma_seq_sum_update, valid_rank, Rank, A, T};

verus! {

/// A deck of cards, held as the number of cards of each rank that are left.
#[derive(Clone, Copy, Debug, Default, PartialEq, Eq, Hash)]
pub struct Deck {
    pub card_counts: [u32; 10],
}

impl View for Deck {
    type V = Seq<u32>;

    open spec fn view(&self) -> Seq<u32> {
        self.card_counts@
    }
}

/// The counts with one more card of rank `r`.
pub open spec fn counts_added(s: Seq<u32>, r: Rank) -> Seq<u32> {
    s.update(r as int, (s[r as int] + 1) as u32)
}

/// The counts with one card of rank `r` taken out.
pub open spec fn counts_removed(s: Seq<u32>, r: Rank) -> Seq<u32> {
    s.update(r as int, (s[r as int] - 1) as u32)
}

/// The counts with one card of each rank in `cards` taken out.
pub open spec fn removed_all(s: Seq<u32>, cards: Seq<Rank>) -> Seq<u32>
    decreases cards.len(),
{
    if cards.len() == 0 {
        s
    } else {
        counts_removed(removed_all(s, cards.drop_last()), cards.last())
    }
}

pub proof fn lemma_removed_all_push(s: Seq<u32>, cards: Seq<Rank>, c: Rank)
    ensures
        removed_all(s, cards.push(c)) == counts_removed(removed_all(s, cards), c),
{
    assert(cards.push(c).drop_last() =~= cards);
}

impl Deck {
    /// Number of cards of rank `r`.
    pub open spec fn count(self, r: Rank) -> nat {
        self@[r as int] as nat
    }

    /// Number of cards in the deck.
    pub open spec fn total(self) -> int {
        seq_sum(self@)
    }

    /// The deck holds no more cards than a `u32` can count.
    pub open spec fn fits(self) -> bool {
        self.total() <= u32::MAX
    }

    /// A deck of `decks` standard 52-card decks: sixteen tens and four of every other rank each.
    pub fn shoe(decks: u32) -> (d: Deck)
        requires
            decks <= u32::MAX / 16,
        ensures
            d.count(T) == 16 * decks,
            forall|r: Rank| 1 <= r < 10 ==> d.count(r) == 4 * decks,
            d.total() == 52 * decks,
    {
        let four = 4 * decks;
        let d = Deck { card_counts: [16 * decks, four, four, four, four, four, four, four, four, four] };
        proof {
            reveal_with_fuel(seq_sum, 11);
            assert(d.card_counts@.drop_last().drop_last().drop_last().drop_last().drop_last().drop_last().drop_last().drop_last().drop_last().drop_last() =~= Seq::<u32>::empty());
        }
        d
    }

    /// Number of cards left in the deck.
    pub fn len(&self) -> (n: u32)
        requires
            self.fits(),
        ensures
            n == self.total(),
    {
        let mut total: u32 = 0;
        let mut i: usize = 0;
        while i < 10
            invariant
                0 <= i <= 10,
                self.card_counts@.len() == 10,
                self.fits(),
                total == seq_sum(self.card_counts@.subrange(0, i as int)),
            decreases 10 - i,
        {
            proof {
                lemma_seq_sum_prefix(self.card_counts@, i as int);
                lemma_seq_sum_prefix_le(self.card_counts@, i as int + 1);
            }
            total = total + self.card_counts[i];
            i = i + 1;
        }
        assert(self.card_counts@.subrange(0, 10) =~= self.card_counts@);
        total
    }

    /// Number of cards of rank `r` left in the deck.
    pub fn get(&self, r: Rank) -> (n: u32)
        requires
            valid_rank(r),
        ensures
            n == self.count(r),
    {
        self.card_counts[r as usize]
    }

    /// Picks a random card of this deck, weighted by the number of cards of each rank, without
    /// changing the deck.
    ///
    /// Relies on `rand::distributions::WeightedIndex`: `new` succeeds when the weights sum to a
    /// positive number that fits their type, and `sample` returns an index whose weight is
    /// positive (its cumulative weight interval is non-empty).
    #[verifier::external_body]
    pub fn random_card(&self) -> (r: Rank)
        requires
            self.total() > 0,
            self.fits(),
        ensures
            valid_rank(r),
            self.count(r) > 0,
    {
        let dist = rand::distributions::WeightedIndex::new(self.card_counts).unwrap();
        rand::distributions::Distribution::sample(&dist, &mut rand::thread_rng()) as Rank
    }

    /// Draws a random card from this deck and removes it.
    pub fn draw(&mut self) -> (r: Rank)
        requires
            old(self).total() > 0,
            old(self).fits(),
        ensures
            valid_rank(r),
            old(self).count(r) > 0,
            final(self)@ == counts_removed(old(self)@, r),
            final(self).total() == old(self).total() - 1,
    {
        let card = self.random_card();
        proof {
            lemma_seq_sum_update(self.card_counts@, card as int, (self.card_counts[card as int] - 1) as u32);
        }
        self.card_counts[card as usize] = self.card_counts[card as usize] - 1;
        assert(self@ =~= counts_removed(old(self)@, card));
        card
    }

    /// A copy of this deck with one card of rank `rank` added.
    pub fn added(&self, rank: Rank) -> (d: Deck)
        requires
            valid_rank(rank),
            self.count(rank) < u32::MAX,
        ensures
            d@ == counts_added(self@, rank),
            d.total() == self.total() + 1,
    {
        let mut c = *self;
        proof {
            lemma_seq_sum_update(self.card_counts@, rank as int, (self.card_counts[rank as int] + 1) as u32);
        }
        c.card_counts[rank as usize] = c.card_counts[rank as usize] + 1;
        assert(c@ =~= counts_added(self@, rank));
        c
    }

    /// A copy of this deck with one card of rank `rank` removed.
    pub fn removed(&self, rank: Rank) -> (d: Deck)
        requires
            valid_rank(rank),
            self.count(rank) > 0,
        ensures
            d@ == counts_removed(self@, rank),
            d.total() == self.total() - 1,
    {
        let mut c = *self;
        proof {
            lemma_seq_sum_update(self.card_counts@, rank as int, (self.card_counts[rank as int] - 1) as u32);
        }
        c.card_counts[rank as usize] = c.card_counts[rank as usize] - 1;
        assert(c@ =~= counts_removed(self@, rank));
        c
    }
}

/// Adding a card and taking it out again gives back the deck, and so does taking a card out and
/// putting it back.
pub proof fn lemma_added_removed(d: Deck, r: Rank)
    requires
        valid_rank(r),
    ensures
        d.count(r) < u32::MAX ==> counts_removed(counts_added(d@, r), r) == d@,
        d.count(r) > 0 ==> counts_added(counts_removed(d@, r), r) == d@,
{
    assert(d@.len() == 10);
    if d.count(r) < u32::MAX {
        assert(counts_removed(counts_added(d@, r), r) =~= d@);
    }
    if d.count(r) > 0 {
        assert(counts_added(counts_removed(d@, r), r) =~= d@);
    }
}

} // verus!
