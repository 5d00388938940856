//! The cards of one party, in the order in which they were dealt.

use vstd::prelude::*;
use crate::card::{Card, ACE};
use crate::scoring::{
    ace_count, aces_lowered, hand_total, high_sum, lemma_high_sum_prefix, lemma_sum_bounds,
    lemma_sums_push, BLACKJACK,
};

verus! {

/// A hand grows by one card at a time and never shrinks. Its total is
/// computed from the cards whenever it is asked for.
pub struct Hand {
    cards: Vec<Card>,
}

impl View for Hand {
    type V = Seq<Card>;

    closed spec fn view(&self) -> Seq<Card> {
        self.cards@
    }
}

impl Hand {
    /// The total of the hand, with aces lowered as far as needed.
    pub open spec fn total(&self) -> int {
        hand_total(self@)
    }

    /// An empty hand.
    pub fn new() -> (hand: Hand)
        ensures
            hand@ == Seq::<Card>::empty(),
    {
        Hand { cards: Vec::new() }
    }

    /// Puts a card at the end of the hand.
    pub fn add(&mut self, card: Card)
        ensures
            final(self)@ == old(self)@.push(card),
    {
        self.cards.push(card);
    }

    /// The number of cards held.
    pub fn len(&self) -> (n: usize)
        ensures
            n == self@.len(),
    {
        self.cards.len()
    }

    /// The cards held, oldest first.
    pub fn cards(&self) -> (cards: &Vec<Card>)
        ensures
            cards@ == self@,
    {
        &self.cards
    }

    /// Computes the total of the hand: the sum of the cards' base values,
    /// less 10 for each ace that has to count as 1 to keep the total at 21 or
    /// below. A hand that exceeds 21 with every ace lowered keeps that total.
    pub fn calculate_hand_total(&self) -> (total: u32)
        requires
            high_sum(self@) <= u32::MAX,
        ensures
            total == hand_total(self@),
    {
        let mut total: u32 = 0;
        let mut soft_aces: u32 = 0;
        let n = self.cards.len();
        let mut i: usize = 0;
        while i < n
            invariant
                n == self.cards@.len(),
                i <= n,
                total == high_sum(self.cards@.take(i as int)),
                soft_aces == ace_count(self.cards@.take(i as int)),
                high_sum(self.cards@) <= u32::MAX,
            decreases n - i,
        {
            let card = &self.cards[i];
            proof {
                let seen = self.cards@.take(i as int);
                assert(self.cards@.take(i + 1) =~= seen.push(*card));
                lemma_sums_push(seen, *card);
                lemma_high_sum_prefix(self.cards@, i + 1);
                lemma_sum_bounds(self.cards@.take(i + 1));
            }
            if card.rank == ACE {
                soft_aces = soft_aces + 1;
            }
            total = total + card.base_value();
            i = i + 1;
        }
        assert(self.cards@.take(n as int) =~= self.cards@);
        let ghost high = high_sum(self@);
        let ghost aces = ace_count(self@);
        while total > BLACKJACK && soft_aces > 0
            invariant
                soft_aces <= aces,
                total == high - 10 * (aces - soft_aces),
                aces - soft_aces <= aces_lowered(high, aces),
                high == high_sum(self@),
                aces == ace_count(self@),
            decreases soft_aces,
        {
            total = total - 10;
            soft_aces = soft_aces - 1;
        }
        total
    }
}

} // verus!
