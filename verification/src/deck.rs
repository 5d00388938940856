//! The deck: the 52 cards in some order, dealt from the end.

use rand::seq::SliceRandom;
use rand::thread_rng;
use vstd::prelude::*;
use crate::card::{Card, Suit};

verus! {

/// The number of cards in a full deck.
pub const DECK_SIZE: usize = 52;

/// The card at a position of the fresh deck: the suits follow each other in
/// their order, and within a suit the ranks rise from ace to king.
pub open spec fn fresh_card(i: int) -> Card {
    Card { rank: (i % 13 + 1) as u8, suit: Suit::at((i / 13) as nat) }
}

/// The position of a card in the fresh deck.
pub open spec fn fresh_position(card: Card) -> int {
    card.suit.index() * 13 + card.rank - 1
}

/// The fresh deck, before any shuffle.
pub open spec fn full_deck() -> Seq<Card> {
    Seq::new(52, |i: int| fresh_card(i))
}

/// Whether the cards are well formed and no card occurs twice.
pub open spec fn distinct_cards(cards: Seq<Card>) -> bool {
    &&& cards.no_duplicates()
    &&& forall|i: int| 0 <= i < cards.len() ==> (#[trigger] cards[i]).wf()
}

/// The fresh deck holds 52 well-formed cards, no card twice, and every
/// well-formed card at the position that its suit and rank give.
pub proof fn lemma_full_deck()
    ensures
        full_deck().len() == 52,
        distinct_cards(full_deck()),
        forall|card: Card|
            card.wf() ==> 0 <= #[trigger] fresh_position(card) < 52 && full_deck()[fresh_position(
                card,
            )] == card,
{
    assert forall|i: int| 0 <= i < 52 implies (#[trigger] full_deck()[i]).wf() && fresh_position(
        full_deck()[i],
    ) == i by {}
    assert forall|i: int, j: int| 0 <= i < 52 && 0 <= j < 52 && i != j implies full_deck()[i]
        != full_deck()[j] by {
        assert(fresh_position(full_deck()[i]) == i);
        assert(fresh_position(full_deck()[j]) == j);
    }
}

/// Cards that are a rearrangement of distinct cards are distinct too.
pub proof fn lemma_distinct_permutation(a: Seq<Card>, b: Seq<Card>)
    requires
        a.to_multiset() == b.to_multiset(),
        distinct_cards(a),
    ensures
        distinct_cards(b),
        a.len() == b.len(),
{
    broadcast use vstd::seq_lib::group_to_multiset_ensures;

    assert(a.len() == a.to_multiset().len() && b.len() == b.to_multiset().len());
    a.lemma_multiset_has_no_duplicates();
    b.lemma_multiset_has_no_duplicates_conv();
    assert forall|i: int| 0 <= i < b.len() implies (#[trigger] b[i]).wf() by {
        assert(b.contains(b[i]));
        assert(a.to_multiset().count(b[i]) > 0);
        assert(a.contains(b[i]));
    }
}

/// Fifty-two distinct cards are the cards of the fresh deck, in some order.
pub proof fn lemma_complete_deck(cards: Seq<Card>)
    requires
        distinct_cards(cards),
        cards.len() == 52,
    ensures
        cards.to_multiset() == full_deck().to_multiset(),
{
    broadcast use vstd::seq_lib::group_to_multiset_ensures;

    let full = full_deck();
    lemma_full_deck();
    cards.unique_seq_to_set();
    full.unique_seq_to_set();
    assert forall|card: Card| cards.to_set().contains(card) implies full.to_set().contains(
        card,
    ) by {
        let i = choose|i: int| 0 <= i < cards.len() && cards[i] == card;
        assert(cards[i].wf());
        assert(full[fresh_position(card)] == card);
    }
    vstd::seq_lib::seq_to_set_is_finite(cards);
    vstd::seq_lib::seq_to_set_is_finite(full);
    vstd::set_lib::lemma_subset_equality(cards.to_set(), full.to_set());
    cards.lemma_multiset_has_no_duplicates();
    full.lemma_multiset_has_no_duplicates();
    assert forall|card: Card| cards.to_multiset().count(card) == full.to_multiset().count(
        card,
    ) by {
        assert(cards.contains(card) <==> cards.to_set().contains(card));
        assert(full.contains(card) <==> full.to_set().contains(card));
        assert(cards.to_multiset().contains(card) <==> cards.to_multiset().count(card) > 0);
        assert(full.to_multiset().contains(card) <==> full.to_multiset().count(card) > 0);
    }
    assert(cards.to_multiset() =~= full.to_multiset());
}

/// An ordered collection of distinct cards. It changes only by a shuffle and
/// by dealing the card at its end.
pub struct Deck {
    cards: Vec<Card>,
}

impl View for Deck {
    type V = Seq<Card>;

    closed spec fn view(&self) -> Seq<Card> {
        self.cards@
    }
}

/// Rearranges the cards with `rand::seq::SliceRandom::shuffle`, drawing from
/// the generator that `rand::thread_rng` hands out. The shuffle only swaps
/// elements of the slice, so the same cards are there afterwards, each as
/// often as before; nothing is claimed about their order. The generator is
/// seeded by the operating system and fails where that has no entropy to
/// give.
#[verifier::external_body]
fn shuffle_in_place(cards: &mut Vec<Card>)
    ensures
        final(cards)@.to_multiset() == old(cards)@.to_multiset(),
{
    let mut rng = thread_rng();
    cards.shuffle(&mut rng);
}

impl Deck {
    /// A deck is well formed when its cards are distinct.
    pub open spec fn wf(&self) -> bool {
        distinct_cards(self@)
    }

    /// The fresh deck of 52 cards: hearts, diamonds, spades, clubs, each
    /// from ace to king.
    pub fn new() -> (deck: Deck)
        ensures
            deck@ == full_deck(),
            deck@.len() == 52,
            deck.wf(),
    {
        let mut cards: Vec<Card> = Vec::new();
        let mut suit: u8 = 0;
        while suit < 4
            invariant
                suit <= 4,
                cards@ == full_deck().take(13 * suit),
            decreases 4 - suit,
        {
            let mut rank: u8 = 1;
            while rank <= 13
                invariant
                    suit < 4,
                    1 <= rank <= 14,
                    cards@ == full_deck().take(13 * suit + rank - 1),
                decreases 14 - rank,
            {
                let card = Card { rank, suit: Suit::from_index(suit) };
                assert(full_deck().take(13 * suit + rank) =~= full_deck().take(
                    13 * suit + rank - 1,
                ).push(card));
                cards.push(card);
                rank = rank + 1;
            }
            suit = suit + 1;
        }
        proof {
            assert(full_deck().take(52) =~= full_deck());
            lemma_full_deck();
        }
        Deck { cards }
    }

    /// A deck that holds the given cards in the given order, the last one to
    /// be dealt first; or nothing where a rank is not one of the thirteen or
    /// a card occurs twice.
    pub fn from_cards(cards: Vec<Card>) -> (deck: Option<Deck>)
        ensures
            deck is Some <==> distinct_cards(cards@),
            deck is Some ==> deck->Some_0@ == cards@ && deck->Some_0.wf(),
    {
        let n = cards.len();
        let mut i: usize = 0;
        while i < n
            invariant
                n == cards@.len(),
                i <= n,
                distinct_cards(cards@.take(i as int)),
            decreases n - i,
        {
            if cards[i].rank < 1 || cards[i].rank > 13 {
                return None;
            }
            let mut j: usize = 0;
            while j < i
                invariant
                    n == cards@.len(),
                    j <= i < n,
                    forall|k: int| 0 <= k < j ==> cards@[k] != cards@[i as int],
                decreases i - j,
            {
                if cards[j] == cards[i] {
                    return None;
                }
                j = j + 1;
            }
            i = i + 1;
        }
        assert(cards@.take(n as int) =~= cards@);
        Some(Deck { cards })
    }

    /// Puts the cards into a random order. The deck holds the same cards
    /// afterwards.
    pub fn shuffle(&mut self)
        ensures
            final(self)@.to_multiset() == old(self)@.to_multiset(),
            final(self)@.len() == old(self)@.len(),
            old(self).wf() ==> final(self).wf(),
    {
        shuffle_in_place(&mut self.cards);
        proof {
            old(self)@.to_multiset_ensures();
            self@.to_multiset_ensures();
            if old(self).wf() {
                lemma_distinct_permutation(old(self)@, self@);
            }
        }
    }

    /// Takes the card at the end of the deck.
    pub fn deal_card(&mut self) -> (card: Card)
        requires
            old(self)@.len() > 0,
        ensures
            card == old(self)@.last(),
            final(self)@ == old(self)@.drop_last(),
            old(self).wf() ==> final(self).wf() && card.wf() && !final(self)@.contains(card),
    {
        let card = self.cards.pop().unwrap();
        card
    }

    /// The number of cards left.
    pub fn len(&self) -> (n: usize)
        ensures
            n == self@.len(),
    {
        self.cards.len()
    }

    /// Whether no card is left.
    pub fn is_empty(&self) -> (empty: bool)
        ensures
            empty == (self@.len() == 0),
    {
        self.cards.len() == 0
    }

    /// The cards left, the next one to be dealt last.
    pub fn cards(&self) -> (cards: &Vec<Card>)
        ensures
            cards@ == self@,
    {
        &self.cards
    }
}

} // verus!
