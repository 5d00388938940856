use blackjack::card::{Card, Suit};
use blackjack::deck::Deck;

fn position(card: &Card) -> usize {
    let suit = match card.suit {
        Suit::Hearts => 0,
        Suit::Diamonds => 1,
        Suit::Spades => 2,
        Suit::Clubs => 3,
    };
    suit * 13 + (card.rank as usize - 1)
}

fn holds_each_card_once(cards: &[Card]) -> bool {
    let mut seen = [false; 52];
    for card in cards {
        if card.rank < 1 || card.rank > 13 || seen[position(card)] {
            return false;
        }
        seen[position(card)] = true;
    }
    cards.len() == 52
}

#[test]
fn new_deck_has_fifty_two_distinct_cards() {
    let deck = Deck::new();
    assert_eq!(deck.len(), 52);
    assert!(!deck.is_empty());
    assert!(holds_each_card_once(deck.cards()));
}

#[test]
fn new_deck_lists_suits_then_ranks() {
    let deck = Deck::new();
    let cards = deck.cards();
    assert_eq!(cards[0], Card { rank: 1, suit: Suit::Hearts });
    assert_eq!(cards[12], Card { rank: 13, suit: Suit::Hearts });
    assert_eq!(cards[13], Card { rank: 1, suit: Suit::Diamonds });
    assert_eq!(cards[26], Card { rank: 1, suit: Suit::Spades });
    assert_eq!(cards[39], Card { rank: 1, suit: Suit::Clubs });
    assert_eq!(cards[51], Card { rank: 13, suit: Suit::Clubs });
    for (i, card) in cards.iter().enumerate() {
        assert_eq!(position(card), i);
    }
}

#[test]
fn shuffle_keeps_the_same_cards() {
    let mut deck = Deck::new();
    deck.shuffle();
    assert_eq!(deck.len(), 52);
    assert!(holds_each_card_once(deck.cards()));
}

#[test]
fn shuffle_changes_the_order() {
    let fresh = Deck::new();
    let mut deck = Deck::new();
    deck.shuffle();
    assert_ne!(deck.cards(), fresh.cards());
}

#[test]
fn shuffle_of_a_partial_deck_keeps_its_cards() {
    let mut deck = Deck::new();
    for _ in 0..40 {
        deck.deal_card();
    }
    let mut before: Vec<usize> = deck.cards().iter().map(position).collect();
    deck.shuffle();
    let mut after: Vec<usize> = deck.cards().iter().map(position).collect();
    before.sort();
    after.sort();
    assert_eq!(before, after);
}

#[test]
fn deal_card_takes_the_last_card() {
    let mut deck = Deck::new();
    assert_eq!(deck.deal_card(), Card { rank: 13, suit: Suit::Clubs });
    assert_eq!(deck.len(), 51);
    assert_eq!(deck.deal_card(), Card { rank: 12, suit: Suit::Clubs });
    assert_eq!(deck.len(), 50);
    assert_eq!(deck.cards()[49], Card { rank: 11, suit: Suit::Clubs });
}

#[test]
fn dealing_all_cards_empties_the_deck() {
    let mut deck = Deck::new();
    deck.shuffle();
    let mut dealt = Vec::new();
    for left in (0..52).rev() {
        dealt.push(deck.deal_card());
        assert_eq!(deck.len(), left);
    }
    assert!(deck.is_empty());
    assert!(holds_each_card_once(&dealt));
}

#[test]
fn from_cards_keeps_the_order() {
    let cards = vec![
        Card { rank: 5, suit: Suit::Spades },
        Card { rank: 1, suit: Suit::Hearts },
        Card { rank: 5, suit: Suit::Clubs },
    ];
    let mut deck = Deck::from_cards(cards.clone()).unwrap();
    assert_eq!(deck.cards(), &cards);
    assert_eq!(deck.deal_card(), Card { rank: 5, suit: Suit::Clubs });
    assert_eq!(deck.deal_card(), Card { rank: 1, suit: Suit::Hearts });
}

#[test]
fn from_cards_accepts_no_cards() {
    let deck = Deck::from_cards(Vec::new()).unwrap();
    assert!(deck.is_empty());
}

#[test]
fn from_cards_refuses_a_card_twice() {
    let cards = vec![
        Card { rank: 5, suit: Suit::Spades },
        Card { rank: 1, suit: Suit::Hearts },
        Card { rank: 5, suit: Suit::Spades },
    ];
    assert!(Deck::from_cards(cards).is_none());
}

#[test]
fn from_cards_refuses_a_rank_out_of_range() {
    assert!(Deck::from_cards(vec![Card { rank: 0, suit: Suit::Spades }]).is_none());
    assert!(Deck::from_cards(vec![Card { rank: 14, suit: Suit::Hearts }]).is_none());
    assert!(Deck::from_cards(vec![
        Card { rank: 2, suit: Suit::Hearts },
        Card { rank: 200, suit: Suit::Hearts },
    ])
    .is_none());
}
