use blackjack::card::{Card, Suit};
use blackjack::hand::Hand;

fn hand_of(ranks: &[u8]) -> Hand {
    let suits = [Suit::Hearts, Suit::Diamonds, Suit::Spades, Suit::Clubs];
    let mut hand = Hand::new();
    for (i, rank) in ranks.iter().enumerate() {
        hand.add(Card { rank: *rank, suit: suits[i % 4] });
    }
    hand
}

fn total_of(ranks: &[u8]) -> u32 {
    hand_of(ranks).calculate_hand_total()
}

#[test]
fn empty_hand_totals_zero() {
    assert_eq!(Hand::new().calculate_hand_total(), 0);
    assert_eq!(Hand::new().len(), 0);
}

#[test]
fn number_cards_count_their_rank() {
    for rank in 2..=10u8 {
        assert_eq!(total_of(&[rank]), rank as u32);
    }
    assert_eq!(total_of(&[2, 3, 4]), 9);
    assert_eq!(total_of(&[10, 7]), 17);
}

#[test]
fn court_cards_count_ten() {
    assert_eq!(total_of(&[11]), 10);
    assert_eq!(total_of(&[12]), 10);
    assert_eq!(total_of(&[13]), 10);
    assert_eq!(total_of(&[11, 12]), 20);
    assert_eq!(total_of(&[13, 12, 11]), 30);
}

#[test]
fn hand_without_aces_sums_base_values() {
    assert_eq!(total_of(&[2, 5, 9, 13]), 26);
    assert_eq!(total_of(&[10, 9, 5]), 24);
    assert_eq!(total_of(&[6, 5, 10]), 21);
}

#[test]
fn base_value_of_each_rank() {
    let expected = [11u32, 2, 3, 4, 5, 6, 7, 8, 9, 10, 10, 10, 10];
    for rank in 1..=13u8 {
        let card = Card { rank, suit: Suit::Clubs };
        assert_eq!(card.base_value(), expected[(rank - 1) as usize]);
    }
}

#[test]
fn single_ace_counts_eleven() {
    assert_eq!(total_of(&[1]), 11);
}

#[test]
fn ace_and_king_total_twenty_one() {
    assert_eq!(total_of(&[1, 13]), 21);
}

#[test]
fn two_aces_total_twelve() {
    assert_eq!(total_of(&[1, 1]), 12);
}

#[test]
fn two_aces_and_nine_total_twenty_one() {
    assert_eq!(total_of(&[1, 1, 9]), 21);
}

#[test]
fn ace_is_lowered_only_when_needed() {
    assert_eq!(total_of(&[1, 9]), 20);
    assert_eq!(total_of(&[1, 9, 1]), 21);
    assert_eq!(total_of(&[1, 9, 2]), 12);
    assert_eq!(total_of(&[1, 13, 12]), 21);
    assert_eq!(total_of(&[1, 1, 1, 1]), 14);
    assert_eq!(total_of(&[1, 1, 1, 1, 7]), 21);
    assert_eq!(total_of(&[1, 1, 1, 1, 8]), 12);
}

#[test]
fn bust_hand_counts_every_ace_low() {
    assert_eq!(total_of(&[1, 13, 12, 5]), 26);
    assert_eq!(total_of(&[1, 1, 10, 10]), 22);
    assert_eq!(total_of(&[10, 10, 2]), 22);
}

#[test]
fn total_is_largest_candidate_not_above_twenty_one() {
    let samples: [&[u8]; 8] = [
        &[1, 5],
        &[1, 1, 9],
        &[1, 1, 1, 8],
        &[1, 13, 12, 5],
        &[1, 6, 1, 3],
        &[9, 9, 1, 1, 1],
        &[1],
        &[1, 1, 1, 1, 13, 7],
    ];
    for ranks in samples {
        let aces = ranks.iter().filter(|r| **r == 1).count() as u32;
        let high: u32 = ranks
            .iter()
            .map(|r| if *r == 1 { 11 } else if *r >= 11 { 10 } else { *r as u32 })
            .sum();
        let mut best: Option<u32> = None;
        for lowered in 0..=aces {
            let candidate = high - 10 * lowered;
            if candidate <= 21 && best.map_or(true, |b| candidate > b) {
                best = Some(candidate);
            }
        }
        let expected = best.unwrap_or(high - 10 * aces);
        assert_eq!(total_of(ranks), expected);
    }
}

#[test]
fn total_ignores_the_order_of_the_cards() {
    let orders: [&[u8]; 6] = [
        &[1, 9, 1],
        &[1, 1, 9],
        &[9, 1, 1],
        &[13, 1, 5],
        &[5, 13, 1],
        &[1, 5, 13],
    ];
    assert_eq!(total_of(orders[0]), total_of(orders[1]));
    assert_eq!(total_of(orders[1]), total_of(orders[2]));
    assert_eq!(total_of(orders[0]), 21);
    assert_eq!(total_of(orders[3]), total_of(orders[4]));
    assert_eq!(total_of(orders[4]), total_of(orders[5]));
    assert_eq!(total_of(orders[3]), 16);
}

#[test]
fn hand_keeps_cards_in_the_order_added() {
    let mut hand = Hand::new();
    let first = Card { rank: 4, suit: Suit::Spades };
    let second = Card { rank: 12, suit: Suit::Hearts };
    hand.add(first);
    assert_eq!(hand.len(), 1);
    hand.add(second);
    assert_eq!(hand.len(), 2);
    assert_eq!(hand.cards().as_slice(), &[first, second]);
    assert_eq!(hand.calculate_hand_total(), 14);
}

#[test]
fn card_new_accepts_the_thirteen_ranks_only() {
    assert_eq!(Card::new(0, Suit::Hearts), None);
    assert_eq!(Card::new(14, Suit::Hearts), None);
    assert_eq!(Card::new(255, Suit::Clubs), None);
    for rank in 1..=13u8 {
        assert_eq!(Card::new(rank, Suit::Diamonds), Some(Card { rank, suit: Suit::Diamonds }));
    }
}
