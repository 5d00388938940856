//! The value of a hand: every card counts its base value, and aces are
//! lowered from 11 to 1, one at a time, while the total exceeds 21.

use vstd::prelude::*;
use crate::card::Card;

verus! {

/// The highest total a hand may reach without going bust.
pub const BLACKJACK: u32 = 21;

/// The sum of the cards' values with every ace counted as 11.
pub open spec fn high_sum(cards: Seq<Card>) -> nat
    decreases cards.len(),
{
    if cards.len() == 0 {
        0
    } else {
        high_sum(cards.drop_last()) + cards.last().value()
    }
}

/// The number of aces among the cards.
pub open spec fn ace_count(cards: Seq<Card>) -> nat
    decreases cards.len(),
{
    if cards.len() == 0 {
        0
    } else {
        ace_count(cards.drop_last()) + if cards.last().is_ace() {
            1nat
        } else {
            0nat
        }
    }
}

/// The sum of the cards' values with every ace counted as 1.
pub open spec fn low_sum(cards: Seq<Card>) -> int {
    high_sum(cards) - 10 * ace_count(cards)
}

/// How many aces count as 1 in a hand whose aces-high sum is `high` and which
/// holds `aces` aces: as few as bring the total to 21 or less, and all of
/// them where even that is not enough.
pub open spec fn aces_lowered(high: nat, aces: nat) -> nat {
    if high <= 21 {
        0
    } else {
        let needed = ((high - 12) / 10) as nat;
        if needed <= aces {
            needed
        } else {
            aces
        }
    }
}

/// The total of a hand.
pub open spec fn hand_total(cards: Seq<Card>) -> int {
    high_sum(cards) - 10 * aces_lowered(high_sum(cards), ace_count(cards))
}

/// Whether a hand has gone over 21.
pub open spec fn is_bust(cards: Seq<Card>) -> bool {
    hand_total(cards) > 21
}

/// Adding a card adds its value to the aces-high sum and, if it is an ace,
/// one to the count of aces.
pub proof fn lemma_sums_push(cards: Seq<Card>, card: Card)
    ensures
        high_sum(cards.push(card)) == high_sum(cards) + card.value(),
        ace_count(cards.push(card)) == ace_count(cards) + if card.is_ace() {
            1nat
        } else {
            0nat
        },
{
    assert(cards.push(card).drop_last() =~= cards);
}

/// The aces-high sum of the first cards of a hand is at most that of the
/// whole hand.
pub proof fn lemma_high_sum_prefix(cards: Seq<Card>, n: int)
    requires
        0 <= n <= cards.len(),
    ensures
        high_sum(cards.take(n)) <= high_sum(cards),
    decreases cards.len() - n,
{
    if n < cards.len() {
        assert(cards.take(n + 1) =~= cards.take(n).push(cards[n]));
        lemma_sums_push(cards.take(n), cards[n]);
        lemma_high_sum_prefix(cards, n + 1);
    } else {
        assert(cards.take(n) =~= cards);
    }
}

/// Every ace contributes 11 to the aces-high sum, so the aces-low sum is
/// never negative, and the total lies between the two sums.
pub proof fn lemma_sum_bounds(cards: Seq<Card>)
    ensures
        11 * ace_count(cards) <= high_sum(cards),
        ace_count(cards) <= cards.len(),
        0 <= low_sum(cards) <= hand_total(cards) <= high_sum(cards),
        high_sum(cards) <= 255 * cards.len(),
    decreases cards.len(),
{
    if cards.len() > 0 {
        lemma_sum_bounds(cards.drop_last());
    }
}

/// Every well-formed card counts at least 1 and at most 11, so a hand of
/// such cards holds no more cards than its total, and its aces-high sum is
/// at most eleven times its length.
pub proof fn lemma_total_bounds_length(cards: Seq<Card>)
    requires
        forall|i: int| 0 <= i < cards.len() ==> (#[trigger] cards[i]).wf(),
    ensures
        cards.len() <= low_sum(cards),
        cards.len() <= hand_total(cards),
        high_sum(cards) <= 11 * cards.len(),
    decreases cards.len(),
{
    lemma_sum_bounds(cards);
    if cards.len() > 0 {
        let rest = cards.drop_last();
        assert forall|i: int| 0 <= i < rest.len() implies (#[trigger] rest[i]).wf() by {
            assert(rest[i] == cards[i]);
        }
        assert(cards.last() == cards[cards.len() - 1]);
        lemma_total_bounds_length(rest);
    }
}

/// A hand without an ace totals the sum of its cards' base values, with
/// jack, queen and king counted as 10.
pub proof fn lemma_total_without_aces(cards: Seq<Card>)
    requires
        forall|i: int| 0 <= i < cards.len() ==> !(#[trigger] cards[i]).is_ace(),
    ensures
        ace_count(cards) == 0,
        hand_total(cards) == high_sum(cards),
    decreases cards.len(),
{
    if cards.len() > 0 {
        let rest = cards.drop_last();
        assert forall|i: int| 0 <= i < rest.len() implies !(#[trigger] rest[i]).is_ace() by {
            assert(rest[i] == cards[i]);
        }
        assert(cards.last() == cards[cards.len() - 1]);
        lemma_total_without_aces(rest);
    }
}

/// With `k` aces a hand has `k + 1` candidate totals, one for each number
/// of aces counted as 1. The total is one of them: the largest that does not
/// exceed 21 where there is one, and otherwise the smallest, with every ace
/// counted as 1.
pub proof fn lemma_total_is_best_ace_choice(cards: Seq<Card>)
    ensures
        exists|j: int|
            0 <= j <= ace_count(cards) && hand_total(cards) == #[trigger] (high_sum(cards) - 10
                * j),
        forall|j: int|
            0 <= j <= ace_count(cards) && #[trigger] (high_sum(cards) - 10 * j) <= 21
                ==> high_sum(cards) - 10 * j <= hand_total(cards) <= 21,
        (forall|j: int|
            0 <= j <= ace_count(cards) ==> #[trigger] (high_sum(cards) - 10 * j) > 21)
            ==> hand_total(cards) == low_sum(cards),
{
    let high = high_sum(cards);
    let aces = ace_count(cards);
    let lowered = aces_lowered(high, aces);
    assert(0 <= lowered <= aces && hand_total(cards) == high - 10 * lowered);
    if !(forall|j: int| 0 <= j <= aces ==> #[trigger] (high - 10 * j) > 21) {
        let j = choose|j: int| 0 <= j <= aces && #[trigger] (high - 10 * j) <= 21;
        assert(high - 10 * j <= 21);
    } else {
        assert(high - 10 * aces > 21);
    }
}

/// Taking a card out of a hand takes its value out of the aces-high sum and,
/// if it is an ace, one from the count of aces.
pub proof fn lemma_sums_remove(cards: Seq<Card>, i: int)
    requires
        0 <= i < cards.len(),
    ensures
        high_sum(cards) == high_sum(cards.remove(i)) + cards[i].value(),
        ace_count(cards) == ace_count(cards.remove(i)) + if cards[i].is_ace() {
            1nat
        } else {
            0nat
        },
    decreases cards.len(),
{
    if i == cards.len() - 1 {
        assert(cards.remove(i) =~= cards.drop_last());
    } else {
        assert(cards.remove(i).drop_last() =~= cards.drop_last().remove(i));
        assert(cards.remove(i).last() == cards.last());
        lemma_sums_remove(cards.drop_last(), i);
    }
}

/// The two sums depend on the cards held, not on their order.
pub proof fn lemma_sums_permutation(a: Seq<Card>, b: Seq<Card>)
    requires
        a.to_multiset() == b.to_multiset(),
    ensures
        high_sum(a) == high_sum(b),
        ace_count(a) == ace_count(b),
    decreases a.len(),
{
    broadcast use vstd::seq_lib::group_to_multiset_ensures;

    assert(a.len() == a.to_multiset().len() && b.len() == b.to_multiset().len());
    if a.len() > 0 {
        let card = a.last();
        assert(a.contains(card));
        assert(b.to_multiset().count(card) > 0);
        let i = choose|i: int| 0 <= i < b.len() && b[i] == card;
        assert(a.drop_last() =~= a.remove(a.len() - 1));
        assert(a.drop_last().to_multiset() == b.remove(i).to_multiset());
        lemma_sums_permutation(a.drop_last(), b.remove(i));
        lemma_sums_remove(b, i);
    }
}

/// The total of a hand does not depend on the order of its cards.
pub proof fn lemma_total_permutation(a: Seq<Card>, b: Seq<Card>)
    requires
        a.to_multiset() == b.to_multiset(),
    ensures
        hand_total(a) == hand_total(b),
{
    lemma_sums_permutation(a, b);
}

} // verus!
