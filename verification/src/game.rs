//! One round of Blackjack between a player and the dealer, as a state
//! machine: the opening deal, the player's decisions, the dealer's fixed
//! policy, and the outcome.

use vstd::prelude::*;
use crate::card::Card;
use crate::deck::{
    distinct_cards, full_deck, lemma_complete_deck, lemma_distinct_permutation, lemma_full_deck,
    Deck,
};
use crate::hand::Hand;
use crate::input::{decision_of, normalized, parse_decision};
use crate::scoring::{
    hand_total, high_sum, lemma_sum_bounds, lemma_sums_push, lemma_total_bounds_length, BLACKJACK,
};

verus! {

/// The total below which the dealer draws another card.
pub const DEALER_STANDS_AT: u32 = 17;

/// What the player may decide when asked.
#[derive(Clone, Copy, Debug, PartialEq, Eq, Structural)]
pub enum Decision {
    Hit,
    Stand,
}

/// Where a round stands.
#[derive(Clone, Copy, Debug, PartialEq, Eq, Structural)]
pub enum Phase {
    /// Nothing has been dealt yet.
    Setup,
    /// The player is asked to hit or stand.
    PlayerTurn,
    /// The player stood without going bust, and the dealer has yet to play.
    DealerTurn,
    /// No more cards are dealt and the outcome can be read.
    Resolved,
}

/// How a round ends.
#[derive(Clone, Copy, Debug, PartialEq, Eq, Structural)]
pub enum Outcome {
    PlayerBust,
    DealerBust,
    PlayerWin,
    DealerWin,
    Tie,
}

/// The outcome that two final totals give: a bust player loses whatever the
/// dealer holds, then a bust dealer loses, then the higher total wins.
pub open spec fn outcome_of(player_total: int, dealer_total: int) -> Outcome {
    if player_total > 21 {
        Outcome::PlayerBust
    } else if dealer_total > 21 {
        Outcome::DealerBust
    } else if player_total > dealer_total {
        Outcome::PlayerWin
    } else if player_total < dealer_total {
        Outcome::DealerWin
    } else {
        Outcome::Tie
    }
}

/// Decides a round from the two final totals.
pub fn resolve(player_total: u32, dealer_total: u32) -> (outcome: Outcome)
    ensures
        outcome == outcome_of(player_total as int, dealer_total as int),
{
    if player_total > BLACKJACK {
        Outcome::PlayerBust
    } else if dealer_total > BLACKJACK {
        Outcome::DealerBust
    } else if player_total > dealer_total {
        Outcome::PlayerWin
    } else if player_total < dealer_total {
        Outcome::DealerWin
    } else {
        Outcome::Tie
    }
}

/// The first `n` cards that a deck deals, in the order in which it deals
/// them: the card at its end comes first.
pub open spec fn dealt(deck: Seq<Card>, n: int) -> Seq<Card> {
    Seq::new(n as nat, |i: int| deck[deck.len() - 1 - i])
}

/// The state of a round as contracts see it.
pub struct RoundState {
    pub deck: Seq<Card>,
    pub player: Seq<Card>,
    pub dealer: Seq<Card>,
    pub phase: Phase,
}

impl RoundState {
    /// All the cards of the round: those left in the deck and those in the
    /// two hands.
    pub open spec fn in_play(self) -> Seq<Card> {
        self.deck + self.player + self.dealer
    }

    /// The dealer has drawn while below 17 and no longer: the hand has
    /// reached 17, and with any smaller number of cards, from the two of the
    /// opening deal on, it was below.
    pub open spec fn dealer_has_played(self) -> bool {
        &&& self.dealer.len() >= 2
        &&& hand_total(self.dealer) >= 17
        &&& forall|n: int|
            2 <= n < self.dealer.len() ==> hand_total(#[trigger] self.dealer.take(n)) < 17
    }

    /// What holds of a round at every moment: its 52 cards are distinct,
    /// and the hands are what the phase allows.
    pub open spec fn wf(self) -> bool {
        &&& distinct_cards(self.in_play())
        &&& self.in_play().len() == 52
        &&& match self.phase {
            Phase::Setup => self.player.len() == 0 && self.dealer.len() == 0,
            Phase::PlayerTurn => {
                &&& self.player.len() >= 2
                &&& self.dealer.len() == 2
                &&& hand_total(self.player) <= 21
            },
            Phase::DealerTurn => {
                &&& self.player.len() >= 2
                &&& self.dealer.len() == 2
                &&& hand_total(self.player) <= 21
            },
            Phase::Resolved => {
                &&& self.player.len() >= 2
                &&& if hand_total(self.player) > 21 {
                    self.dealer.len() == 2
                } else {
                    self.dealer_has_played()
                }
            },
        }
    }
}

/// At every moment of a round the deck and the two hands together hold
/// the cards of the fresh deck, each once.
pub proof fn lemma_round_holds_full_deck(s: RoundState)
    requires
        s.wf(),
    ensures
        s.in_play().to_multiset() == full_deck().to_multiset(),
{
    lemma_complete_deck(s.in_play());
}

/// The cards of a part of the round are well formed, and a hand holds at
/// most as many cards as its total.
pub proof fn lemma_hand_in_play(s: RoundState)
    requires
        distinct_cards(s.in_play()),
    ensures
        distinct_cards(s.deck),
        s.player.len() <= hand_total(s.player),
        s.dealer.len() <= hand_total(s.dealer),
        high_sum(s.player) <= 11 * s.player.len(),
        high_sum(s.dealer) <= 11 * s.dealer.len(),
        s.in_play().len() == s.deck.len() + s.player.len() + s.dealer.len(),
{
    let all = s.in_play();
    lemma_cards_in_play_wf(s);
    assert forall|i: int, j: int| 0 <= i < s.deck.len() && 0 <= j < s.deck.len() && i
        != j implies s.deck[i] != s.deck[j] by {
        assert(s.deck[i] == all[i] && s.deck[j] == all[j]);
    }
    lemma_total_bounds_length(s.player);
    lemma_total_bounds_length(s.dealer);
}

/// Moving the card at the end of the deck to the end of the player's hand
/// leaves the cards of the round distinct.
pub proof fn lemma_deal_to_player(s: RoundState)
    requires
        distinct_cards(s.in_play()),
        s.deck.len() > 0,
    ensures
        distinct_cards(
            (RoundState {
                deck: s.deck.drop_last(),
                player: s.player.push(s.deck.last()),
                ..s
            }).in_play(),
        ),
        (RoundState {
            deck: s.deck.drop_last(),
            player: s.player.push(s.deck.last()),
            ..s
        }).in_play().len() == s.in_play().len(),
{
    broadcast use vstd::seq_lib::group_to_multiset_ensures;

    let before = s.in_play();
    let at = s.deck.len() - 1;
    let card = s.deck.last();
    let after = s.deck.drop_last() + s.player.push(card) + s.dealer;
    assert(before[at] == card);
    assert(after =~= before.remove(at).insert(at + s.player.len(), card));
    vstd::seq_lib::to_multiset_remove(before, at);
    vstd::seq_lib::to_multiset_insert(before.remove(at), at + s.player.len(), card);
    assert(after.to_multiset() =~= before.to_multiset());
    lemma_distinct_permutation(before, after);
}

/// Moving the card at the end of the deck to the end of the dealer's hand
/// leaves the cards of the round distinct.
pub proof fn lemma_deal_to_dealer(s: RoundState)
    requires
        distinct_cards(s.in_play()),
        s.deck.len() > 0,
    ensures
        distinct_cards(
            (RoundState {
                deck: s.deck.drop_last(),
                dealer: s.dealer.push(s.deck.last()),
                ..s
            }).in_play(),
        ),
        (RoundState {
            deck: s.deck.drop_last(),
            dealer: s.dealer.push(s.deck.last()),
            ..s
        }).in_play().len() == s.in_play().len(),
{
    broadcast use vstd::seq_lib::group_to_multiset_ensures;

    let before = s.in_play();
    let at = s.deck.len() - 1;
    let card = s.deck.last();
    let after = s.deck.drop_last() + s.player + s.dealer.push(card);
    assert(before[at] == card);
    assert(after =~= before.remove(at).push(card));
    vstd::seq_lib::to_multiset_remove(before, at);
    assert(after.to_multiset() =~= before.to_multiset());
    lemma_distinct_permutation(before, after);
}

/// Two cards never total more than 21: two aces count 12.
pub proof fn lemma_two_cards_not_bust(cards: Seq<Card>)
    requires
        cards.len() == 2,
        cards[0].wf(),
        cards[1].wf(),
    ensures
        hand_total(cards) <= 21,
{
    let none = Seq::<Card>::empty();
    let one = none.push(cards[0]);
    assert(cards =~= one.push(cards[1]));
    lemma_sums_push(none, cards[0]);
    lemma_sums_push(one, cards[1]);
    lemma_sum_bounds(cards);
}

/// The round after the player's decision: a hit moves the next card of the
/// deck to the player's hand and ends the round if the hand is then bust; a
/// stand hands the turn to the dealer.
pub open spec fn after_decision(s: RoundState, decision: Decision) -> RoundState {
    match decision {
        Decision::Stand => RoundState { phase: Phase::DealerTurn, ..s },
        Decision::Hit => {
            let player = s.player.push(s.deck.last());
            RoundState {
                deck: s.deck.drop_last(),
                player,
                dealer: s.dealer,
                phase: if hand_total(player) > 21 {
                    Phase::Resolved
                } else {
                    Phase::PlayerTurn
                },
            }
        },
    }
}

/// While neither hand is bust the deck is not empty: a hand holds at most
/// as many cards as it totals, so the two hands hold 42 of the 52 cards at
/// most. A card is only ever dealt to a hand that is not bust, so no deal
/// of a round finds the deck empty.
pub proof fn lemma_deck_not_empty(s: RoundState)
    requires
        distinct_cards(s.in_play()),
        s.in_play().len() == 52,
        hand_total(s.player) <= 21,
        hand_total(s.dealer) <= 21,
    ensures
        s.deck.len() >= 10,
{
    lemma_hand_in_play(s);
}

/// The round after the opening deal from a deck in the given order: the
/// player gets the first and the third card dealt, the dealer the second
/// and the fourth.
pub open spec fn opening_deal(deck: Seq<Card>) -> RoundState {
    RoundState {
        deck: deck.take(deck.len() - 4),
        player: seq![deck[deck.len() - 1], deck[deck.len() - 3]],
        dealer: seq![deck[deck.len() - 2], deck[deck.len() - 4]],
        phase: Phase::PlayerTurn,
    }
}

/// The engine of one round. It owns the deck and the two hands, and lets
/// them change only as the rules of the phase allow.
pub struct GameController {
    deck: Deck,
    player_hand: Hand,
    dealer_hand: Hand,
    phase: Phase,
}

impl View for GameController {
    type V = RoundState;

    closed spec fn view(&self) -> RoundState {
        RoundState {
            deck: self.deck@,
            player: self.player_hand@,
            dealer: self.dealer_hand@,
            phase: self.phase,
        }
    }
}

impl GameController {
    /// Whether the round is in a state that the rules allow.
    pub open spec fn wf(&self) -> bool {
        self@.wf()
    }

    /// A round before its opening deal, with the fresh deck and two empty
    /// hands.
    pub fn new() -> (game: GameController)
        ensures
            game@ == (RoundState {
                deck: full_deck(),
                player: Seq::<Card>::empty(),
                dealer: Seq::<Card>::empty(),
                phase: Phase::Setup,
            }),
            game.wf(),
    {
        let game = GameController {
            deck: Deck::new(),
            player_hand: Hand::new(),
            dealer_hand: Hand::new(),
            phase: Phase::Setup,
        };
        proof {
            lemma_full_deck();
            assert(game@.in_play() =~= full_deck());
        }
        game
    }

    /// A round before its opening deal that plays from the given deck, or
    /// nothing where the deck is not a complete one.
    pub fn with_deck(deck: Deck) -> (game: Option<GameController>)
        requires
            deck.wf(),
        ensures
            game is Some <==> deck@.len() == 52,
            game is Some ==> game->Some_0.wf() && game->Some_0@ == (RoundState {
                deck: deck@,
                player: Seq::<Card>::empty(),
                dealer: Seq::<Card>::empty(),
                phase: Phase::Setup,
            }),
    {
        if deck.len() != 52 {
            return None;
        }
        let game = GameController {
            deck,
            player_hand: Hand::new(),
            dealer_hand: Hand::new(),
            phase: Phase::Setup,
        };
        assert(game@.in_play() =~= game@.deck);
        Some(game)
    }

    /// Where the round stands.
    pub fn phase(&self) -> (phase: Phase)
        ensures
            phase == self@.phase,
    {
        self.phase
    }

    /// The player's hand.
    pub fn player_hand(&self) -> (hand: &Hand)
        ensures
            hand@ == self@.player,
    {
        &self.player_hand
    }

    /// The dealer's hand.
    pub fn dealer_hand(&self) -> (hand: &Hand)
        ensures
            hand@ == self@.dealer,
    {
        &self.dealer_hand
    }

    /// The deck that the round plays from.
    pub fn deck(&self) -> (deck: &Deck)
        ensures
            deck@ == self@.deck,
    {
        &self.deck
    }

    /// Deals the opening hands from the deck as it lies: one card to the
    /// player, one to the dealer, and the same again. The player is then
    /// to decide.
    pub fn deal_opening(&mut self)
        requires
            old(self).wf(),
            old(self)@.phase == Phase::Setup,
        ensures
            final(self).wf(),
            final(self)@ == opening_deal(old(self)@.deck),
    {
        proof {
            lemma_hand_in_play(self@);
            lemma_deal_to_player(self@);
        }
        let first = self.deck.deal_card();
        self.player_hand.add(first);
        proof {
            lemma_deal_to_dealer(self@);
        }
        let second = self.deck.deal_card();
        self.dealer_hand.add(second);
        proof {
            lemma_deal_to_player(self@);
        }
        let third = self.deck.deal_card();
        self.player_hand.add(third);
        proof {
            lemma_deal_to_dealer(self@);
        }
        let fourth = self.deck.deal_card();
        self.dealer_hand.add(fourth);
        self.phase = Phase::PlayerTurn;
        proof {
            let start = old(self)@.deck;
            assert(self@.deck =~= start.take(start.len() - 4));
            assert(self@.player =~= seq![first, third]);
            assert(self@.dealer =~= seq![second, fourth]);
            lemma_hand_in_play(self@);
            assert(self@.player[0].wf() && self@.player[1].wf()) by {
                lemma_cards_in_play_wf(self@);
            }
            lemma_two_cards_not_bust(self@.player);
        }
    }

    /// Shuffles the deck and deals the opening hands from it. The round is
    /// afterwards what the opening deal gives from some order of the cards
    /// that the deck held.
    pub fn deal_initial_hands(&mut self)
        requires
            old(self).wf(),
            old(self)@.phase == Phase::Setup,
        ensures
            final(self).wf(),
            exists|order: Seq<Card>|
                order.to_multiset() == old(self)@.deck.to_multiset() && final(self)@
                    == #[trigger] opening_deal(order),
    {
        proof {
            lemma_hand_in_play(self@);
        }
        self.deck.shuffle();
        let ghost order = self@.deck;
        proof {
            assert(self@.in_play() =~= self@.deck);
        }
        self.deal_opening();
        assert(self@ == opening_deal(order));
    }

    /// Applies the player's decision. On a hit the player gets the next
    /// card, and the round is over at once if that takes the hand past 21;
    /// otherwise the player is asked again. On a stand no card moves and it
    /// is the dealer's turn. Returns the phase that the round is in then.
    pub fn player_decision(&mut self, decision: Decision) -> (phase: Phase)
        requires
            old(self).wf(),
            old(self)@.phase == Phase::PlayerTurn,
        ensures
            final(self).wf(),
            phase == final(self)@.phase,
            final(self)@ == after_decision(old(self)@, decision),
    {
        proof {
            lemma_hand_in_play(self@);
        }
        match decision {
            Decision::Stand => {
                self.phase = Phase::DealerTurn;
            },
            Decision::Hit => {
                proof {
                    lemma_deal_to_player(self@);
                }
                let card = self.deck.deal_card();
                self.player_hand.add(card);
                proof {
                    lemma_hand_in_play(self@);
                }
                if self.player_hand.calculate_hand_total() > BLACKJACK {
                    self.phase = Phase::Resolved;
                }
            },
        }
        self.phase
    }

    /// Takes a line that the player typed at the prompt. A line that reads
    /// as a decision is applied and returned; any other line changes
    /// nothing, and the player is to be asked again.
    pub fn player_turn(&mut self, line: &str) -> (decision: Option<Decision>)
        requires
            old(self).wf(),
            old(self)@.phase == Phase::PlayerTurn,
        ensures
            final(self).wf(),
            decision == decision_of(normalized(line@)),
            final(self)@ == match decision {
                Some(taken) => after_decision(old(self)@, taken),
                None => old(self)@,
            },
    {
        let decision = parse_decision(line);
        if let Some(taken) = decision {
            self.player_decision(taken);
        }
        decision
    }

    /// Plays the dealer's hand: the dealer draws while the hand totals less
    /// than 17 and stands as soon as it totals 17 or more, bust or not.
    /// Returns the number of cards drawn.
    pub fn dealer_turn(&mut self) -> (drawn: usize)
        requires
            old(self).wf(),
            old(self)@.phase == Phase::DealerTurn,
        ensures
            final(self).wf(),
            final(self)@.phase == Phase::Resolved,
            final(self)@.player == old(self)@.player,
            drawn <= old(self)@.deck.len(),
            final(self)@.deck == old(self)@.deck.take(old(self)@.deck.len() - drawn),
            final(self)@.dealer == old(self)@.dealer + dealt(old(self)@.deck, drawn as int),
            hand_total(final(self)@.dealer) >= 17,
            forall|n: int|
                0 <= n < drawn ==> hand_total(
                    old(self)@.dealer + #[trigger] dealt(old(self)@.deck, n),
                ) < 17,
    {
        let mut drawn: usize = 0;
        proof {
            lemma_hand_in_play(self@);
            assert(self@.deck.take(self@.deck.len() - 0) =~= self@.deck);
            assert(self@.dealer + dealt(self@.deck, 0) =~= self@.dealer);
        }
        while self.dealer_hand.calculate_hand_total() < DEALER_STANDS_AT
            invariant
                distinct_cards(self@.in_play()),
                self@.in_play().len() == 52,
                self@.player == old(self)@.player,
                self@.player.len() >= 2,
                hand_total(self@.player) <= 21,
                drawn <= old(self)@.deck.len(),
                self@.deck == old(self)@.deck.take(old(self)@.deck.len() - drawn),
                self@.dealer == old(self)@.dealer + dealt(old(self)@.deck, drawn as int),
                old(self)@.dealer.len() == 2,
                high_sum(self@.dealer) <= 11 * self@.dealer.len(),
                self@.dealer.len() <= 52,
                forall|n: int|
                    0 <= n < drawn ==> hand_total(
                        old(self)@.dealer + #[trigger] dealt(old(self)@.deck, n),
                    ) < 17,
            decreases self@.deck.len(),
        {
            proof {
                lemma_hand_in_play(self@);
                lemma_deal_to_dealer(self@);
            }
            let card = self.deck.deal_card();
            self.dealer_hand.add(card);
            proof {
                let start = old(self)@.deck;
                assert(card == start[start.len() - 1 - drawn]);
                assert(dealt(start, drawn + 1) =~= dealt(start, drawn as int).push(card));
                assert(self@.dealer =~= old(self)@.dealer + dealt(start, drawn + 1));
                assert(self@.deck =~= start.take(start.len() - (drawn + 1)));
                lemma_hand_in_play(self@);
            }
            drawn = drawn + 1;
        }
        self.phase = Phase::Resolved;
        proof {
            let first = old(self)@.dealer;
            let start = old(self)@.deck;
            assert forall|n: int| 2 <= n < self@.dealer.len() implies hand_total(
                #[trigger] self@.dealer.take(n),
            ) < 17 by {
                assert(self@.dealer.take(n) =~= first + dealt(start, n - 2));
            }
        }
        drawn
    }

    /// The outcome of the round, once it is resolved.
    pub fn determine_winner(&self) -> (outcome: Outcome)
        requires
            self.wf(),
            self@.phase == Phase::Resolved,
        ensures
            outcome == outcome_of(hand_total(self@.player), hand_total(self@.dealer)),
    {
        proof {
            lemma_hand_in_play(self@);
        }
        resolve(
            self.player_hand.calculate_hand_total(),
            self.dealer_hand.calculate_hand_total(),
        )
    }

    /// Discards the deck and the hands and sets up the next round with the
    /// fresh deck. Nothing of the round before is kept.
    pub fn reset(&mut self)
        ensures
            final(self).wf(),
            final(self)@ == (RoundState {
                deck: full_deck(),
                player: Seq::<Card>::empty(),
                dealer: Seq::<Card>::empty(),
                phase: Phase::Setup,
            }),
    {
        *self = GameController::new();
    }
}

/// Every card of the round is well formed.
pub proof fn lemma_cards_in_play_wf(s: RoundState)
    requires
        distinct_cards(s.in_play()),
    ensures
        forall|i: int| 0 <= i < s.deck.len() ==> (#[trigger] s.deck[i]).wf(),
        forall|i: int| 0 <= i < s.player.len() ==> (#[trigger] s.player[i]).wf(),
        forall|i: int| 0 <= i < s.dealer.len() ==> (#[trigger] s.dealer[i]).wf(),
{
    let all = s.in_play();
    let d = s.deck.len() as int;
    let p = s.player.len() as int;
    assert forall|i: int| 0 <= i < s.deck.len() implies (#[trigger] s.deck[i]).wf() by {
        assert(s.deck[i] == all[i]);
    }
    assert forall|i: int| 0 <= i < s.player.len() implies (#[trigger] s.player[i]).wf() by {
        assert(s.player[i] == all[d + i]);
    }
    assert forall|i: int| 0 <= i < s.dealer.len() implies (#[trigger] s.dealer[i]).wf() by {
        assert(s.dealer[i] == all[d + p + i]);
    }
}

} // verus!
