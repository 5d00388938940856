//! Playing cards: a rank from 1 (ace) to 13 (king) and one of four suits.

use vstd::prelude::*;

verus! {

/// The four suits, in the order in which a fresh deck lists them.
#[derive(Clone, Copy, Debug, PartialEq, Eq, Structural, Hash)]
pub enum Suit {
    Hearts,
    Diamonds,
    Spades,
    Clubs,
}

/// A playing card. Rank 1 is the ace, 11 to 13 are jack, queen and king.
#[derive(Clone, Copy, Debug, PartialEq, Eq, Structural, Hash)]
pub struct Card {
    pub rank: u8,
    pub suit: Suit,
}

/// The lowest rank, the ace.
pub const ACE: u8 = 1;

/// The highest rank, the king.
pub const KING: u8 = 13;

/// What a rank counts for before any ace is lowered: 11 for an ace, 10 for
/// jack, queen and king, the rank itself otherwise.
pub open spec fn rank_value(rank: u8) -> nat {
    if rank == 1 {
        11
    } else if 11 <= rank <= 13 {
        10
    } else {
        rank as nat
    }
}

/// What a rank counts for when an ace counts 1.
pub open spec fn rank_low_value(rank: u8) -> nat {
    if rank == 1 {
        1
    } else {
        rank_value(rank)
    }
}

impl Suit {
    /// The position of the suit in a fresh deck, from 0 to 3.
    pub open spec fn index(self) -> nat {
        match self {
            Suit::Hearts => 0,
            Suit::Diamonds => 1,
            Suit::Spades => 2,
            Suit::Clubs => 3,
        }
    }

    /// The suit at a position from 0 to 3.
    pub open spec fn at(i: nat) -> Suit {
        if i == 0 {
            Suit::Hearts
        } else if i == 1 {
            Suit::Diamonds
        } else if i == 2 {
            Suit::Spades
        } else {
            Suit::Clubs
        }
    }

    /// The suit at position `i` of a fresh deck's suit order.
    pub(crate) fn from_index(i: u8) -> (suit: Suit)
        requires
            i < 4,
        ensures
            suit == Suit::at(i as nat),
            suit.index() == i,
    {
        if i == 0 {
            Suit::Hearts
        } else if i == 1 {
            Suit::Diamonds
        } else if i == 2 {
            Suit::Spades
        } else {
            Suit::Clubs
        }
    }
}

impl Card {
    /// A card is well formed when its rank lies between ace and king.
    pub open spec fn wf(self) -> bool {
        1 <= self.rank <= 13
    }

    /// The card's value with an ace counted high.
    pub open spec fn value(self) -> nat {
        rank_value(self.rank)
    }

    /// The card's value with an ace counted low.
    pub open spec fn low_value(self) -> nat {
        rank_low_value(self.rank)
    }

    pub open spec fn is_ace(self) -> bool {
        self.rank == 1
    }

    /// Makes a card, or nothing where the rank is not one of the thirteen.
    pub fn new(rank: u8, suit: Suit) -> (card: Option<Card>)
        ensures
            card == if 1 <= rank <= 13 {
                Some(Card { rank, suit })
            } else {
                None
            },
    {
        if ACE <= rank && rank <= KING {
            Some(Card { rank, suit })
        } else {
            None
        }
    }

    /// The value the card adds to a hand with an ace counted high.
    pub fn base_value(&self) -> (v: u32)
        ensures
            v == self.value(),
    {
        if self.rank == ACE {
            11
        } else if 11 <= self.rank && self.rank <= KING {
            10
        } else {
            let v: u32 = self.rank.into();
            v
        }
    }
}

} // verus!
