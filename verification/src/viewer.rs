//! Hands as text, in two styles: in words, as in `Jack of Hearts`, and with
//! a letter and the suit's symbol, as in `J of ♥`.

use vstd::prelude::*;
use vstd::string::StringExecFns;
use crate::card::{Card, Suit};
use crate::hand::Hand;

verus! {

/// The character of a decimal digit.
pub open spec fn digit_char(d: int) -> char {
    if d == 0 {
        '0'
    } else if d == 1 {
        '1'
    } else if d == 2 {
        '2'
    } else if d == 3 {
        '3'
    } else if d == 4 {
        '4'
    } else if d == 5 {
        '5'
    } else if d == 6 {
        '6'
    } else if d == 7 {
        '7'
    } else if d == 8 {
        '8'
    } else {
        '9'
    }
}

/// A number in decimal, without leading zeros.
pub open spec fn decimal(n: nat) -> Seq<char>
    decreases n,
{
    if n < 10 {
        seq![digit_char(n as int)]
    } else {
        decimal(n / 10).push(digit_char((n % 10) as int))
    }
}

/// The name of a rank in words: the four court and ace names, and the
/// number for the others.
pub open spec fn rank_word(rank: u8) -> Seq<char> {
    if rank == 1 {
        "Ace"@
    } else if rank == 11 {
        "Jack"@
    } else if rank == 12 {
        "Queen"@
    } else if rank == 13 {
        "King"@
    } else {
        decimal(rank as nat)
    }
}

/// The short name of a rank: a letter for ace, jack, queen and king, and
/// the number for the others.
pub open spec fn rank_letter(rank: u8) -> Seq<char> {
    if rank == 1 {
        "A"@
    } else if rank == 11 {
        "J"@
    } else if rank == 12 {
        "Q"@
    } else if rank == 13 {
        "K"@
    } else {
        decimal(rank as nat)
    }
}

/// The name of a suit.
pub open spec fn suit_word(suit: Suit) -> Seq<char> {
    match suit {
        Suit::Hearts => "Hearts"@,
        Suit::Diamonds => "Diamonds"@,
        Suit::Spades => "Spades"@,
        Suit::Clubs => "Clubs"@,
    }
}

/// The symbol of a suit.
pub open spec fn suit_glyph(suit: Suit) -> Seq<char> {
    match suit {
        Suit::Hearts => "♥"@,
        Suit::Diamonds => "♦"@,
        Suit::Spades => "♠"@,
        Suit::Clubs => "♣"@,
    }
}

/// The texts of the cards one after the other, with a comma and a space
/// between two of them.
pub open spec fn joined(parts: Seq<Seq<char>>) -> Seq<char>
    decreases parts.len(),
{
    if parts.len() == 0 {
        Seq::empty()
    } else if parts.len() == 1 {
        parts[0]
    } else {
        joined(parts.drop_last()) + ", "@ + parts.last()
    }
}

/// A style in which cards are written out. A card's text depends on its
/// rank and suit alone.
pub trait Viewer: Sized {
    /// The text of one card in this style.
    spec fn card_text(&self, card: Card) -> Seq<char>;

    /// Writes out one card.
    fn draw_card(&self, card: &Card) -> (text: String)
        ensures
            text@ == self.card_text(*card),
    ;
}

/// The text of a hand in a style.
pub open spec fn hand_text<V: Viewer>(viewer: &V, cards: Seq<Card>) -> Seq<char> {
    joined(Seq::new(cards.len(), |i: int| viewer.card_text(cards[i])))
}

/// The style that names ranks and suits in words.
pub struct CardAlphaViewer;

/// The style that writes a letter or a number for the rank and a symbol for
/// the suit.
pub struct CardGlyphViewer;

/// The digit as a text of one character.
fn digit_text(d: u8) -> (text: &'static str)
    requires
        d < 10,
    ensures
        text@ == seq![digit_char(d as int)],
{
    proof {
        reveal_strlit("0");
        reveal_strlit("1");
        reveal_strlit("2");
        reveal_strlit("3");
        reveal_strlit("4");
        reveal_strlit("5");
        reveal_strlit("6");
        reveal_strlit("7");
        reveal_strlit("8");
        reveal_strlit("9");
    }
    let text = if d == 0 {
        "0"
    } else if d == 1 {
        "1"
    } else if d == 2 {
        "2"
    } else if d == 3 {
        "3"
    } else if d == 4 {
        "4"
    } else if d == 5 {
        "5"
    } else if d == 6 {
        "6"
    } else if d == 7 {
        "7"
    } else if d == 8 {
        "8"
    } else {
        "9"
    };
    assert(text@ =~= seq![digit_char(d as int)]);
    text
}

/// Writes a number in decimal at the end of a text.
fn append_decimal(text: &mut String, n: u8)
    ensures
        final(text)@ == old(text)@ + decimal(n as nat),
{
    proof {
        reveal_with_fuel(decimal, 3);
    }
    if n >= 100 {
        text.append(digit_text(n / 100));
    }
    if n >= 10 {
        text.append(digit_text((n / 10) % 10));
    }
    text.append(digit_text(n % 10));
    assert(text@ =~= old(text)@ + decimal(n as nat));
}

/// Writes out a hand in a style: its cards in order, separated by a comma
/// and a space.
pub fn draw_hand<V: Viewer>(viewer: &V, model: &Hand) -> (text: String)
    ensures
        text@ == hand_text(viewer, model@),
{
    let cards = model.cards();
    let mut text = String::new();
    let mut i: usize = 0;
    while i < cards.len()
        invariant
            i <= cards@.len(),
            text@ == hand_text(viewer, cards@.take(i as int)),
        decreases cards@.len() - i,
    {
        let ghost before = Seq::new(i as nat, |k: int| viewer.card_text(cards@.take(i as int)[k]));
        let ghost after = Seq::new(
            (i + 1) as nat,
            |k: int| viewer.card_text(cards@.take(i + 1)[k]),
        );
        if i > 0 {
            text.append(", ");
        }
        let one = viewer.draw_card(&cards[i]);
        text.append(one.as_str());
        proof {
            assert(after.drop_last() =~= before);
            assert(after.last() == one@);
            if i == 0 {
                assert(text@ =~= one@);
            } else {
                assert(text@ =~= joined(before) + ", "@ + one@);
            }
        }
        i = i + 1;
    }
    assert(cards@.take(i as int) =~= cards@);
    text
}

impl Viewer for CardAlphaViewer {
    open spec fn card_text(&self, card: Card) -> Seq<char> {
        rank_word(card.rank) + " of "@ + suit_word(card.suit)
    }

    fn draw_card(&self, card: &Card) -> (text: String) {
        let mut text = String::new();
        if card.rank == 1 {
            text.append("Ace");
        } else if card.rank == 11 {
            text.append("Jack");
        } else if card.rank == 12 {
            text.append("Queen");
        } else if card.rank == 13 {
            text.append("King");
        } else {
            append_decimal(&mut text, card.rank);
        }
        text.append(" of ");
        text.append(
            match card.suit {
                Suit::Hearts => "Hearts",
                Suit::Diamonds => "Diamonds",
                Suit::Spades => "Spades",
                Suit::Clubs => "Clubs",
            },
        );
        assert(text@ =~= self.card_text(*card));
        text
    }
}

impl Viewer for CardGlyphViewer {
    open spec fn card_text(&self, card: Card) -> Seq<char> {
        rank_letter(card.rank) + " of "@ + suit_glyph(card.suit)
    }

    fn draw_card(&self, card: &Card) -> (text: String) {
        let mut text = String::new();
        if card.rank == 1 {
            text.append("A");
        } else if card.rank == 11 {
            text.append("J");
        } else if card.rank == 12 {
            text.append("Q");
        } else if card.rank == 13 {
            text.append("K");
        } else {
            append_decimal(&mut text, card.rank);
        }
        text.append(" of ");
        text.append(
            match card.suit {
                Suit::Hearts => "♥",
                Suit::Diamonds => "♦",
                Suit::Spades => "♠",
                Suit::Clubs => "♣",
            },
        );
        assert(text@ =~= self.card_text(*card));
        text
    }
}

impl CardAlphaViewer {
    /// Writes out a hand in words, as in `Ace of Spades, 10 of Hearts`.
    pub fn draw(&self, model: &Hand) -> (text: String)
        ensures
            text@ == hand_text(self, model@),
    {
        draw_hand(self, model)
    }
}

impl CardGlyphViewer {
    /// Writes out a hand with letters and suit symbols, as in
    /// `A of ♠, 10 of ♥`.
    pub fn draw(&self, model: &Hand) -> (text: String)
        ensures
            text@ == hand_text(self, model@),
    {
        draw_hand(self, model)
    }
}

} // verus!
