//! Playing cards: ranks, suits, and the immutable `Card` value.

use vstd::prelude::*;

verus! {

/// The four suits. Suits carry no ordering; they matter only for flush
/// detection and for giving the synthetic low ace of a wheel straight a suit.
#[derive(Clone, Copy, PartialEq, Eq, Structural, Debug)]
pub enum Suit {
    Spades,
    Hearts,
    Diamonds,
    Clubs,
}

/// A card rank. `Two` through `Ten` carry numeric labels, the face ranks
/// carry word labels, and `Ace` is the highest rank. `LowAce` is the
/// synthetic rank an ace takes on inside a wheel straight (ace playing
/// low, numeric value 1); a freshly generated deck never contains it.
#[derive(Clone, Copy, PartialEq, Eq, Structural, Debug)]
pub enum Rank {
    LowAce,
    Two,
    Three,
    Four,
    Five,
    Six,
    Seven,
    Eight,
    Nine,
    Ten,
    Jack,
    Queen,
    King,
    Ace,
}

impl Rank {
    /// The numeric value that orders ranks: 2..=10 for the number cards,
    /// 11..=14 for Jack, Queen, King and Ace, and 1 for the low ace.
    pub open spec fn value(self) -> int {
        match self {
            Rank::LowAce => 1,
            Rank::Two => 2,
            Rank::Three => 3,
            Rank::Four => 4,
            Rank::Five => 5,
            Rank::Six => 6,
            Rank::Seven => 7,
            Rank::Eight => 8,
            Rank::Nine => 9,
            Rank::Ten => 10,
            Rank::Jack => 11,
            Rank::Queen => 12,
            Rank::King => 13,
            Rank::Ace => 14,
        }
    }

    /// Whether the rank's printed label is a plain number ("1" through
    /// "10"). The face ranks are labelled with words, which do not parse
    /// as numbers; this drives the kicker exclusion and the showdown
    /// tie-break, both of which compare labels numerically.
    pub open spec fn has_numeric_label(self) -> bool {
        self.value() <= 10
    }

    /// Executable form of [`Rank::value`].
    pub fn numeric_value(&self) -> (v: u32)
        ensures
            v == self.value(),
    {
        match self {
            Rank::LowAce => 1,
            Rank::Two => 2,
            Rank::Three => 3,
            Rank::Four => 4,
            Rank::Five => 5,
            Rank::Six => 6,
            Rank::Seven => 7,
            Rank::Eight => 8,
            Rank::Nine => 9,
            Rank::Ten => 10,
            Rank::Jack => 11,
            Rank::Queen => 12,
            Rank::King => 13,
            Rank::Ace => 14,
        }
    }
}

/// An immutable playing card; equality is exact match of rank and suit.
#[derive(Clone, Copy, PartialEq, Eq, Structural, Debug)]
pub struct Card {
    pub rank: Rank,
    pub suit: Suit,
}

impl Card {
    /// The card's rank value, as ghost shorthand.
    pub open spec fn value(self) -> int {
        self.rank.value()
    }

    pub fn new(rank: Rank, suit: Suit) -> (c: Card)
        ensures
            c == (Card { rank, suit }),
    {
        Card { rank, suit }
    }

    pub fn get_rank(&self) -> (r: Rank)
        ensures
            r == self.rank,
    {
        self.rank
    }

    pub fn get_suit(&self) -> (s: Suit)
        ensures
            s == self.suit,
    {
        self.suit
    }
}

} // verus!
