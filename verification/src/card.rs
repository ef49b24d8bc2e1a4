//! Immutable value types for suits, ranks and cards, with the cyclic rank
//! successor used by straight detection.
use vstd::prelude::*;

verus! {

/// One of the four suits, in the fixed display order Club < Diamond < Heart <
/// Spade. The order plays no role in the game rules.
#[derive(Clone, Copy, Debug, PartialEq, Eq, PartialOrd, Ord, Hash, Structural)]
pub enum Suit {
    Club,
    Diamond,
    Heart,
    Spade,
}

/// One of the thirteen ranks, Ace lowest through King highest in enumeration
/// order.
#[derive(Clone, Copy, Debug, PartialEq, Eq, PartialOrd, Ord, Hash, Structural)]
pub enum Rank {
    Ace,
    Two,
    Three,
    Four,
    Five,
    Six,
    Seven,
    Eight,
    Nine,
    Ten,
    Jack,
    Queen,
    King,
}

/// The position of a rank in the enumeration order: Ace is 0, King is 12.
pub open spec fn rank_val(r: Rank) -> int {
    match r {
        Rank::Ace => 0,
        Rank::Two => 1,
        Rank::Three => 2,
        Rank::Four => 3,
        Rank::Five => 4,
        Rank::Six => 5,
        Rank::Seven => 6,
        Rank::Eight => 7,
        Rank::Nine => 8,
        Rank::Ten => 9,
        Rank::Jack => 10,
        Rank::Queen => 11,
        Rank::King => 12,
    }
}

/// The rank at a given position of the enumeration order; values outside
/// 0..=12 give King.
pub open spec fn rank_from_val(v: int) -> Rank {
    if v == 0 {
        Rank::Ace
    } else if v == 1 {
        Rank::Two
    } else if v == 2 {
        Rank::Three
    } else if v == 3 {
        Rank::Four
    } else if v == 4 {
        Rank::Five
    } else if v == 5 {
        Rank::Six
    } else if v == 6 {
        Rank::Seven
    } else if v == 7 {
        Rank::Eight
    } else if v == 8 {
        Rank::Nine
    } else if v == 9 {
        Rank::Ten
    } else if v == 10 {
        Rank::Jack
    } else if v == 11 {
        Rank::Queen
    } else {
        Rank::King
    }
}

/// The position of a suit in the enumeration order: Club is 0, Spade is 3.
pub open spec fn suit_val(s: Suit) -> int {
    match s {
        Suit::Club => 0,
        Suit::Diamond => 1,
        Suit::Heart => 2,
        Suit::Spade => 3,
    }
}

/// The suit at a given position of the enumeration order; values outside
/// 0..=3 give Spade.
pub open spec fn suit_from_val(v: int) -> Suit {
    if v == 0 {
        Suit::Club
    } else if v == 1 {
        Suit::Diamond
    } else if v == 2 {
        Suit::Heart
    } else {
        Suit::Spade
    }
}

/// The cyclic successor of a rank: each rank maps to the next one in
/// enumeration order, and King wraps around to Ace. Used only by straight
/// detection, never for general comparison.
pub open spec fn succ_spec(r: Rank) -> Rank {
    match r {
        Rank::Ace => Rank::Two,
        Rank::Two => Rank::Three,
        Rank::Three => Rank::Four,
        Rank::Four => Rank::Five,
        Rank::Five => Rank::Six,
        Rank::Six => Rank::Seven,
        Rank::Seven => Rank::Eight,
        Rank::Eight => Rank::Nine,
        Rank::Nine => Rank::Ten,
        Rank::Ten => Rank::Jack,
        Rank::Jack => Rank::Queen,
        Rank::Queen => Rank::King,
        Rank::King => Rank::Ace,
    }
}

impl Rank {
    /// The cyclic successor: the next rank in enumeration order, with King
    /// wrapping around to Ace.
    pub fn successor(self) -> (r: Rank)
        ensures
            r == succ_spec(self),
    {
        match self {
            Rank::Ace => Rank::Two,
            Rank::Two => Rank::Three,
            Rank::Three => Rank::Four,
            Rank::Four => Rank::Five,
            Rank::Five => Rank::Six,
            Rank::Six => Rank::Seven,
            Rank::Seven => Rank::Eight,
            Rank::Eight => Rank::Nine,
            Rank::Nine => Rank::Ten,
            Rank::Ten => Rank::Jack,
            Rank::Jack => Rank::Queen,
            Rank::Queen => Rank::King,
            Rank::King => Rank::Ace,
        }
    }

    /// The position of this rank in the enumeration order, as a machine
    /// integer.
    pub fn code(self) -> (v: u8)
        ensures
            v == rank_val(self),
    {
        match self {
            Rank::Ace => 0,
            Rank::Two => 1,
            Rank::Three => 2,
            Rank::Four => 3,
            Rank::Five => 4,
            Rank::Six => 5,
            Rank::Seven => 6,
            Rank::Eight => 7,
            Rank::Nine => 8,
            Rank::Ten => 9,
            Rank::Jack => 10,
            Rank::Queen => 11,
            Rank::King => 12,
        }
    }
}

/// The rank at a given position of the enumeration order, as executable
/// code; values outside 0..=12 give King.
pub fn rank_of_code(v: u8) -> (r: Rank)
    ensures
        r == rank_from_val(v as int),
{
    if v == 0 {
        Rank::Ace
    } else if v == 1 {
        Rank::Two
    } else if v == 2 {
        Rank::Three
    } else if v == 3 {
        Rank::Four
    } else if v == 4 {
        Rank::Five
    } else if v == 5 {
        Rank::Six
    } else if v == 6 {
        Rank::Seven
    } else if v == 7 {
        Rank::Eight
    } else if v == 8 {
        Rank::Nine
    } else if v == 9 {
        Rank::Ten
    } else if v == 10 {
        Rank::Jack
    } else if v == 11 {
        Rank::Queen
    } else {
        Rank::King
    }
}

/// The suit at a given position of the enumeration order, as executable
/// code; values outside 0..=3 give Spade.
pub fn suit_of_code(v: u8) -> (s: Suit)
    ensures
        s == suit_from_val(v as int),
{
    if v == 0 {
        Suit::Club
    } else if v == 1 {
        Suit::Diamond
    } else if v == 2 {
        Suit::Heart
    } else {
        Suit::Spade
    }
}

impl Suit {
    /// The position of this suit in the enumeration order, as a machine
    /// integer.
    pub fn code(self) -> (v: u8)
        ensures
            v == suit_val(self),
    {
        match self {
            Suit::Club => 0,
            Suit::Diamond => 1,
            Suit::Heart => 2,
            Suit::Spade => 3,
        }
    }
}

/// An immutable (rank, suit) pair. Every card of a 52-card deck is a distinct
/// such pair.
#[derive(Clone, Copy, Debug, PartialEq, Eq, PartialOrd, Ord, Hash, Structural)]
pub struct Card(pub Rank, pub Suit);

/// The rank position of a card in the enumeration order.
pub open spec fn card_rank(c: Card) -> int {
    rank_val(c.0)
}

/// The suit position of a card in the enumeration order.
pub open spec fn card_suit(c: Card) -> int {
    suit_val(c.1)
}

impl Card {
    /// Builds the card with the given rank and suit.
    pub fn new(r: Rank, s: Suit) -> (c: Card)
        ensures
            c == Card(r, s),
    {
        Card(r, s)
    }
}

} // verus!
