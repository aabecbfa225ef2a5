//! The card model: ranks of the ten poker categories, suits, and single cards.
use vstd::prelude::*;

verus! {

/// The ten poker hand categories, from best to worst. `NotRanked` is only a
/// construction-time placeholder: classification of a valid five-card hand
/// always produces one of the other nine.
#[derive(Clone, Copy, PartialEq, Eq, Structural, Debug)]
pub enum PokerRank {
    StraightFlush,
    FourOfAKind,
    FullHouse,
    Flush,
    Straight,
    ThreeOfAKind,
    TwoPair,
    OnePair,
    HighCard,
    NotRanked,
}

impl PokerRank {
    /// Numeric precedence of a category: higher beats lower outright.
    pub open spec fn spec_score(self) -> int {
        match self {
            PokerRank::StraightFlush => 9,
            PokerRank::FourOfAKind => 8,
            PokerRank::FullHouse => 7,
            PokerRank::Flush => 6,
            PokerRank::Straight => 5,
            PokerRank::ThreeOfAKind => 4,
            PokerRank::TwoPair => 3,
            PokerRank::OnePair => 2,
            PokerRank::HighCard => 1,
            PokerRank::NotRanked => 0,
        }
    }

    /// Executable form of the category's precedence value.
    pub fn score(&self) -> (r: u32)
        ensures
            r == self.spec_score(),
    {
        match self {
            PokerRank::StraightFlush => 9,
            PokerRank::FourOfAKind => 8,
            PokerRank::FullHouse => 7,
            PokerRank::Flush => 6,
            PokerRank::Straight => 5,
            PokerRank::ThreeOfAKind => 4,
            PokerRank::TwoPair => 3,
            PokerRank::OnePair => 2,
            PokerRank::HighCard => 1,
            PokerRank::NotRanked => 0,
        }
    }
}

/// A card's suit. `Joker` is the sentinel for an unrecognized suit character;
/// it is a parse defect, never a playable suit.
#[derive(Clone, Copy, PartialEq, Eq, Structural, Debug)]
pub enum CardSuit {
    Spade,
    Heart,
    Diamond,
    Club,
    Joker,
}

/// The suit that a (case-insensitive) abbreviation character denotes;
/// everything besides `S`, `H`, `D`, `C` maps to the `Joker` sentinel.
pub open spec fn suit_of_char(ch: char) -> CardSuit {
    if ch == 'S' || ch == 's' {
        CardSuit::Spade
    } else if ch == 'H' || ch == 'h' {
        CardSuit::Heart
    } else if ch == 'D' || ch == 'd' {
        CardSuit::Diamond
    } else if ch == 'C' || ch == 'c' {
        CardSuit::Club
    } else {
        CardSuit::Joker
    }
}

impl CardSuit {
    /// Decodes a suit abbreviation character, case-insensitively.
    pub fn from_abbrev(ch: char) -> (r: Self)
        ensures
            r == suit_of_char(ch),
    {
        match ch {
            'S' | 's' => Self::Spade,
            'H' | 'h' => Self::Heart,
            'D' | 'd' => Self::Diamond,
            'C' | 'c' => Self::Club,
            _ => Self::Joker,
        }
    }
}

/// One playing card: a rank value (2 through 14, ace = 14) and a suit.
#[derive(Clone, Copy, PartialEq, Eq, Structural, Debug)]
pub struct Card {
    pub suit: CardSuit,
    pub value: u16,
}

/// A card drawn from a standard deck: rank 2 through 14 and a real suit.
pub open spec fn valid_card(c: Card) -> bool {
    &&& 2 <= c.value <= 14
    &&& c.suit != CardSuit::Joker
}

} // verus!
