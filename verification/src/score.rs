//! The mathematical model of hand strength.
//!
//! A classified hand is judged by its five card ranks in ascending order
//! together with whether all five cards share a suit. From those two pieces
//! this module defines the hand's category, its tie-break key (the sequence
//! of ranks compared within a category), and a single integer `hand_value`
//! that orders hands exactly as the comparator must: category first, then
//! the key lexicographically.
use vstd::prelude::*;

use crate::cards::PokerRank;

verus! {

/// Five rank values in ascending order.
pub open spec fn sorted5(rs: Seq<u16>) -> bool {
    &&& rs.len() == 5
    &&& rs[0] <= rs[1] <= rs[2] <= rs[3] <= rs[4]
}

/// Five rank values each between 2 and 14.
pub open spec fn valid_ranks(rs: Seq<u16>) -> bool {
    &&& rs.len() == 5
    &&& forall|i: int| 0 <= i < 5 ==> 2 <= #[trigger] rs[i] <= 14
}

/// Five consecutive ranks with the ace (if any) kept high.
pub open spec fn is_straight_high(rs: Seq<u16>) -> bool {
    &&& rs[1] == rs[0] + 1
    &&& rs[2] == rs[1] + 1
    &&& rs[3] == rs[2] + 1
    &&& rs[4] == rs[3] + 1
}

/// The ace-low straight: ace reinterpreted as 1 below the 2-3-4-5.
pub open spec fn is_ace_low(rs: Seq<u16>) -> bool {
    rs =~= seq![2u16, 3u16, 4u16, 5u16, 14u16]
}

pub open spec fn is_straight(rs: Seq<u16>) -> bool {
    is_straight_high(rs) || is_ace_low(rs)
}

/// The straight's representative rank: its top card, which is the 5 when the
/// ace is played low.
pub open spec fn straight_top(rs: Seq<u16>) -> int {
    if is_ace_low(rs) {
        5
    } else {
        rs[4] as int
    }
}

/// Four cards of one rank (positional, on a sorted sequence).
pub open spec fn has_quad(rs: Seq<u16>) -> bool {
    rs[0] == rs[3] || rs[1] == rs[4]
}

/// A group of three and a group of two.
pub open spec fn has_full(rs: Seq<u16>) -> bool {
    (rs[0] == rs[2] && rs[3] == rs[4]) || (rs[0] == rs[1] && rs[2] == rs[4])
}

/// Three cards of one rank.
pub open spec fn has_trip(rs: Seq<u16>) -> bool {
    rs[0] == rs[2] || rs[1] == rs[3] || rs[2] == rs[4]
}

/// Two distinct pairs.
pub open spec fn has_two_pair(rs: Seq<u16>) -> bool {
    ||| (rs[0] == rs[1] && rs[2] == rs[3])
    ||| (rs[0] == rs[1] && rs[3] == rs[4])
    ||| (rs[1] == rs[2] && rs[3] == rs[4])
}

/// At least one pair.
pub open spec fn has_pair(rs: Seq<u16>) -> bool {
    rs[0] == rs[1] || rs[1] == rs[2] || rs[2] == rs[3] || rs[3] == rs[4]
}

/// The category of a hand with sorted ranks `rs`, all of one suit iff
/// `flush`: the first match in strict descending category precedence.
pub open spec fn category_of(rs: Seq<u16>, flush: bool) -> PokerRank {
    if flush && is_straight(rs) {
        PokerRank::StraightFlush
    } else if has_quad(rs) {
        PokerRank::FourOfAKind
    } else if has_full(rs) {
        PokerRank::FullHouse
    } else if flush {
        PokerRank::Flush
    } else if is_straight(rs) {
        PokerRank::Straight
    } else if has_trip(rs) {
        PokerRank::ThreeOfAKind
    } else if has_two_pair(rs) {
        PokerRank::TwoPair
    } else if has_pair(rs) {
        PokerRank::OnePair
    } else {
        PokerRank::HighCard
    }
}

/// The tie-break key of a hand: the up-to-five rank values compared, in
/// order, between two hands of the same category, padded with zeroes.
/// Group ranks come before kickers; kickers descend with ace high.
pub open spec fn key_of(rs: Seq<u16>, flush: bool) -> Seq<int> {
    match category_of(rs, flush) {
        PokerRank::StraightFlush | PokerRank::Straight => seq![straight_top(rs), 0, 0, 0, 0],
        PokerRank::FourOfAKind => if rs[0] == rs[3] {
            seq![rs[0] as int, rs[4] as int, 0, 0, 0]
        } else {
            seq![rs[1] as int, rs[0] as int, 0, 0, 0]
        },
        PokerRank::FullHouse => if rs[0] == rs[2] {
            seq![rs[0] as int, rs[3] as int, 0, 0, 0]
        } else {
            seq![rs[2] as int, rs[0] as int, 0, 0, 0]
        },
        PokerRank::Flush | PokerRank::HighCard => seq![
            rs[4] as int,
            rs[3] as int,
            rs[2] as int,
            rs[1] as int,
            rs[0] as int,
        ],
        PokerRank::ThreeOfAKind => if rs[0] == rs[2] {
            seq![rs[0] as int, rs[4] as int, rs[3] as int, 0, 0]
        } else if rs[1] == rs[3] {
            seq![rs[1] as int, rs[4] as int, rs[0] as int, 0, 0]
        } else {
            seq![rs[2] as int, rs[1] as int, rs[0] as int, 0, 0]
        },
        PokerRank::TwoPair => if rs[0] == rs[1] && rs[2] == rs[3] {
            seq![rs[2] as int, rs[0] as int, rs[4] as int, 0, 0]
        } else if rs[0] == rs[1] && rs[3] == rs[4] {
            seq![rs[3] as int, rs[0] as int, rs[2] as int, 0, 0]
        } else {
            seq![rs[3] as int, rs[1] as int, rs[0] as int, 0, 0]
        },
        PokerRank::OnePair => if rs[0] == rs[1] {
            seq![rs[0] as int, rs[4] as int, rs[3] as int, rs[2] as int, 0]
        } else if rs[1] == rs[2] {
            seq![rs[1] as int, rs[4] as int, rs[3] as int, rs[0] as int, 0]
        } else if rs[2] == rs[3] {
            seq![rs[2] as int, rs[4] as int, rs[1] as int, rs[0] as int, 0]
        } else {
            seq![rs[3] as int, rs[2] as int, rs[1] as int, rs[0] as int, 0]
        },
        PokerRank::NotRanked => seq![0, 0, 0, 0, 0],
    }
}

/// The rank values of the cards that define the category (the ranked
/// group), in comparison order: group ranks first (higher pair before lower
/// pair, triple before pair), straights ascending with an ace played low
/// counted as 1, flushes descending.
pub open spec fn ranked_spec(rs: Seq<u16>, flush: bool) -> Seq<int> {
    match category_of(rs, flush) {
        PokerRank::StraightFlush | PokerRank::Straight => if is_ace_low(rs) {
            seq![1, 2, 3, 4, 5]
        } else {
            seq![rs[0] as int, rs[1] as int, rs[2] as int, rs[3] as int, rs[4] as int]
        },
        PokerRank::FourOfAKind => if rs[0] == rs[3] {
            seq![rs[0] as int, rs[1] as int, rs[2] as int, rs[3] as int]
        } else {
            seq![rs[1] as int, rs[2] as int, rs[3] as int, rs[4] as int]
        },
        PokerRank::FullHouse => if rs[0] == rs[2] {
            seq![rs[0] as int, rs[1] as int, rs[2] as int, rs[3] as int, rs[4] as int]
        } else {
            seq![rs[2] as int, rs[3] as int, rs[4] as int, rs[0] as int, rs[1] as int]
        },
        PokerRank::Flush => seq![
            rs[4] as int,
            rs[3] as int,
            rs[2] as int,
            rs[1] as int,
            rs[0] as int,
        ],
        PokerRank::ThreeOfAKind => if rs[0] == rs[2] {
            seq![rs[0] as int, rs[1] as int, rs[2] as int]
        } else if rs[1] == rs[3] {
            seq![rs[1] as int, rs[2] as int, rs[3] as int]
        } else {
            seq![rs[2] as int, rs[3] as int, rs[4] as int]
        },
        PokerRank::TwoPair => if rs[0] == rs[1] && rs[2] == rs[3] {
            seq![rs[2] as int, rs[3] as int, rs[0] as int, rs[1] as int]
        } else if rs[0] == rs[1] && rs[3] == rs[4] {
            seq![rs[3] as int, rs[4] as int, rs[0] as int, rs[1] as int]
        } else {
            seq![rs[3] as int, rs[4] as int, rs[1] as int, rs[2] as int]
        },
        PokerRank::OnePair => if rs[0] == rs[1] {
            seq![rs[0] as int, rs[1] as int]
        } else if rs[1] == rs[2] {
            seq![rs[1] as int, rs[2] as int]
        } else if rs[2] == rs[3] {
            seq![rs[2] as int, rs[3] as int]
        } else {
            seq![rs[3] as int, rs[4] as int]
        },
        PokerRank::HighCard => seq![],
        PokerRank::NotRanked => seq![],
    }
}

/// The rank values of the kicker cards, descending, ace always high.
pub open spec fn spares_spec(rs: Seq<u16>, flush: bool) -> Seq<int> {
    match category_of(rs, flush) {
        PokerRank::FourOfAKind => if rs[0] == rs[3] {
            seq![rs[4] as int]
        } else {
            seq![rs[0] as int]
        },
        PokerRank::ThreeOfAKind => if rs[0] == rs[2] {
            seq![rs[4] as int, rs[3] as int]
        } else if rs[1] == rs[3] {
            seq![rs[4] as int, rs[0] as int]
        } else {
            seq![rs[1] as int, rs[0] as int]
        },
        PokerRank::TwoPair => if rs[0] == rs[1] && rs[2] == rs[3] {
            seq![rs[4] as int]
        } else if rs[0] == rs[1] && rs[3] == rs[4] {
            seq![rs[2] as int]
        } else {
            seq![rs[0] as int]
        },
        PokerRank::OnePair => if rs[0] == rs[1] {
            seq![rs[4] as int, rs[3] as int, rs[2] as int]
        } else if rs[1] == rs[2] {
            seq![rs[4] as int, rs[3] as int, rs[0] as int]
        } else if rs[2] == rs[3] {
            seq![rs[4] as int, rs[1] as int, rs[0] as int]
        } else {
            seq![rs[2] as int, rs[1] as int, rs[0] as int]
        },
        PokerRank::HighCard => seq![
            rs[4] as int,
            rs[3] as int,
            rs[2] as int,
            rs[1] as int,
            rs[0] as int,
        ],
        _ => seq![],
    }
}

/// Packs a category score and a five-place key into one integer, base 15:
/// every key place holds a rank value at most 14, so comparing the packed
/// integers is exactly the lexicographic comparison of (category, key).
pub open spec fn encode5(cat: int, key: Seq<int>) -> int {
    cat * 759375 + key[0] * 50625 + key[1] * 3375 + key[2] * 225 + key[3] * 15 + key[4]
}

/// The single integer that orders hands: category precedence first, then
/// the category's tie-break key, place by place.
pub open spec fn hand_value(rs: Seq<u16>, flush: bool) -> int {
    encode5(category_of(rs, flush).spec_score(), key_of(rs, flush))
}

/// Every key place of a valid hand is a rank value (or padding zero), so it
/// fits its base-15 place.
pub proof fn lemma_key_bounds(rs: Seq<u16>, flush: bool)
    requires
        sorted5(rs),
        valid_ranks(rs),
    ensures
        key_of(rs, flush).len() == 5,
        forall|i: int| 0 <= i < 5 ==> 0 <= #[trigger] key_of(rs, flush)[i] <= 14,
{
    assert(2 <= rs[0] <= 14 && 2 <= rs[1] <= 14 && 2 <= rs[2] <= 14 && 2 <= rs[3] <= 14 && 2
        <= rs[4] <= 14);
    assert forall|i: int| 0 <= i < 5 implies 0 <= #[trigger] key_of(rs, flush)[i] <= 14 by {
        if i == 0 {
        } else if i == 1 {
        } else if i == 2 {
        } else if i == 3 {
        }
    }
}

/// Lexicographic order of (category, key) pairs, spelled out.
pub open spec fn lex_less(c1: int, k1: Seq<int>, c2: int, k2: Seq<int>) -> bool {
    ||| c1 < c2
    ||| (c1 == c2 && k1[0] < k2[0])
    ||| (c1 == c2 && k1[0] == k2[0] && k1[1] < k2[1])
    ||| (c1 == c2 && k1[0] == k2[0] && k1[1] == k2[1] && k1[2] < k2[2])
    ||| (c1 == c2 && k1[0] == k2[0] && k1[1] == k2[1] && k1[2] == k2[2] && k1[3] < k2[3])
    ||| (c1 == c2 && k1[0] == k2[0] && k1[1] == k2[1] && k1[2] == k2[2] && k1[3] == k2[3]
        && k1[4] < k2[4])
}

/// Comparing packed integers is comparing (category, key) lexicographically.
pub proof fn lemma_encode_order(c1: int, k1: Seq<int>, c2: int, k2: Seq<int>)
    requires
        0 <= c1 <= 9,
        0 <= c2 <= 9,
        k1.len() == 5,
        k2.len() == 5,
        forall|i: int| 0 <= i < 5 ==> 0 <= #[trigger] k1[i] <= 14,
        forall|i: int| 0 <= i < 5 ==> 0 <= #[trigger] k2[i] <= 14,
    ensures
        encode5(c1, k1) == encode5(c2, k2) <==> (c1 == c2 && k1[0] == k2[0] && k1[1] == k2[1]
            && k1[2] == k2[2] && k1[3] == k2[3] && k1[4] == k2[4]),
        encode5(c1, k1) < encode5(c2, k2) <==> lex_less(c1, k1, c2, k2),
{
    assert(0 <= k1[0] <= 14 && 0 <= k1[1] <= 14 && 0 <= k1[2] <= 14 && 0 <= k1[3] <= 14 && 0
        <= k1[4] <= 14);
    assert(0 <= k2[0] <= 14 && 0 <= k2[1] <= 14 && 0 <= k2[2] <= 14 && 0 <= k2[3] <= 14 && 0
        <= k2[4] <= 14);
}

} // verus!
