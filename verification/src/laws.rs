//! The library's stated laws, proved once and for all: classification is
//! total, the comparator is a total order consistent with hand equality,
//! the winner list is a subsequence of the input, and a lone valid hand
//! always wins.
use vstd::prelude::*;
use vstd::relations::total_ordering;
use vstd::string::StringSliceAdditionalSpecFns;

use crate::best_value;
use crate::cards::PokerRank;
use crate::hand::PokerHand;
use crate::hand::all_same_suit;
use crate::hand::hands_equal;
use crate::hand::card_values;
use crate::hand::hand_value_of;
use crate::hand::rank_leq;
use crate::hand::sorted_ranks_of;
use crate::parse::parse_ok;
use crate::parse::parsed_cards;
use crate::score::category_of;
use crate::score::hand_value;
use crate::score::is_straight;
use crate::score::key_of;
use crate::score::lemma_encode_order;
use crate::score::lemma_key_bounds;
use crate::score::sorted5;
use crate::score::valid_ranks;
use crate::winners_of;
use crate::winning_spec;

verus! {

/// The comparator's verdict, as a function of the two strength values.
pub open spec fn spec_cmp(a: PokerHand, b: PokerHand) -> core::cmp::Ordering {
    if a.spec_value() < b.spec_value() {
        core::cmp::Ordering::Less
    } else if a.spec_value() == b.spec_value() {
        core::cmp::Ordering::Equal
    } else {
        core::cmp::Ordering::Greater
    }
}

/// Classification is total: a well-formed hand never carries the
/// placeholder category, and carries exactly the one that `category_of`
/// assigns.
pub proof fn lemma_classification_total(h: PokerHand)
    requires
        h.wf(),
    ensures
        h.rank != PokerRank::NotRanked,
        h.rank == category_of(h.ranks(), h.is_flush()),
{
}

/// Any hand's strength value is positive (so it exceeds the empty list's
/// best-value placeholder).
pub proof fn lemma_value_positive(rs: Seq<u16>, flush: bool)
    requires
        rs.len() == 5,
    ensures
        hand_value(rs, flush) >= 1,
{
    assert(category_of(rs, flush).spec_score() >= 1);
    let k = key_of(rs, flush);
    assert(k.len() == 5 && k[0] >= 0 && k[1] >= 0 && k[2] >= 0 && k[3] >= 0 && k[4] >= 0);
}

/// The strength of any hand string that parses is positive.
pub proof fn lemma_value_positive_str(s: Seq<u8>)
    requires
        parse_ok(s),
    ensures
        hand_value_of(s) >= 1,
{
    broadcast use vstd::seq_lib::group_to_multiset_ensures;

    let cs = parsed_cards(s);
    assert(cs.len() == 5);
    let vals = card_values(cs);
    let leq = rank_leq();
    assert(total_ordering(leq));
    vals.lemma_sort_by_ensures(leq);
    let rs = sorted_ranks_of(cs);
    assert(vals.to_multiset().len() == vals.len());
    assert(rs.to_multiset().len() == rs.len());
    assert(rs.len() == 5);
    lemma_value_positive(rs, all_same_suit(cs));
}

/// Two hands have the same strength value exactly when they have the same
/// category and position-wise the same sorted ranks: the comparator can
/// neither merge different hands nor split equal ones.
#[verifier::rlimit(100)]
pub proof fn lemma_value_determines(rs1: Seq<u16>, f1: bool, rs2: Seq<u16>, f2: bool)
    requires
        sorted5(rs1),
        valid_ranks(rs1),
        sorted5(rs2),
        valid_ranks(rs2),
    ensures
        hand_value(rs1, f1) == hand_value(rs2, f2) <==> (category_of(rs1, f1) == category_of(
            rs2,
            f2,
        ) && rs1 =~= rs2),
{
    lemma_key_bounds(rs1, f1);
    lemma_key_bounds(rs2, f2);
    let c1 = category_of(rs1, f1);
    let c2 = category_of(rs2, f2);
    let k1 = key_of(rs1, f1);
    let k2 = key_of(rs2, f2);
    lemma_encode_order(c1.spec_score(), k1, c2.spec_score(), k2);
    assert(c1.spec_score() == c2.spec_score() ==> c1 == c2);
    if hand_value(rs1, f1) == hand_value(rs2, f2) {
        assert(c1 == c2);
        assert(k1[0] == k2[0] && k1[1] == k2[1] && k1[2] == k2[2] && k1[3] == k2[3] && k1[4]
            == k2[4]);
        if c1 == PokerRank::StraightFlush || c1 == PokerRank::Straight {
            assert(is_straight(rs1) && is_straight(rs2));
            assert(rs1 =~= rs2);
        } else if c1 == PokerRank::FourOfAKind {
            assert(rs1 =~= rs2);
        } else if c1 == PokerRank::FullHouse {
            assert(rs1 =~= rs2);
        } else if c1 == PokerRank::Flush || c1 == PokerRank::HighCard {
            assert(rs1 =~= rs2);
        } else if c1 == PokerRank::ThreeOfAKind {
            assert(rs1 =~= rs2);
        } else if c1 == PokerRank::TwoPair {
            assert(rs1 =~= rs2);
        } else if c1 == PokerRank::OnePair {
            assert(rs1 =~= rs2);
        }
    }
    if c1 == c2 && rs1 =~= rs2 {
        assert(k1 =~= k2);
    }
}

/// The comparator is reflexive: every hand ties with itself.
pub proof fn lemma_order_reflexive(a: PokerHand)
    ensures
        spec_cmp(a, a) == core::cmp::Ordering::Equal,
{
}

/// The comparator is antisymmetric: swapping the hands swaps the verdict.
pub proof fn lemma_order_antisymmetric(a: PokerHand, b: PokerHand)
    ensures
        spec_cmp(a, b) == core::cmp::Ordering::Equal <==> spec_cmp(b, a)
            == core::cmp::Ordering::Equal,
        spec_cmp(a, b) == core::cmp::Ordering::Less <==> spec_cmp(b, a)
            == core::cmp::Ordering::Greater,
{
}

/// The comparator is transitive: a hand no better than a second, which is
/// no better than a third, is no better than the third.
pub proof fn lemma_order_transitive(a: PokerHand, b: PokerHand, c: PokerHand)
    requires
        spec_cmp(a, b) != core::cmp::Ordering::Greater,
        spec_cmp(b, c) != core::cmp::Ordering::Greater,
    ensures
        spec_cmp(a, c) != core::cmp::Ordering::Greater,
{
}

/// The comparator is consistent with hand equality: two well-formed hands
/// tie exactly when they are equal hands — same category, same card ranks,
/// whatever their suits.
pub proof fn lemma_order_consistent_with_eq(a: PokerHand, b: PokerHand)
    requires
        a.wf(),
        b.wf(),
    ensures
        spec_cmp(a, b) == core::cmp::Ordering::Equal <==> hands_equal(a, b),
{
    lemma_value_determines(a.ranks(), a.is_flush(), b.ranks(), b.is_flush());
}

/// One list is a subsequence of another: its elements occur there, in the
/// same relative order.
pub open spec fn is_subseq<A>(x: Seq<A>, y: Seq<A>) -> bool
    decreases y.len(),
{
    if x.len() == 0 {
        true
    } else if y.len() == 0 {
        false
    } else if x.last() == y.last() {
        is_subseq(x.drop_last(), y.drop_last())
    } else {
        is_subseq(x, y.drop_last())
    }
}

/// A subsequence of a list is a subsequence of the list grown at the back.
proof fn lemma_subseq_push<A>(x: Seq<A>, y: Seq<A>, a: A)
    requires
        is_subseq(x, y),
    ensures
        is_subseq(x, y.push(a)),
    decreases y.len(), 1int,
{
    if x.len() != 0 {
        assert(y.push(a).last() == a);
        assert(y.push(a).drop_last() =~= y);
        if x.last() == a {
            lemma_subseq_weaken(x, y);
        }
    }
}

/// Dropping the last element of a subsequence keeps it a subsequence.
proof fn lemma_subseq_weaken<A>(x: Seq<A>, y: Seq<A>)
    requires
        is_subseq(x, y),
        x.len() > 0,
    ensures
        is_subseq(x.drop_last(), y),
    decreases y.len(), 0int,
{
    if y.len() == 0 {
        assert(false);
    } else {
        if x.last() == y.last() {
            lemma_subseq_push(x.drop_last(), y.drop_last(), y.last());
        } else {
            lemma_subseq_weaken(x, y.drop_last());
            lemma_subseq_push(x.drop_last(), y.drop_last(), y.last());
        }
        assert(y.drop_last().push(y.last()) =~= y);
    }
}

/// The winner list is order- and reference-preserving: it is a subsequence
/// of the input strings.
pub proof fn lemma_winners_subsequence(hs: Seq<&str>, b: int)
    ensures
        is_subseq(winners_of(hs, b), hs),
    decreases hs.len(),
{
    if hs.len() != 0 {
        lemma_winners_subsequence(hs.drop_last(), b);
        let w1 = winners_of(hs.drop_last(), b);
        if hand_value_of(hs.last().spec_bytes()) == b {
            assert(winners_of(hs, b) == w1.push(hs.last()));
            assert(w1.push(hs.last()).drop_last() =~= w1);
            assert(w1.push(hs.last()).last() == hs.last());
        } else {
            lemma_subseq_push(w1, hs.drop_last(), hs.last());
            assert(hs.drop_last().push(hs.last()) =~= hs);
        }
    }
}

/// What `winning_hands` returns is a subsequence of what it was given.
pub proof fn lemma_winning_subsequence(hs: Seq<&str>)
    ensures
        is_subseq(winning_spec(hs), hs),
{
    lemma_winners_subsequence(hs, best_value(hs));
}

/// A single valid hand is the sole winner of its own list.
pub proof fn lemma_single_hand(h: &str)
    requires
        parse_ok(h.spec_bytes()),
    ensures
        winning_spec(seq![h]) =~= seq![h],
{
    let hs = seq![h];
    assert(hs.drop_last() =~= Seq::<&str>::empty());
    assert(hs.last() == h);
    assert(best_value(Seq::<&str>::empty()) == -1);
    assert(winners_of(Seq::<&str>::empty(), best_value(hs)) =~= Seq::<&str>::empty());
    lemma_value_positive_str(h.spec_bytes());
    assert(best_value(hs) == hand_value_of(h.spec_bytes()));
    assert(winners_of(hs, best_value(hs)) =~= Seq::<&str>::empty().push(h));
}

} // verus!
