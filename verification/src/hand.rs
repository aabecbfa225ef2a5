//! A classified poker hand and its construction from text.
use vstd::prelude::*;
use vstd::seq_lib::group_to_multiset_ensures;
use vstd::seq_lib::lemma_sorted_unique;
use vstd::relations::total_ordering;
use vstd::relations::sorted_by;
use vstd::string::StringSliceAdditionalSpecFns;

use crate::cards::Card;
use crate::cards::CardSuit;
use crate::cards::PokerRank;
use crate::cards::valid_card;
use crate::parse::ParseError;
use crate::parse::parse_cards;
use crate::parse::parse_hand;
use crate::parse::parse_ok;
use crate::parse::parsed_cards;
use crate::score::category_of;
use crate::score::hand_value;
use crate::score::is_ace_low;
use crate::score::is_straight_high;
use crate::score::key_of;
use crate::score::lemma_encode_order;
use crate::score::lemma_key_bounds;
use crate::score::ranked_spec;
use crate::score::sorted5;
use crate::score::spares_spec;
use crate::score::valid_ranks;

verus! {

/// The rank values of a card sequence, in the same order.
pub open spec fn card_values(cs: Seq<Card>) -> Seq<u16> {
    cs.map_values(|c: Card| c.value)
}

/// All cards share one suit.
pub open spec fn all_same_suit(cs: Seq<Card>) -> bool {
    forall|i: int, j: int| 0 <= i < cs.len() && 0 <= j < cs.len() ==> #[trigger] cs[i].suit
        == #[trigger] cs[j].suit
}

/// Rank order on rank values.
pub open spec fn rank_leq() -> spec_fn(u16, u16) -> bool {
    |x: u16, y: u16| x <= y
}

/// The rank values of a card sequence, sorted ascending.
pub open spec fn sorted_ranks_of(cs: Seq<Card>) -> Seq<u16> {
    card_values(cs).sort_by(rank_leq())
}

/// The strength of a hand given as unsorted cards.
pub open spec fn hand_value_of_cards(cs: Seq<Card>) -> int {
    hand_value(sorted_ranks_of(cs), all_same_suit(cs))
}

/// The strength of the hand a string denotes (meaningful when it parses).
pub open spec fn hand_value_of(s: Seq<u8>) -> int {
    hand_value_of_cards(parsed_cards(s))
}

/// Every element of `b` occurs somewhere in `a` when the two hold the same
/// cards.
proof fn lemma_elem_of(a: Seq<Card>, b: Seq<Card>, i: int)
    requires
        a.to_multiset() == b.to_multiset(),
        0 <= i < b.len(),
    ensures
        exists|j: int| 0 <= j < a.len() && a[j] == b[i],
{
    broadcast use group_to_multiset_ensures;

    assert(b.contains(b[i]));
    assert(a.to_multiset().count(b[i]) > 0);
    assert(a.contains(b[i]));
}

/// Rearranging cards neither makes nor unmakes a flush.
proof fn lemma_same_suit_permutation(a: Seq<Card>, b: Seq<Card>)
    requires
        a.to_multiset() == b.to_multiset(),
    ensures
        all_same_suit(a) <==> all_same_suit(b),
{
    broadcast use group_to_multiset_ensures;

    assert(a.to_multiset().len() == a.len());
    assert(b.to_multiset().len() == b.len());
    assert(a.len() == b.len());
    if all_same_suit(a) {
        assert forall|i: int, j: int| 0 <= i < b.len() && 0 <= j < b.len() implies #[trigger] b[i].suit
            == #[trigger] b[j].suit by {
            lemma_elem_of(a, b, i);
            lemma_elem_of(a, b, j);
        }
    } else if all_same_suit(b) {
        assert forall|i: int, j: int| 0 <= i < a.len() && 0 <= j < a.len() implies #[trigger] a[i].suit
            == #[trigger] a[j].suit by {
            lemma_elem_of(b, a, i);
            lemma_elem_of(b, a, j);
        }
    }
}

/// Rearranging cards keeps them all valid.
proof fn lemma_valid_permutation(a: Seq<Card>, b: Seq<Card>)
    requires
        a.to_multiset() == b.to_multiset(),
        forall|i: int| 0 <= i < a.len() ==> valid_card(#[trigger] a[i]),
    ensures
        forall|i: int| 0 <= i < b.len() ==> valid_card(#[trigger] b[i]),
{
    assert forall|i: int| 0 <= i < b.len() implies valid_card(#[trigger] b[i]) by {
        lemma_elem_of(a, b, i);
    }
}

/// Sorts cards ascending by rank value, keeping exactly the same cards.
fn sort_cards(cards: Vec<Card>) -> (r: Vec<Card>)
    ensures
        r@.len() == cards@.len(),
        forall|i: int, j: int| 0 <= i < j < r@.len() ==> #[trigger] r@[i].value
            <= #[trigger] r@[j].value,
        r@.to_multiset() == cards@.to_multiset(),
        card_values(r@).to_multiset() == card_values(cards@).to_multiset(),
{
    broadcast use group_to_multiset_ensures;

    let n = cards.len();
    let mut out: Vec<Card> = Vec::new();
    let mut i: usize = 0;
    proof {
        assert(cards@.take(0) =~= Seq::<Card>::empty());
        assert(card_values(cards@.take(0)) =~= card_values(Seq::<Card>::empty()));
        assert(out@ =~= Seq::<Card>::empty());
        assert(card_values(out@) =~= Seq::<u16>::empty());
        assert(card_values(Seq::<Card>::empty()) =~= Seq::<u16>::empty());
    }
    while i < n
        invariant
            n == cards@.len(),
            i <= n,
            out@.len() == i,
            forall|p: int, q: int| 0 <= p < q < out@.len() ==> #[trigger] out@[p].value
                <= #[trigger] out@[q].value,
            out@.to_multiset() == cards@.take(i as int).to_multiset(),
            card_values(out@).to_multiset() == card_values(cards@.take(i as int)).to_multiset(),
        decreases n - i,
    {
        let c = cards[i];
        let mut p: usize = 0;
        while p < out.len() && out[p].value <= c.value
            invariant
                p <= out@.len(),
                forall|k: int| 0 <= k < p ==> #[trigger] out@[k].value <= c.value,
            decreases out@.len() - p,
        {
            p = p + 1;
        }
        let ghost out_before = out@;
        out.insert(p, c);
        i = i + 1;
        proof {
            assert(out@ == out_before.insert(p as int, c));
            assert(cards@.take(i as int) =~= cards@.take(i as int - 1).push(c));
            assert(card_values(out@) =~= card_values(out_before).insert(p as int, c.value));
            assert(card_values(cards@.take(i as int)) =~= card_values(
                cards@.take(i as int - 1),
            ).push(c.value));
            vstd::seq_lib::to_multiset_insert(out_before, p as int, c);
            vstd::seq_lib::to_multiset_build(cards@.take(i as int - 1), c);
            vstd::seq_lib::to_multiset_insert(card_values(out_before), p as int, c.value);
            vstd::seq_lib::to_multiset_build(card_values(cards@.take(i as int - 1)), c.value);
            assert(out@.to_multiset() == out_before.to_multiset().insert(c));
            assert(cards@.take(i as int).to_multiset() == cards@.take(
                i as int - 1,
            ).to_multiset().insert(c));
            assert(card_values(out@).to_multiset() == card_values(
                out_before,
            ).to_multiset().insert(c.value));
            assert(card_values(cards@.take(i as int)).to_multiset() == card_values(
                cards@.take(i as int - 1),
            ).to_multiset().insert(c.value));
            assert forall|pp: int, q: int| 0 <= pp < q < out@.len() implies #[trigger] out@[pp].value
                <= #[trigger] out@[q].value by {
                if pp < p && q < p {
                    assert(out@[pp] == out_before[pp] && out@[q] == out_before[q]);
                } else if pp < p && q == p {
                    assert(out@[pp] == out_before[pp]);
                } else if pp < p && q > p {
                    assert(out@[pp] == out_before[pp] && out@[q] == out_before[q - 1]);
                } else if pp == p && q > p {
                    assert(out@[q] == out_before[q - 1]);
                    if p < out_before.len() {
                        assert(out_before[p as int].value > c.value);
                        assert(out_before[q - 1].value >= out_before[p as int].value);
                    }
                } else if pp > p {
                    assert(out@[pp] == out_before[pp - 1] && out@[q] == out_before[q - 1]);
                }
            }
        }
    }
    proof {
        assert(cards@.take(n as int) =~= cards@);
    }
    out
}

/// Hand equality as the data model defines it: equal category and
/// position-wise equal card rank values; suits never matter.
pub open spec fn hands_equal(a: PokerHand, b: PokerHand) -> bool {
    a.rank == b.rank && a.ranks() =~= b.ranks()
}

/// A hand parsed from one input string and classified once: its position in
/// the input, its five cards sorted ascending by rank, its category, the
/// cards that define the category, and the kickers.
pub struct PokerHand {
    pub id: usize,
    pub cards: Vec<Card>,
    pub rank: PokerRank,
    pub rank_swapped_aces: bool,
    pub cards_ranked: Vec<Card>,
    pub spares: Vec<Card>,
}

impl PokerHand {
    /// The hand's rank values, ascending (the cards are kept sorted).
    pub open spec fn ranks(self) -> Seq<u16> {
        card_values(self.cards@)
    }

    /// All five cards share one suit.
    pub open spec fn is_flush(self) -> bool {
        all_same_suit(self.cards@)
    }

    /// The rank values of the ranked group, as stored.
    pub open spec fn rvals(self) -> Seq<int> {
        self.cards_ranked@.map_values(|c: Card| c.value as int)
    }

    /// The rank values of the kickers, as stored.
    pub open spec fn svals(self) -> Seq<int> {
        self.spares@.map_values(|c: Card| c.value as int)
    }

    /// A classified hand: five valid cards sorted ascending, the category
    /// that `category_of` assigns, and the ranked group and kickers that the
    /// category prescribes.
    pub open spec fn wf(self) -> bool {
        &&& self.cards@.len() == 5
        &&& forall|i: int| 0 <= i < 5 ==> valid_card(#[trigger] self.cards@[i])
        &&& sorted5(self.ranks())
        &&& self.rank == category_of(self.ranks(), self.is_flush())
        &&& self.rank_swapped_aces == ((self.rank == PokerRank::StraightFlush || self.rank
            == PokerRank::Straight) && is_ace_low(self.ranks()))
        &&& self.rvals() == ranked_spec(self.ranks(), self.is_flush())
        &&& self.svals() == spares_spec(self.ranks(), self.is_flush())
    }

    /// The hand's strength: the packed (category, tie-break key) integer.
    pub open spec fn spec_value(self) -> int {
        hand_value(self.ranks(), self.is_flush())
    }

    /// The hand's position in the input list.
    pub fn index(&self) -> (r: usize)
        ensures
            r == self.id,
    {
        self.id
    }

    /// Classifies five sorted valid cards, filling category, ranked group
    /// and kickers.
    fn rank_hand(id: usize, cards: Vec<Card>) -> (h: PokerHand)
        requires
            cards@.len() == 5,
            forall|i: int| 0 <= i < 5 ==> valid_card(#[trigger] cards@[i]),
            forall|i: int, j: int| 0 <= i < j < 5 ==> #[trigger] cards@[i].value
                <= #[trigger] cards@[j].value,
        ensures
            h.wf(),
            h.id == id,
            h.cards@ == cards@,
    {
        let c0 = cards[0];
        let c1 = cards[1];
        let c2 = cards[2];
        let c3 = cards[3];
        let c4 = cards[4];
        let v0 = c0.value;
        let v1 = c1.value;
        let v2 = c2.value;
        let v3 = c3.value;
        let v4 = c4.value;
        let ghost rs = card_values(cards@);
        proof {
            assert(rs =~= seq![v0, v1, v2, v3, v4]);
            assert(sorted5(rs));
            assert(valid_ranks(rs));
        }
        let flush = c0.suit == c1.suit && c0.suit == c2.suit && c0.suit == c3.suit && c0.suit
            == c4.suit;
        proof {
            if flush {
                assert forall|i: int, j: int|
                    0 <= i < 5 && 0 <= j < 5 implies #[trigger] cards@[i].suit
                    == #[trigger] cards@[j].suit by {
                    assert(cards@[0].suit == cards@[1].suit && cards@[0].suit == cards@[2].suit
                        && cards@[0].suit == cards@[3].suit && cards@[0].suit == cards@[4].suit);
                }
            }
            assert(flush == all_same_suit(cards@));
        }
        let straight_high = v1 == v0 + 1 && v2 == v1 + 1 && v3 == v2 + 1 && v4 == v3 + 1;
        let ace_low = v0 == 2 && v1 == 3 && v2 == 4 && v3 == 5 && v4 == 14;
        proof {
            assert(straight_high == is_straight_high(rs));
            assert(ace_low == is_ace_low(rs));
        }
        let mut ranked: Vec<Card> = Vec::new();
        let mut spares: Vec<Card> = Vec::new();
        let rank: PokerRank;
        let mut swapped = false;
        if (flush && (straight_high || ace_low)) || (!flush && (straight_high || ace_low) && !(v0
            == v3 || v1 == v4) && !((v0 == v2 && v3 == v4) || (v0 == v1 && v2 == v4))) {
            // straight flush, or plain straight (a straight can never group
            // ranks, so the quad and full-house guards are vacuous there)
            rank = if flush {
                PokerRank::StraightFlush
            } else {
                PokerRank::Straight
            };
            if straight_high {
                ranked.push(c0);
                ranked.push(c1);
                ranked.push(c2);
                ranked.push(c3);
                ranked.push(c4);
            } else {
                ranked.push(Card { suit: c4.suit, value: 1 });
                ranked.push(c0);
                ranked.push(c1);
                ranked.push(c2);
                ranked.push(c3);
                swapped = true;
            }
        } else if v0 == v3 || v1 == v4 {
            rank = PokerRank::FourOfAKind;
            if v0 == v3 {
                ranked.push(c0);
                ranked.push(c1);
                ranked.push(c2);
                ranked.push(c3);
                spares.push(c4);
            } else {
                ranked.push(c1);
                ranked.push(c2);
                ranked.push(c3);
                ranked.push(c4);
                spares.push(c0);
            }
        } else if (v0 == v2 && v3 == v4) || (v0 == v1 && v2 == v4) {
            rank = PokerRank::FullHouse;
            if v0 == v2 {
                ranked.push(c0);
                ranked.push(c1);
                ranked.push(c2);
                ranked.push(c3);
                ranked.push(c4);
            } else {
                ranked.push(c2);
                ranked.push(c3);
                ranked.push(c4);
                ranked.push(c0);
                ranked.push(c1);
            }
        } else if flush {
            rank = PokerRank::Flush;
            ranked.push(c4);
            ranked.push(c3);
            ranked.push(c2);
            ranked.push(c1);
            ranked.push(c0);
        } else if v0 == v2 || v1 == v3 || v2 == v4 {
            rank = PokerRank::ThreeOfAKind;
            if v0 == v2 {
                ranked.push(c0);
                ranked.push(c1);
                ranked.push(c2);
                spares.push(c4);
                spares.push(c3);
            } else if v1 == v3 {
                ranked.push(c1);
                ranked.push(c2);
                ranked.push(c3);
                spares.push(c4);
                spares.push(c0);
            } else {
                ranked.push(c2);
                ranked.push(c3);
                ranked.push(c4);
                spares.push(c1);
                spares.push(c0);
            }
        } else if (v0 == v1 && v2 == v3) || (v0 == v1 && v3 == v4) || (v1 == v2 && v3 == v4) {
            rank = PokerRank::TwoPair;
            if v0 == v1 && v2 == v3 {
                ranked.push(c2);
                ranked.push(c3);
                ranked.push(c0);
                ranked.push(c1);
                spares.push(c4);
            } else if v0 == v1 && v3 == v4 {
                ranked.push(c3);
                ranked.push(c4);
                ranked.push(c0);
                ranked.push(c1);
                spares.push(c2);
            } else {
                ranked.push(c3);
                ranked.push(c4);
                ranked.push(c1);
                ranked.push(c2);
                spares.push(c0);
            }
        } else if v0 == v1 || v1 == v2 || v2 == v3 || v3 == v4 {
            rank = PokerRank::OnePair;
            if v0 == v1 {
                ranked.push(c0);
                ranked.push(c1);
                spares.push(c4);
                spares.push(c3);
                spares.push(c2);
            } else if v1 == v2 {
                ranked.push(c1);
                ranked.push(c2);
                spares.push(c4);
                spares.push(c3);
                spares.push(c0);
            } else if v2 == v3 {
                ranked.push(c2);
                ranked.push(c3);
                spares.push(c4);
                spares.push(c1);
                spares.push(c0);
            } else {
                ranked.push(c3);
                ranked.push(c4);
                spares.push(c2);
                spares.push(c1);
                spares.push(c0);
            }
        } else {
            rank = PokerRank::HighCard;
            spares.push(c4);
            spares.push(c3);
            spares.push(c2);
            spares.push(c1);
            spares.push(c0);
        }
        let h = PokerHand { id, cards, rank, rank_swapped_aces: swapped, cards_ranked: ranked, spares };
        proof {
            assert(h.ranks() == rs && h.is_flush() == flush);
            assert(h.rank == category_of(rs, flush));
            assert(h.rvals() =~= ranked_spec(rs, flush));
            assert(h.svals() =~= spares_spec(rs, flush));
        }
        h
    }

    /// Parses one hand string: five cards, sorted ascending, classified.
    /// On failure the error is exactly what `parse_hand` charges the string
    /// with.
    pub fn from_parse(index: usize, phand: &str) -> (r: Result<PokerHand, ParseError>)
        ensures
            (r is Ok <==> parse_ok(phand.spec_bytes())),
            r matches Ok(h) ==> {
                &&& h.wf()
                &&& h.id == index
                &&& h.cards@.to_multiset() == parsed_cards(phand.spec_bytes()).to_multiset()
                &&& h.ranks() == sorted_ranks_of(parsed_cards(phand.spec_bytes()))
                &&& h.is_flush() == all_same_suit(parsed_cards(phand.spec_bytes()))
                &&& h.spec_value() == hand_value_of(phand.spec_bytes())
            },
            r matches Err(e) ==> parse_hand(phand.spec_bytes()) == Err::<Seq<Card>, ParseError>(
                e,
            ),
    {
        let cs = match parse_cards(phand) {
            Ok(v) => v,
            Err(e) => {
                return Err(e);
            },
        };
        let sorted = sort_cards(cs);
        proof {
            let leq = rank_leq();
            let vals = card_values(cs@);
            assert(total_ordering(leq));
            vals.lemma_sort_by_ensures(leq);
            assert(sorted_by(card_values(sorted@), leq));
            lemma_sorted_unique(card_values(sorted@), vals.sort_by(leq), leq);
            assert(card_values(sorted@) == sorted_ranks_of(cs@));
            lemma_same_suit_permutation(cs@, sorted@);
            lemma_valid_permutation(cs@, sorted@);
        }
        let h = Self::rank_hand(index, sorted);
        Ok(h)
    }

    /// Reads the five tie-break key places out of the stored ranked group
    /// and kickers.
    fn key_parts(&self) -> (r: (u16, u16, u16, u16, u16))
        requires
            self.wf(),
        ensures
            r.0 as int == key_of(self.ranks(), self.is_flush())[0],
            r.1 as int == key_of(self.ranks(), self.is_flush())[1],
            r.2 as int == key_of(self.ranks(), self.is_flush())[2],
            r.3 as int == key_of(self.ranks(), self.is_flush())[3],
            r.4 as int == key_of(self.ranks(), self.is_flush())[4],
    {
        proof {
            assert(self.rvals().len() == self.cards_ranked@.len());
            assert(self.svals().len() == self.spares@.len());
            assert(self.rvals() == ranked_spec(self.ranks(), self.is_flush()));
            assert(self.svals() == spares_spec(self.ranks(), self.is_flush()));
            assert forall|i: int| 0 <= i < self.cards_ranked@.len() implies (
            #[trigger] self.cards_ranked@[i]).value as int == self.rvals()[i] by {}
            assert forall|i: int| 0 <= i < self.spares@.len() implies (
            #[trigger] self.spares@[i]).value as int == self.svals()[i] by {}
        }
        match self.rank {
            PokerRank::StraightFlush | PokerRank::Straight => (
                self.cards_ranked[4].value,
                0,
                0,
                0,
                0,
            ),
            PokerRank::FourOfAKind => (self.cards_ranked[0].value, self.spares[0].value, 0, 0, 0),
            PokerRank::FullHouse => (self.cards_ranked[0].value, self.cards_ranked[3].value, 0, 0, 0),
            PokerRank::Flush => (
                self.cards_ranked[0].value,
                self.cards_ranked[1].value,
                self.cards_ranked[2].value,
                self.cards_ranked[3].value,
                self.cards_ranked[4].value,
            ),
            PokerRank::ThreeOfAKind => (
                self.cards_ranked[0].value,
                self.spares[0].value,
                self.spares[1].value,
                0,
                0,
            ),
            PokerRank::TwoPair => (
                self.cards_ranked[0].value,
                self.cards_ranked[2].value,
                self.spares[0].value,
                0,
                0,
            ),
            PokerRank::OnePair => (
                self.cards_ranked[0].value,
                self.spares[0].value,
                self.spares[1].value,
                self.spares[2].value,
                0,
            ),
            PokerRank::HighCard => (
                self.spares[0].value,
                self.spares[1].value,
                self.spares[2].value,
                self.spares[3].value,
                self.spares[4].value,
            ),
            PokerRank::NotRanked => {
                proof {
                    assert(category_of(self.ranks(), self.is_flush()) != PokerRank::NotRanked);
                    assert(false);
                }
                (0, 0, 0, 0, 0)
            },
        }
    }

    /// Orders two classified hands: category first, then the category's
    /// tie-break key place by place. The result is exactly the order of the
    /// hands' strength values; suits never break ties.
    pub fn compare(&self, other: &PokerHand) -> (r: core::cmp::Ordering)
        requires
            self.wf(),
            other.wf(),
        ensures
            (r == core::cmp::Ordering::Equal <==> self.spec_value() == other.spec_value()),
            (r == core::cmp::Ordering::Less <==> self.spec_value() < other.spec_value()),
            (r == core::cmp::Ordering::Greater <==> self.spec_value() > other.spec_value()),
    {
        proof {
            lemma_key_bounds(self.ranks(), self.is_flush());
            lemma_key_bounds(other.ranks(), other.is_flush());
            lemma_encode_order(
                category_of(self.ranks(), self.is_flush()).spec_score(),
                key_of(self.ranks(), self.is_flush()),
                category_of(other.ranks(), other.is_flush()).spec_score(),
                key_of(other.ranks(), other.is_flush()),
            );
        }
        let sa = self.rank.score();
        let sb = other.rank.score();
        if sa < sb {
            return core::cmp::Ordering::Less;
        }
        if sa > sb {
            return core::cmp::Ordering::Greater;
        }
        let a = self.key_parts();
        let b = other.key_parts();
        if a.0 < b.0 {
            return core::cmp::Ordering::Less;
        }
        if a.0 > b.0 {
            return core::cmp::Ordering::Greater;
        }
        if a.1 < b.1 {
            return core::cmp::Ordering::Less;
        }
        if a.1 > b.1 {
            return core::cmp::Ordering::Greater;
        }
        if a.2 < b.2 {
            return core::cmp::Ordering::Less;
        }
        if a.2 > b.2 {
            return core::cmp::Ordering::Greater;
        }
        if a.3 < b.3 {
            return core::cmp::Ordering::Less;
        }
        if a.3 > b.3 {
            return core::cmp::Ordering::Greater;
        }
        if a.4 < b.4 {
            return core::cmp::Ordering::Less;
        }
        if a.4 > b.4 {
            return core::cmp::Ordering::Greater;
        }
        core::cmp::Ordering::Equal
    }
}

/// Two hands are `==` when they are the same hand by value: same category
/// and position-wise the same card ranks, whatever the suits.
impl PartialEq for PokerHand {
    fn eq(&self, other: &Self) -> (r: bool) {
        if !(self.rank == other.rank && self.cards.len() == other.cards.len()) {
            proof {
                if self.cards@.len() != other.cards@.len() {
                    assert(self.ranks().len() != other.ranks().len());
                }
            }
            return false;
        }
        let mut i: usize = 0;
        while i < self.cards.len()
            invariant
                i <= self.cards@.len(),
                self.cards@.len() == other.cards@.len(),
                self.rank == other.rank,
                forall|k: int|
                    0 <= k < i ==> (#[trigger] self.cards@[k]).value == other.cards@[k].value,
            decreases self.cards@.len() - i,
        {
            if self.cards[i].value != other.cards[i].value {
                proof {
                    assert(self.ranks()[i as int] != other.ranks()[i as int]);
                }
                return false;
            }
            i = i + 1;
        }
        proof {
            assert(self.ranks() =~= other.ranks());
        }
        true
    }
}

impl Eq for PokerHand {

}

impl vstd::std_specs::cmp::PartialEqSpecImpl for PokerHand {
    open spec fn obeys_eq_spec() -> bool {
        true
    }

    open spec fn eq_spec(&self, other: &Self) -> bool {
        hands_equal(*self, *other)
    }
}

} // verus!
