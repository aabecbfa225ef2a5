//! Poker hand ranking: parse five-card hands from text, classify them into
//! the standard poker categories, order them, and pick the winning hands.
pub mod cards;
pub mod parse;
pub mod score;
pub mod hand;
pub mod laws;

use vstd::prelude::*;
use vstd::string::StringSliceAdditionalSpecFns;

use crate::hand::hand_value_of;
use crate::parse::parse_hand;
use crate::parse::parse_ok;

verus! {

pub use crate::cards::Card;
pub use crate::cards::CardSuit;
pub use crate::cards::PokerRank;
pub use crate::hand::PokerHand;
pub use crate::parse::ParseError;

/// A parse failure, identifying the offending hand by its input position.
#[derive(Clone, Copy, PartialEq, Eq, Structural, Debug)]
pub struct HandError {
    pub hand_index: usize,
    pub kind: ParseError,
}

/// Every hand string in the list parses.
pub open spec fn all_hands_ok(hs: Seq<&str>) -> bool {
    forall|i: int| 0 <= i < hs.len() ==> parse_ok(#[trigger] hs[i].spec_bytes())
}

/// The greatest hand strength in the list (below every real hand's value
/// when the list is empty).
pub open spec fn best_value(hs: Seq<&str>) -> int
    decreases hs.len(),
{
    if hs.len() == 0 {
        -1
    } else {
        let prev = best_value(hs.drop_last());
        let v = hand_value_of(hs.last().spec_bytes());
        if v > prev {
            v
        } else {
            prev
        }
    }
}

/// The input strings whose hand strength is `b`, in input order.
pub open spec fn winners_of(hs: Seq<&str>, b: int) -> Seq<&str>
    decreases hs.len(),
{
    if hs.len() == 0 {
        Seq::empty()
    } else if hand_value_of(hs.last().spec_bytes()) == b {
        winners_of(hs.drop_last(), b).push(hs.last())
    } else {
        winners_of(hs.drop_last(), b)
    }
}

/// What `winning_hands` returns on an all-valid list: exactly the input
/// strings that tie for the greatest hand strength, in input order.
pub open spec fn winning_spec(hs: Seq<&str>) -> Seq<&str> {
    winners_of(hs, best_value(hs))
}

/// Given a list of poker hands, returns the list of those hands which win,
/// as the very input strings, in input order. A hand that does not parse
/// makes the whole call fail, naming the first offending hand.
pub fn winning_hands<'a>(hands: &[&'a str]) -> (r: Result<Vec<&'a str>, HandError>)
    ensures
        (r is Ok <==> all_hands_ok(hands@)),
        r matches Ok(ws) ==> ws@ == winning_spec(hands@),
        r matches Err(e) ==> {
            &&& 0 <= e.hand_index < hands@.len()
            &&& parse_hand(hands@[e.hand_index as int].spec_bytes()) == Err::<
                Seq<Card>,
                ParseError,
            >(e.kind)
            &&& forall|i: int|
                0 <= i < e.hand_index ==> parse_ok(#[trigger] hands@[i].spec_bytes())
        },
{
    let n = hands.len();
    let mut parsed: Vec<PokerHand> = Vec::new();
    let mut i: usize = 0;
    while i < n
        invariant
            n == hands@.len(),
            i <= n,
            parsed@.len() == i,
            forall|k: int| 0 <= k < i ==> parse_ok(#[trigger] hands@[k].spec_bytes()),
            forall|k: int|
                0 <= k < i ==> (#[trigger] parsed@[k]).wf() && parsed@[k].spec_value()
                    == hand_value_of(hands@[k].spec_bytes()),
        decreases n - i,
    {
        match PokerHand::from_parse(i, hands[i]) {
            Ok(h) => {
                parsed.push(h);
            },
            Err(e) => {
                return Err(HandError { hand_index: i, kind: e });
            },
        }
        i = i + 1;
    }
    if n == 0 {
        let empty: Vec<&'a str> = Vec::new();
        return Ok(empty);
    }
    let mut bi: usize = 0;
    let mut i: usize = 1;
    proof {
        assert(hands@.take(1).drop_last() =~= hands@.take(0));
        assert(hands@.take(0) =~= Seq::<&str>::empty());
        assert(hands@.take(1).last() == hands@[0]);
        assert(best_value(Seq::<&str>::empty()) == -1);
        crate::laws::lemma_value_positive_str(hands@[0].spec_bytes());
        assert(parsed@[0].spec_value() == best_value(hands@.take(1)));
    }
    while i < n
        invariant
            n == hands@.len(),
            n >= 1,
            parsed@.len() == n,
            0 <= bi < i <= n,
            forall|k: int| 0 <= k < n ==> parse_ok(#[trigger] hands@[k].spec_bytes()),
            forall|k: int|
                0 <= k < n ==> (#[trigger] parsed@[k]).wf() && parsed@[k].spec_value()
                    == hand_value_of(hands@[k].spec_bytes()),
            parsed@[bi as int].spec_value() == best_value(hands@.take(i as int)),
        decreases n - i,
    {
        let ghost prefix = hands@.take(i as int);
        match parsed[i].compare(&parsed[bi]) {
            core::cmp::Ordering::Greater => {
                bi = i;
            },
            _ => {},
        }
        i = i + 1;
        proof {
            assert(hands@.take(i as int).drop_last() =~= prefix);
            assert(hands@.take(i as int).last() == hands@[i - 1]);
            assert(parsed@[bi as int].spec_value() == best_value(hands@.take(i as int)));
        }
    }
    proof {
        assert(hands@.take(n as int) =~= hands@);
        assert(parsed@[bi as int].spec_value() == best_value(hands@));
    }
    let mut ws: Vec<&'a str> = Vec::new();
    let mut i: usize = 0;
    proof {
        assert(ws@ =~= winners_of(hands@.take(0), best_value(hands@)));
    }
    while i < n
        invariant
            n == hands@.len(),
            parsed@.len() == n,
            0 <= bi < n,
            i <= n,
            forall|k: int| 0 <= k < n ==> parse_ok(#[trigger] hands@[k].spec_bytes()),
            forall|k: int|
                0 <= k < n ==> (#[trigger] parsed@[k]).wf() && parsed@[k].spec_value()
                    == hand_value_of(hands@[k].spec_bytes()),
            parsed@[bi as int].spec_value() == best_value(hands@),
            ws@ == winners_of(hands@.take(i as int), best_value(hands@)),
        decreases n - i,
    {
        let ghost prefix = hands@.take(i as int);
        match parsed[i].compare(&parsed[bi]) {
            core::cmp::Ordering::Equal => {
                ws.push(hands[i]);
            },
            _ => {},
        }
        i = i + 1;
        proof {
            assert(hands@.take(i as int).drop_last() =~= prefix);
            assert(hands@.take(i as int).last() == hands@[i - 1]);
            assert(ws@ == winners_of(hands@.take(i as int), best_value(hands@)));
        }
    }
    proof {
        assert(hands@.take(n as int) =~= hands@);
    }
    Ok(ws)
}

} // verus!

