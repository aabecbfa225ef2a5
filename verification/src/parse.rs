//! Parsing a textual hand into cards.
//!
//! A hand string is five space-separated card tokens. Each token is one or
//! two rank characters followed by exactly one suit character. A rank is a
//! number 2 through 14, written with one or two digits (11 through 14 being
//! the numeric forms of jack, queen, king and ace), or one of the face
//! letters `J`, `Q`, `K`, `A`; suits are `S`, `H`, `D`, `C`,
//! case-insensitive. The parser works on the string's bytes.
use vstd::prelude::*;
use vstd::string::StringSliceAdditionalSpecFns;

use crate::cards::Card;
use crate::cards::CardSuit;

verus! {

/// Why a hand string was rejected.
#[derive(Clone, Copy, PartialEq, Eq, Structural, Debug)]
pub enum ParseError {
    /// The string does not split into exactly five tokens.
    TokenCount,
    /// A token's rank part is not a valid rank.
    BadRank,
    /// A token's suit character is not one of the four suits.
    BadSuit,
    /// The same card (rank and suit) appears twice in the hand.
    DuplicateCard,
}

/// Splitting a byte string at every single space, exactly as the hand text
/// is tokenized: an empty string gives one empty token, and consecutive
/// spaces give empty tokens in between.
pub open spec fn split_spaces(s: Seq<u8>) -> Seq<Seq<u8>>
    decreases s.len(),
{
    if s.len() == 0 {
        seq![Seq::<u8>::empty()]
    } else if s[0] == 32 {
        seq![Seq::<u8>::empty()] + split_spaces(s.drop_first())
    } else {
        let rest = split_spaces(s.drop_first());
        seq![seq![s[0]] + rest[0]] + rest.drop_first()
    }
}

proof fn lemma_split_spaces_nonempty(s: Seq<u8>)
    ensures
        split_spaces(s).len() >= 1,
{
}

/// The suit denoted by a suit byte; anything besides the (case-insensitive)
/// letters `S`, `H`, `D`, `C` is the `Joker` sentinel.
pub open spec fn suit_of_byte(b: u8) -> CardSuit {
    if b == 83 || b == 115 {  // 'S' | 's'
        CardSuit::Spade
    } else if b == 72 || b == 104 {  // 'H' | 'h'
        CardSuit::Heart
    } else if b == 68 || b == 100 {  // 'D' | 'd'
        CardSuit::Diamond
    } else if b == 67 || b == 99 {  // 'C' | 'c'
        CardSuit::Club
    } else {
        CardSuit::Joker
    }
}

pub open spec fn is_digit(b: u8) -> bool {
    48 <= b <= 57
}

/// The rank value encoded by the rank part of a token, or -1 when it is
/// malformed. One character: a digit `2`-`9` or a face letter `J`, `Q`, `K`,
/// `A` (11, 12, 13, 14). Two characters: two digits whose value is 2
/// through 14.
pub open spec fn rank_of_bytes(t: Seq<u8>) -> int {
    if t.len() == 1 {
        if t[0] == 74 {  // 'J'
            11
        } else if t[0] == 81 {  // 'Q'
            12
        } else if t[0] == 75 {  // 'K'
            13
        } else if t[0] == 65 {  // 'A'
            14
        } else if is_digit(t[0]) && t[0] - 48 >= 2 {
            t[0] - 48
        } else {
            -1
        }
    } else if t.len() == 2 && is_digit(t[0]) && is_digit(t[1]) {
        let v = 10 * (t[0] - 48) + (t[1] - 48);
        if 2 <= v <= 14 {
            v
        } else {
            -1
        }
    } else {
        -1
    }
}

/// The rank part of a token: everything before the final suit byte.
pub open spec fn token_rank(t: Seq<u8>) -> int {
    rank_of_bytes(t.take(t.len() - 1))
}

/// The suit of a token's final byte.
pub open spec fn token_suit(t: Seq<u8>) -> CardSuit {
    suit_of_byte(t[t.len() - 1])
}

/// Whether a token is a well-formed card.
pub open spec fn token_ok(t: Seq<u8>) -> bool {
    &&& t.len() >= 2
    &&& token_rank(t) >= 2
    &&& token_suit(t) != CardSuit::Joker
}

/// The error a malformed token is charged with: the rank part is judged
/// before the suit byte.
pub open spec fn token_err(t: Seq<u8>) -> ParseError {
    if t.len() < 2 || token_rank(t) < 2 {
        ParseError::BadRank
    } else {
        ParseError::BadSuit
    }
}

/// The card a well-formed token denotes.
pub open spec fn token_card(t: Seq<u8>) -> Card {
    Card { suit: token_suit(t), value: token_rank(t) as u16 }
}

/// Two equal cards (same rank and same suit) somewhere in the sequence.
pub open spec fn has_duplicate(cs: Seq<Card>) -> bool {
    exists|i: int, j: int| 0 <= i < j < cs.len() && cs[i] == cs[j]
}

/// What parsing a hand string yields: the five cards in token order, or the
/// first error in the order the checks run — token count, then each token
/// left to right (rank before suit within a token), then duplicates.
pub open spec fn parse_hand(s: Seq<u8>) -> Result<Seq<Card>, ParseError> {
    let ts = split_spaces(s);
    if ts.len() != 5 {
        Err(ParseError::TokenCount)
    } else if !token_ok(ts[0]) {
        Err(token_err(ts[0]))
    } else if !token_ok(ts[1]) {
        Err(token_err(ts[1]))
    } else if !token_ok(ts[2]) {
        Err(token_err(ts[2]))
    } else if !token_ok(ts[3]) {
        Err(token_err(ts[3]))
    } else if !token_ok(ts[4]) {
        Err(token_err(ts[4]))
    } else {
        let cs = seq![
            token_card(ts[0]),
            token_card(ts[1]),
            token_card(ts[2]),
            token_card(ts[3]),
            token_card(ts[4]),
        ];
        if has_duplicate(cs) {
            Err(ParseError::DuplicateCard)
        } else {
            Ok(cs)
        }
    }
}

pub open spec fn parse_ok(s: Seq<u8>) -> bool {
    parse_hand(s) is Ok
}

/// The parsed cards of a string that parses, in token order.
pub open spec fn parsed_cards(s: Seq<u8>) -> Seq<Card> {
    parse_hand(s)->Ok_0
}

/// A finished token glued in front of the remaining splitting work.
spec fn glue(cur: Seq<u8>, rest: Seq<Seq<u8>>) -> Seq<Seq<u8>>
    recommends
        rest.len() >= 1,
{
    seq![cur + rest[0]] + rest.drop_first()
}

/// Finds the spans (start, end) of the space-separated tokens of `bytes`.
fn token_spans(bytes: &[u8]) -> (spans: Vec<(usize, usize)>)
    ensures
        spans@.len() == split_spaces(bytes@).len(),
        forall|k: int| #![trigger spans@[k]]
            0 <= k < spans@.len() ==> {
                &&& spans@[k].0 <= spans@[k].1 <= bytes@.len()
                &&& split_spaces(bytes@)[k] == bytes@.subrange(
                    spans@[k].0 as int,
                    spans@[k].1 as int,
                )
            },
{
    let n = bytes.len();
    let mut spans: Vec<(usize, usize)> = Vec::new();
    let ghost whole = bytes@;
    let ghost mut done: Seq<Seq<u8>> = Seq::empty();
    let mut start: usize = 0;
    let mut pos: usize = 0;
    proof {
        let ss = split_spaces(whole);
        lemma_split_spaces_nonempty(whole);
        assert(whole.subrange(0, n as int) =~= whole);
        assert(whole.subrange(0, 0) =~= Seq::<u8>::empty());
        assert(Seq::<u8>::empty() + ss[0] =~= ss[0]);
        assert(glue(whole.subrange(0, 0), ss) =~~= ss);
        assert(done + ss =~~= ss);
    }
    while pos < n
        invariant
            n == whole.len(),
            bytes@ == whole,
            start <= pos <= n,
            spans@.len() == done.len(),
            forall|k: int| #![trigger spans@[k]]
                0 <= k < spans@.len() ==> {
                    &&& spans@[k].0 <= spans@[k].1 <= whole.len()
                    &&& done[k] == whole.subrange(spans@[k].0 as int, spans@[k].1 as int)
                },
            split_spaces(whole) == done + glue(
                whole.subrange(start as int, pos as int),
                split_spaces(whole.subrange(pos as int, n as int)),
            ),
        decreases n - pos,
    {
        let ghost suffix = whole.subrange(pos as int, n as int);
        let ghost next = whole.subrange(pos as int + 1, n as int);
        proof {
            assert(suffix.len() > 0);
            assert(suffix[0] == whole[pos as int]);
            assert(suffix.drop_first() =~= next);
            lemma_split_spaces_nonempty(next);
            lemma_split_spaces_nonempty(suffix);
        }
        if bytes[pos] == 32 {
            proof {
                let cur = whole.subrange(start as int, pos as int);
                let rest = split_spaces(next);
                assert(split_spaces(suffix) =~~= seq![Seq::<u8>::empty()] + rest);
                assert(cur + split_spaces(suffix)[0] =~= cur);
                assert(split_spaces(suffix).drop_first() =~~= rest);
                assert(glue(cur, split_spaces(suffix)) =~~= seq![cur] + rest);
                assert(Seq::<u8>::empty() + rest[0] =~= rest[0]);
                assert(glue(Seq::<u8>::empty(), rest) =~~= rest);
                assert(done + (seq![cur] + rest) =~~= done.push(cur) + rest);
            }
            let ghost spans_before = spans@;
            let ghost done_before = done;
            spans.push((start, pos));
            proof {
                done = done.push(whole.subrange(start as int, pos as int));
            }
            start = pos + 1;
            pos = pos + 1;
            proof {
                assert(whole.subrange(start as int, pos as int) =~= Seq::<u8>::empty());
                let rest = split_spaces(whole.subrange(pos as int, n as int));
                assert(glue(Seq::<u8>::empty(), rest) =~~= rest);
                assert(split_spaces(whole) == done + glue(
                    whole.subrange(start as int, pos as int),
                    rest,
                ));
                assert forall|k: int| 0 <= k < spans@.len() implies spans@[k].0 <= spans@[k].1
                    <= whole.len() && done[k] == whole.subrange(
                    spans@[k].0 as int,
                    spans@[k].1 as int,
                ) by {
                    if k < spans@.len() - 1 {
                        assert(spans@[k] == spans_before[k]);
                        assert(done[k] == done_before[k]);
                    }
                }
            }
        } else {
            pos = pos + 1;
            proof {
                let rest = split_spaces(next);
                assert(split_spaces(suffix) =~~= seq![seq![suffix[0]] + rest[0]]
                    + rest.drop_first());
                let cur = whole.subrange(start as int, pos as int - 1);
                let cur2 = whole.subrange(start as int, pos as int);
                assert(cur + split_spaces(suffix)[0] =~= cur2 + rest[0]);
                assert(split_spaces(suffix).drop_first() =~~= rest.drop_first());
                assert(glue(cur, split_spaces(suffix)) =~~= glue(cur2, rest));
                assert(whole.subrange(pos as int, n as int) =~= next);
                assert(split_spaces(whole) == done + glue(cur2, split_spaces(next)));
            }
        }
    }
    proof {
        let empty = whole.subrange(n as int, n as int);
        assert(empty =~= Seq::<u8>::empty());
        let cur = whole.subrange(start as int, n as int);
        assert(cur + split_spaces(empty)[0] =~= cur);
        assert(glue(cur, split_spaces(empty)) =~~= seq![cur]);
        assert(split_spaces(whole) =~~= done.push(cur));
    }
    let ghost spans_before = spans@;
    spans.push((start, n));
    proof {
        let cur = whole.subrange(start as int, n as int);
        assert forall|k: int| 0 <= k < spans@.len() implies spans@[k].0 <= spans@[k].1
            <= whole.len() && split_spaces(whole)[k] == whole.subrange(
            spans@[k].0 as int,
            spans@[k].1 as int,
        ) by {
            if k < spans@.len() - 1 {
                assert(spans@[k] == spans_before[k]);
                assert(split_spaces(whole)[k] == done[k]);
            } else {
                assert(split_spaces(whole)[k] == cur);
            }
        }
    }
    spans
}

/// Parses one token, given as the byte range `a..b` of the hand string.
fn parse_card(bytes: &[u8], a: usize, b: usize) -> (r: Result<Card, ParseError>)
    requires
        a <= b <= bytes@.len(),
    ensures
        ({
            let t = bytes@.subrange(a as int, b as int);
            &&& (r is Ok <==> token_ok(t))
            &&& (r matches Ok(c) ==> c == token_card(t))
            &&& (r matches Err(e) ==> e == token_err(t))
        }),
{
    let ghost t = bytes@.subrange(a as int, b as int);
    let n = b - a;
    assert(t.len() == n);
    if n < 2 || n > 3 {
        assert(n >= 2 ==> t.take(t.len() - 1).len() >= 3);
        return Err(ParseError::BadRank);
    }
    let ghost rp = t.take(t.len() - 1);
    let value: u16;
    if n == 2 {
        let c0 = bytes[a];
        assert(rp.len() == 1 && rp[0] == c0);
        if c0 == 74 {
            value = 11;
        } else if c0 == 81 {
            value = 12;
        } else if c0 == 75 {
            value = 13;
        } else if c0 == 65 {
            value = 14;
        } else if 50 <= c0 && c0 <= 57 {
            value = (c0 - 48) as u16;
        } else {
            return Err(ParseError::BadRank);
        }
    } else {
        let c0 = bytes[a];
        let c1 = bytes[a + 1];
        assert(rp.len() == 2 && rp[0] == c0 && rp[1] == c1);
        if 48 <= c0 && c0 <= 57 && 48 <= c1 && c1 <= 57 {
            let v = 10 * ((c0 - 48) as u16) + ((c1 - 48) as u16);
            if 2 <= v && v <= 14 {
                value = v;
            } else {
                return Err(ParseError::BadRank);
            }
        } else {
            return Err(ParseError::BadRank);
        }
    }
    assert(token_rank(t) == value);
    let sc = bytes[b - 1];
    assert(t[t.len() - 1] == sc);
    let suit: CardSuit;
    if sc == 83 || sc == 115 {
        suit = CardSuit::Spade;
    } else if sc == 72 || sc == 104 {
        suit = CardSuit::Heart;
    } else if sc == 68 || sc == 100 {
        suit = CardSuit::Diamond;
    } else if sc == 67 || sc == 99 {
        suit = CardSuit::Club;
    } else {
        return Err(ParseError::BadSuit);
    }
    Ok(Card { suit, value })
}

/// Parses a hand string into its five cards, in token order.
#[verifier::loop_isolation(false)]
pub fn parse_cards(phand: &str) -> (r: Result<Vec<Card>, ParseError>)
    ensures
        (r is Ok <==> parse_ok(phand.spec_bytes())),
        r matches Ok(v) ==> v@ == parsed_cards(phand.spec_bytes()) && v@.len() == 5,
        r matches Err(e) ==> parse_hand(phand.spec_bytes()) == Err::<Seq<Card>, ParseError>(e),
{
    let bytes: &[u8] = phand.as_bytes();
    let ghost s = bytes@;
    let spans = token_spans(bytes);
    let ghost ts = split_spaces(s);
    if spans.len() != 5 {
        assert(parse_hand(s) == Err::<Seq<Card>, ParseError>(ParseError::TokenCount));
        return Err(ParseError::TokenCount);
    }
    let mut cards: Vec<Card> = Vec::new();
    let s0 = spans[0];
    let c0 = match parse_card(bytes, s0.0, s0.1) {
        Ok(c) => c,
        Err(e) => {
            return Err(e);
        },
    };
    let s1 = spans[1];
    let c1 = match parse_card(bytes, s1.0, s1.1) {
        Ok(c) => c,
        Err(e) => {
            return Err(e);
        },
    };
    let s2 = spans[2];
    let c2 = match parse_card(bytes, s2.0, s2.1) {
        Ok(c) => c,
        Err(e) => {
            return Err(e);
        },
    };
    let s3 = spans[3];
    let c3 = match parse_card(bytes, s3.0, s3.1) {
        Ok(c) => c,
        Err(e) => {
            return Err(e);
        },
    };
    let s4 = spans[4];
    let c4 = match parse_card(bytes, s4.0, s4.1) {
        Ok(c) => c,
        Err(e) => {
            return Err(e);
        },
    };
    cards.push(c0);
    cards.push(c1);
    cards.push(c2);
    cards.push(c3);
    cards.push(c4);
    let ghost cs = seq![
        token_card(ts[0]),
        token_card(ts[1]),
        token_card(ts[2]),
        token_card(ts[3]),
        token_card(ts[4]),
    ];
    assert(cards@ =~= cs);
    // duplicate detection: any two equal cards
    let mut i: usize = 0;
    while i < 5
        invariant
            cards@.len() == 5,
            i <= 5,
            forall|p: int, q: int| 0 <= p < q < cards@.len() && p < i ==> cards@[p] != cards@[q],
        decreases 5 - i,
    {
        let mut j: usize = i + 1;
        while j < 5
            invariant
                cards@.len() == 5,
                i < 5,
                i < j <= 5,
                forall|q: int| i < q < j ==> cards@[i as int] != cards@[q],
            decreases 5 - j,
        {
            let ci = cards[i];
            let cj = cards[j];
            if ci.value == cj.value && ci.suit == cj.suit {
                assert(cards@[i as int] == cards@[j as int]);
                assert(has_duplicate(cards@));
                assert(parse_hand(s) == Err::<Seq<Card>, ParseError>(ParseError::DuplicateCard));
                return Err(ParseError::DuplicateCard);
            }
            j = j + 1;
        }
        i = i + 1;
    }
    assert(!has_duplicate(cards@));
    assert(parse_hand(s) == Ok::<Seq<Card>, ParseError>(cards@));
    Ok(cards)
}

} // verus!
