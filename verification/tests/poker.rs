use std::cmp::Ordering;

use poker::hand::PokerHand;
use poker::parse::ParseError;
use poker::winning_hands;
use poker::CardSuit;
use poker::PokerRank;

fn rank_of(hand: &str) -> PokerRank {
    PokerHand::from_parse(0, hand).unwrap().rank
}

#[test]
fn empty_input_wins_nothing() {
    let hands: Vec<&str> = vec![];
    assert_eq!(winning_hands(&hands).unwrap(), Vec::<&str>::new());
}

#[test]
fn single_hand_always_wins() {
    let hands = vec!["4S 5S 7H 8D JC"];
    assert_eq!(winning_hands(&hands).unwrap(), vec!["4S 5S 7H 8D JC"]);
}

#[test]
fn straight_flush_beats_ace_low_straight_flush() {
    let hands = vec!["4S 5S 6S 7S 8S", "AS 2S 3S 4S 5S"];
    assert_eq!(winning_hands(&hands).unwrap(), vec!["4S 5S 6S 7S 8S"]);
}

#[test]
fn ace_high_straight_flush_beats_both_lower_ones() {
    let hands = vec!["4S 5S 6S 7S 8S", "AS 2S 3S 4S 5S", "10C JC QC KC AC"];
    assert_eq!(winning_hands(&hands).unwrap(), vec!["10C JC QC KC AC"]);
}

#[test]
fn flush_beats_straight() {
    let hands = vec!["2S 4S 5S 8S 9S", "4S 5H 6D 7C 8H"];
    assert_eq!(winning_hands(&hands).unwrap(), vec!["2S 4S 5S 8S 9S"]);
}

#[test]
fn equal_straight_flushes_in_different_suits_tie() {
    let hands = vec!["4D 5D 6D 7D 8D", "4S 5S 6S 7S 8S"];
    assert_eq!(
        winning_hands(&hands).unwrap(),
        vec!["4D 5D 6D 7D 8D", "4S 5S 6S 7S 8S"]
    );
}

#[test]
fn higher_kicker_resolves_equal_pairs() {
    let hands = vec!["4S 4D 9H 10H 11H", "4C 4H 9S 10S QS"];
    assert_eq!(winning_hands(&hands).unwrap(), vec!["4C 4H 9S 10S QS"]);
}

#[test]
fn ace_kicker_counts_high() {
    let hands = vec!["2S 2D AH 5C 7D", "2C 2H KS 5D 7H"];
    assert_eq!(winning_hands(&hands).unwrap(), vec!["2S 2D AH 5C 7D"]);
}

#[test]
fn duplicate_card_is_reported() {
    let hands = vec!["4S 5S 7H 8D JC", "2S 2S 9H 9H JD"];
    let err = winning_hands(&hands).unwrap_err();
    assert_eq!(err.hand_index, 1);
    assert_eq!(err.kind, ParseError::DuplicateCard);
}

#[test]
fn empty_string_is_reported() {
    let hands = vec![""];
    let err = winning_hands(&hands).unwrap_err();
    assert_eq!(err.hand_index, 0);
    assert_eq!(err.kind, ParseError::TokenCount);
}

#[test]
fn wrong_token_count_is_reported() {
    let err = winning_hands(&vec!["2S 3S"]).unwrap_err();
    assert_eq!(err.kind, ParseError::TokenCount);
    let err = winning_hands(&vec!["2S 3S 4S 5S 6S 7S"]).unwrap_err();
    assert_eq!(err.kind, ParseError::TokenCount);
}

#[test]
fn bad_rank_is_reported() {
    let err = winning_hands(&vec!["1S 3S 4S 5S 6S"]).unwrap_err();
    assert_eq!(err.kind, ParseError::BadRank);
    let err = winning_hands(&vec!["15S 3S 4S 5S 6S"]).unwrap_err();
    assert_eq!(err.kind, ParseError::BadRank);
    let err = winning_hands(&vec!["ZS 3S 4S 5S 6S"]).unwrap_err();
    assert_eq!(err.kind, ParseError::BadRank);
}

#[test]
fn bad_suit_is_reported() {
    let err = winning_hands(&vec!["2X 3S 4S 5S 6S"]).unwrap_err();
    assert_eq!(err.kind, ParseError::BadSuit);
}

#[test]
fn classification_covers_every_category() {
    assert_eq!(rank_of("4S 5S 6S 7S 8S"), PokerRank::StraightFlush);
    assert_eq!(rank_of("9S 9H 9D 9C 2S"), PokerRank::FourOfAKind);
    assert_eq!(rank_of("9S 9H 9D 2C 2S"), PokerRank::FullHouse);
    assert_eq!(rank_of("2S 4S 5S 8S 9S"), PokerRank::Flush);
    assert_eq!(rank_of("4S 5H 6D 7C 8H"), PokerRank::Straight);
    assert_eq!(rank_of("9S 9H 9D 5C 2S"), PokerRank::ThreeOfAKind);
    assert_eq!(rank_of("9S 9H 5D 5C 2S"), PokerRank::TwoPair);
    assert_eq!(rank_of("9S 9H 5D 4C 2S"), PokerRank::OnePair);
    assert_eq!(rank_of("9S 8H 5D 4C 2S"), PokerRank::HighCard);
}

#[test]
fn classification_never_leaves_a_hand_unranked() {
    for hand in [
        "AS 2S 3S 4S 5S",
        "10S JH QD KC AS",
        "2C 3D 5H 9S KD",
        "AH AD AC AS KS",
    ] {
        assert!(rank_of(hand) != PokerRank::NotRanked);
    }
}

#[test]
fn ace_low_straight_is_detected_and_marked() {
    let h = PokerHand::from_parse(0, "AS 2D 3H 4C 5S").unwrap();
    assert_eq!(h.rank, PokerRank::Straight);
    assert!(h.rank_swapped_aces);
    let hands = vec!["AS 2D 3H 4C 5S", "2C 3S 4H 5D 6H"];
    assert_eq!(winning_hands(&hands).unwrap(), vec!["2C 3S 4H 5D 6H"]);
}

#[test]
fn ten_parses_as_a_two_character_rank() {
    let h = PokerHand::from_parse(0, "10S JH QD KC AS").unwrap();
    assert_eq!(h.rank, PokerRank::Straight);
    assert!(!h.rank_swapped_aces);
}

#[test]
fn suits_are_case_insensitive() {
    assert_eq!(rank_of("4s 5h 6d 7c 8h"), PokerRank::Straight);
    assert_eq!(CardSuit::from_abbrev('s'), CardSuit::Spade);
    assert_eq!(CardSuit::from_abbrev('H'), CardSuit::Heart);
    assert_eq!(CardSuit::from_abbrev('d'), CardSuit::Diamond);
    assert_eq!(CardSuit::from_abbrev('C'), CardSuit::Club);
    assert_eq!(CardSuit::from_abbrev('x'), CardSuit::Joker);
}

#[test]
fn comparator_is_reflexive_antisymmetric_transitive_on_samples() {
    let a = PokerHand::from_parse(0, "4S 4D 9H 10H JH").unwrap();
    let a2 = PokerHand::from_parse(1, "4C 4H 9S 10S JS").unwrap();
    let b = PokerHand::from_parse(2, "9S 9H 5D 4C 2S").unwrap();
    let c = PokerHand::from_parse(3, "9S 9H 9D 5C 2S").unwrap();
    assert_eq!(a.compare(&a), Ordering::Equal);
    assert_eq!(a.compare(&a2), Ordering::Equal);
    assert_eq!(a2.compare(&a), Ordering::Equal);
    assert_eq!(a.compare(&b), Ordering::Less);
    assert_eq!(b.compare(&a), Ordering::Greater);
    assert_eq!(b.compare(&c), Ordering::Less);
    assert_eq!(a.compare(&c), Ordering::Less);
}

#[test]
fn full_house_triple_decides_before_pair() {
    let hands = vec!["5S 5H 5D 9C 9S", "6S 6H 6D 2C 2S"];
    assert_eq!(winning_hands(&hands).unwrap(), vec!["6S 6H 6D 2C 2S"]);
    let hands = vec!["5S 5H 5D 9C 9S", "5C 5D 5H 9H 9D"];
    // same ranks in both hands is a true tie, whatever the suits
    assert_eq!(winning_hands(&hands).unwrap().len(), 2);
}

#[test]
fn two_pair_orders_high_pair_then_low_pair_then_kicker() {
    let hands = vec!["9S 9H 5D 5C 2S", "9C 9D 6S 6H 2H"];
    assert_eq!(winning_hands(&hands).unwrap(), vec!["9C 9D 6S 6H 2H"]);
    let hands = vec!["9S 9H 5D 5C 2S", "9C 9D 5S 5H 3H"];
    assert_eq!(winning_hands(&hands).unwrap(), vec!["9C 9D 5S 5H 3H"]);
}

#[test]
fn flush_compares_from_the_top_card_down() {
    let hands = vec!["2S 3S 4S 5S AS", "3H 4H 5H 6H KH"];
    assert_eq!(winning_hands(&hands).unwrap(), vec!["2S 3S 4S 5S AS"]);
}

#[test]
fn winners_keep_input_order_in_multi_way_ties() {
    let hands = vec!["2H 3H 4H 5H 6H", "9S 8H 5D 4C 2S", "2C 3C 4C 5C 6C"];
    assert_eq!(
        winning_hands(&hands).unwrap(),
        vec!["2H 3H 4H 5H 6H", "2C 3C 4C 5C 6C"]
    );
}

#[test]
fn index_remembers_the_input_position() {
    let h = PokerHand::from_parse(7, "9S 8H 5D 4C 2S").unwrap();
    assert_eq!(h.index(), 7);
}

#[test]
fn numeric_face_ranks_match_their_letters() {
    let a = PokerHand::from_parse(0, "4S 4D 9H 10H 11H").unwrap();
    let b = PokerHand::from_parse(1, "4C 4H 9S 10S JS").unwrap();
    assert_eq!(a.compare(&b), Ordering::Equal);
}

#[test]
fn four_of_a_kind_beats_full_house() {
    let hands = vec!["2S 2H 2D 2C 9S", "AS AH AD KC KS"];
    assert_eq!(winning_hands(&hands).unwrap(), vec!["2S 2H 2D 2C 9S"]);
}

#[test]
fn equal_fours_of_a_kind_fall_back_to_the_spare_card() {
    let hands = vec!["9S 9H 9D 9C 2S", "9S 9H 9D 9C 3H"];
    assert_eq!(winning_hands(&hands).unwrap(), vec!["9S 9H 9D 9C 3H"]);
}

#[test]
fn high_card_hands_compare_rank_by_rank() {
    let hands = vec!["9S 8H 5D 4C 2S", "9C 8D 5H 4S 3D"];
    assert_eq!(winning_hands(&hands).unwrap(), vec!["9C 8D 5H 4S 3D"]);
}

#[test]
fn hands_with_equal_ranks_are_equal_whatever_the_suits() {
    let a = PokerHand::from_parse(0, "4D 5D 6D 7D 8D").unwrap();
    let b = PokerHand::from_parse(1, "4S 5S 6S 7S 8S").unwrap();
    let c = PokerHand::from_parse(2, "4S 5S 6S 7S 9S").unwrap();
    assert!(a == b);
    assert!(a != c);
}
