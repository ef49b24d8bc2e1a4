use auto_sage::card::{Rank, Suit};
use auto_sage::hand::all_eq;

#[test]
fn gamemodel_test_suit_ranking() {
    // This also checks that Enum ordering works the way I think it does.
    assert!(Suit::Spade == Suit::Spade);
    assert!(Suit::Club < Suit::Diamond);
    assert!(Suit::Diamond < Suit::Heart);
    assert!(Suit::Heart < Suit::Spade);
}

#[test]
fn model_test_suit_ranking() {
    // This also checks that Enum ordering works the way I think it does.
    assert!(Suit::Spade == Suit::Spade);
    assert!(Suit::Club < Suit::Diamond);
    assert!(Suit::Diamond < Suit::Heart);
    assert!(Suit::Heart < Suit::Spade);
}

#[test]
fn test_all_eq() {
    let empty: Vec<u8> = vec![];
    assert!(all_eq(&empty));
    let one = vec![0];
    assert!(all_eq(&one));
    let two_match = vec![0, 0];
    assert!(all_eq(&two_match));
    let three_match = vec![1, 1, 1];
    assert!(all_eq(&three_match));
    let two_mismatch = vec![1, 0];
    assert!(!all_eq(&two_mismatch));
    let three_mismatch = vec![1, 1, 0];
    assert!(!all_eq(&three_mismatch))
}

#[test]
fn test_successor_steps_and_wraps() {
    assert_eq!(Rank::Ace.successor(), Rank::Two);
    assert_eq!(Rank::Ten.successor(), Rank::Jack);
    assert_eq!(Rank::Queen.successor(), Rank::King);
    assert_eq!(Rank::King.successor(), Rank::Ace);
}
