use auto_sage::board::{ColumnId, Position, RowId};
use auto_sage::card::{Card, Rank, Suit};
use auto_sage::game::Game;
use auto_sage::hand::{is_straight, Hand};

// -----------------------------------------------------------
// Testing helpers

fn c(src: &str) -> Card {
    let mut chars = src.chars();
    let r = match chars.next().expect("need a rank") {
        'a' => Rank::Ace,
        '2' => Rank::Two,
        '3' => Rank::Three,
        '4' => Rank::Four,
        '5' => Rank::Five,
        '6' => Rank::Six,
        '7' => Rank::Seven,
        '8' => Rank::Eight,
        '9' => Rank::Nine,
        '0' => Rank::Ten,
        'j' => Rank::Jack,
        'q' => Rank::Queen,
        'k' => Rank::King,
        _ => panic!("Invalid rank character"),
    };
    let s = match chars.next().expect("need a suit") {
        'c' => Suit::Club,
        'd' => Suit::Diamond,
        'h' => Suit::Heart,
        's' => Suit::Spade,
        _ => panic!("Invalid suit character"),
    };
    Card(r, s)
}

fn cards(srcs: &[&str]) -> Vec<Card> {
    srcs.iter().map(|s| c(s)).collect()
}

fn p(src: &str) -> Position {
    let mut chars = src.chars();
    let r = match chars.next().expect("need a row") {
        't' => RowId::Top,
        'm' => RowId::Middle,
        'b' => RowId::Bottom,
        _ => panic!("Invalid row char"),
    };
    let col = match chars.next().expect("need a column") {
        'l' => ColumnId::Left,
        'c' => ColumnId::Center,
        'r' => ColumnId::Right,
        _ => panic!("Invalid column char"),
    };
    Position(r, col)
}

fn insert_card(g: &mut Game, p_src: &str, c_src: &str) {
    let s = g.spread.get_stack_mut(p(p_src));
    s.push(c(c_src));
}

fn select(g: &mut Game, p_srcs: &str) {
    g.selected.clear();
    for p_src in p_srcs.split(' ') {
        g.selected.insert(p(p_src));
    }
}

// ----------------------------------------------------
// Predicate tests

#[test]
fn test_is_straight() {
    assert!(is_straight(&cards(&["as", "2s", "3s"])));
    assert!(is_straight(&cards(&["3s", "as", "2s"])));
    assert!(is_straight(&cards(&["9d", "0c", "jh", "qs"])));
    assert!(is_straight(&cards(&["jd", "qh", "ks", "ac"])));
}

#[test]
fn test_is_not_straight() {
    assert!(!is_straight(&cards(&["as", "2s", "5s"])));
    assert!(!is_straight(&cards(&["kd", "as", "2h"])));
}

// ----------------------------------------------------
// Board querying

#[test]
fn test_rows_counting() {
    let mut g = Game::empty();
    assert_eq!(g.selected_rows(), 0);
    g.selected.insert(p("tl"));
    assert_eq!(g.selected_rows(), 1);
    g.selected.insert(p("tc"));
    assert_eq!(g.selected_rows(), 1);
    g.selected.insert(p("mr"));
    assert_eq!(g.selected_rows(), 2);
    g.selected.insert(p("bl"));
    assert_eq!(g.selected_rows(), 3);
}

// -------------------------------------------------------
// Hands

#[test]
fn check_no_selection_has_no_move() {
    let g = Game::empty();
    assert!(g.selected_hand().is_none())
}

#[test]
fn check_one_selected_card_has_no_hand() {
    let mut g = Game::empty();
    insert_card(&mut g, "tl", "2s");
    g.selected.insert(p("tl"));
    assert_eq!(g.selected.len(), 1);
    assert!(g.selected_hand().is_none());
}

#[test]
fn check_pairs() {
    let g = &mut Game::empty();
    insert_card(g, "tl", "2s");
    insert_card(g, "tr", "2c");
    insert_card(g, "bl", "2h");
    insert_card(g, "br", "3s");
    select(g, "tl tr");
    assert!(g.selected_hand().is_none(), "Pair in same row is no hand");
    select(g, "tl br");
    assert!(g.selected_hand().is_none(), "Not-equal cards are not pair");
    select(g, "tl bl");
    assert!(g.selected_hand().is_some());
    assert_eq!(
        g.selected_hand().expect("Expected to have selected a pair"),
        Hand::Pair
    );
}

#[test]
fn check_3_of_a_kind() {
    let g = &mut Game::empty();
    insert_card(g, "tl", "as");
    insert_card(g, "tc", "ad");
    insert_card(g, "tr", "ah");
    insert_card(g, "ml", "ac");
    insert_card(g, "mc", "2h");
    select(g, "tl tc tr");
    assert!(
        g.selected_hand().is_none(),
        "One row can't be a three-of-a-kind"
    );
    select(g, "tl tc ml");
    assert_eq!(g.selected_hand().unwrap(), Hand::ThreeOfAKind);
    select(g, "tl tc mc");
    assert!(
        g.selected_hand().is_none(),
        "Three cards with a mach isn't a three-off-a-kind"
    );
    select(g, "tl tc ml mc");
    assert!(
        g.selected_hand().is_none(),
        "Four with three matches isn't a three-of-a-kind"
    );
}

#[test]
fn test_small_straight() {
    let g = &mut Game::empty();
    insert_card(g, "tl", "as");
    insert_card(g, "tc", "2s");
    insert_card(g, "tr", "3s");
    insert_card(g, "ml", "3c");
    insert_card(g, "mc", "ks");
    select(g, "tl tc tr");
    assert!(g.selected_hand().is_none(), "One row cant be a straight");
    select(g, "tl tc ml");
    assert_eq!(g.selected_hand().unwrap(), Hand::StraightThree);
    select(g, "tl tc mc");
    assert!(g.selected_hand().is_none(), "Can't wrap a straight");
}

#[test]
fn test_four_of_a_kind() {
    let g = &mut Game::empty();
    insert_card(g, "tl", "as");
    insert_card(g, "tc", "ad");
    insert_card(g, "tr", "ah");
    insert_card(g, "ml", "ac");
    insert_card(g, "mc", "2c");
    select(g, "tl tc tr ml");
    assert_eq!(g.selected_hand().unwrap(), Hand::FourOfAKind);
    select(g, "tl tc tr mc");
    assert!(g.selected_hand().is_none());
}

#[test]
fn test_straight() {
    let g = &mut Game::empty();
    insert_card(g, "tl", "ah");
    insert_card(g, "tc", "2h");
    insert_card(g, "tr", "3h");
    insert_card(g, "ml", "4d");
    insert_card(g, "mc", "5d");
    insert_card(g, "mr", "ks");
    select(g, "tl tc tr ml mc");
    assert_eq!(g.selected_hand().unwrap(), Hand::StraightFive);
    select(g, "tl tc tr ml mr");
    assert!(g.selected_hand().is_none());
}

#[test]
fn test_straight_flush() {
    let g = &mut Game::empty();
    insert_card(g, "tl", "ah");
    insert_card(g, "tc", "2h");
    insert_card(g, "tr", "3h");
    insert_card(g, "ml", "4h");
    insert_card(g, "mc", "5h");
    insert_card(g, "mr", "ks");
    insert_card(g, "bl", "5d");

    select(g, "tl tc tr ml mc");
    assert_eq!(g.selected_hand().unwrap(), Hand::StraightFlush);

    select(g, "tl tc tr ml mr");
    assert!(g.selected_hand().is_none());

    select(g, "tl tc tr ml bl");
    assert_eq!(
        g.selected_hand().unwrap(),
        Hand::StraightFive,
        "Mixed suit means straight, not straight flush"
    );
}

#[test]
fn test_full_house() {
    let g = &mut Game::empty();
    insert_card(g, "tl", "as");
    insert_card(g, "tc", "ac");
    insert_card(g, "tr", "ad");
    insert_card(g, "ml", "8s");
    insert_card(g, "mc", "8d");
    select(g, "tl tc tr ml mc");
    assert_eq!(g.selected_hand().unwrap(), Hand::FullHouse);
}

#[test]
fn test_over_selection() {
    let g = &mut Game::empty();
    insert_card(g, "tl", "ah");
    insert_card(g, "tc", "2h");
    insert_card(g, "tr", "3h");
    insert_card(g, "ml", "4h");
    insert_card(g, "mc", "5h");
    insert_card(g, "mr", "ks");
    insert_card(g, "bl", "5d");
    select(g, "tl tr tc ml mr mc");
    assert!(g.selected_hand().is_none());
}

// -------------------------------------------------------
// Further hand rules

#[test]
fn test_full_house_checked_before_straight_and_flush() {
    // Rank multiplicities 2 + 3 settle the hand before any straight or
    // flush evaluation is consulted.
    let g = &mut Game::empty();
    insert_card(g, "tl", "8s");
    insert_card(g, "tc", "8d");
    insert_card(g, "tr", "8h");
    insert_card(g, "ml", "9s");
    insert_card(g, "mc", "9d");
    select(g, "tl tc tr ml mc");
    assert_eq!(g.selected_hand().unwrap(), Hand::FullHouse);
}

#[test]
fn test_flush_without_straight() {
    let g = &mut Game::empty();
    insert_card(g, "tl", "2h");
    insert_card(g, "tc", "5h");
    insert_card(g, "tr", "7h");
    insert_card(g, "ml", "9h");
    insert_card(g, "mc", "kh");
    select(g, "tl tc tr ml mc");
    assert_eq!(g.selected_hand().unwrap(), Hand::Flush);
}

#[test]
fn test_hand_points_table() {
    assert_eq!(Hand::Pair.points(), 1);
    assert_eq!(Hand::StraightThree.points(), 2);
    assert_eq!(Hand::ThreeOfAKind.points(), 3);
    assert_eq!(Hand::StraightFive.points(), 5);
    assert_eq!(Hand::FullHouse.points(), 7);
    assert_eq!(Hand::Flush.points(), 9);
    assert_eq!(Hand::FourOfAKind.points(), 10);
    assert_eq!(Hand::StraightFlush.points(), 15);
}
