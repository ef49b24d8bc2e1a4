use auto_sage::card::{Card, Rank, Suit};
use auto_sage::deck;

#[test]
fn test_deck_size() {
    let deck = deck::new();
    assert!(deck.len() == 52);
}

#[test]
fn test_drawing() {
    for handsize in 0..52 {
        let mut deck = deck::new();
        let orig_len = deck.len();
        let hand = deck::draw(&mut deck, handsize);
        assert!(hand.len() == handsize);
        assert!(hand.len() + deck.len() == orig_len);
    }
}

#[test]
fn test_deck_has_every_card() {
    let deck = deck::new();
    let ranks = [
        Rank::Ace,
        Rank::Two,
        Rank::Three,
        Rank::Four,
        Rank::Five,
        Rank::Six,
        Rank::Seven,
        Rank::Eight,
        Rank::Nine,
        Rank::Ten,
        Rank::Jack,
        Rank::Queen,
        Rank::King,
    ];
    let suits = [Suit::Club, Suit::Diamond, Suit::Heart, Suit::Spade];
    for r in ranks {
        for s in suits {
            assert!(deck.contains(&Card::new(r, s)));
        }
    }
}

#[test]
fn test_shuffle_keeps_the_same_cards() {
    let mut deck = deck::new();
    deck::shuffle(&mut deck);
    assert_eq!(deck.len(), 52);
    let mut seen = deck.clone();
    seen.sort();
    let mut reference = deck::new();
    reference.sort();
    assert_eq!(seen, reference);
}

#[test]
fn test_draw_takes_from_the_top() {
    let mut deck = vec![
        Card::new(Rank::Ace, Suit::Club),
        Card::new(Rank::Two, Suit::Heart),
        Card::new(Rank::King, Suit::Spade),
    ];
    let hand = deck::draw(&mut deck, 2);
    assert_eq!(
        hand,
        vec![
            Card::new(Rank::King, Suit::Spade),
            Card::new(Rank::Two, Suit::Heart)
        ]
    );
    assert_eq!(deck, vec![Card::new(Rank::Ace, Suit::Club)]);
}
