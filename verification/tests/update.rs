use auto_sage::board::{ColumnId, Position, RowId};
use auto_sage::card::{Card, Rank, Suit};
use auto_sage::game::{Game, Move, Msg, Trashes};
use auto_sage::update::update;

fn tl() -> Position {
    Position(RowId::Top, ColumnId::Left)
}

fn tc() -> Position {
    Position(RowId::Top, ColumnId::Center)
}

fn bl() -> Position {
    Position(RowId::Bottom, ColumnId::Left)
}

#[test]
fn test_trash_economy_spend_and_cap() {
    let mut g = Game::empty();
    assert_eq!(g.trashes, Trashes::Two);
    g.spend_one_trash();
    assert_eq!(g.trashes, Trashes::One);
    g.spend_one_trash();
    assert_eq!(g.trashes, Trashes::Zero);
    g.restore_one_trash();
    assert_eq!(g.trashes, Trashes::One);
    g.restore_one_trash();
    assert_eq!(g.trashes, Trashes::Two);
    g.restore_one_trash();
    assert_eq!(g.trashes, Trashes::Two, "restoring at the cap is a no-op");
}

#[test]
fn test_toggle_selects_and_deselects() {
    let mut g = Game::empty();
    g.spread.get_stack_mut(tl()).push(Card::new(Rank::Five, Suit::Club));
    update(Msg::ToggleStack(tl()), &mut g);
    assert!(g.selected.contains(tl()));
    update(Msg::ToggleStack(tl()), &mut g);
    assert!(!g.selected.contains(tl()));
}

#[test]
fn test_toggle_of_empty_stack_is_ignored() {
    let mut g = Game::empty();
    update(Msg::ToggleStack(tl()), &mut g);
    assert!(!g.selected.contains(tl()));
    assert_eq!(g.selected.len(), 0);
}

#[test]
fn test_trash_move_spends_a_charge_and_pops() {
    let mut g = Game::empty();
    g.spread.get_stack_mut(tl()).push(Card::new(Rank::Five, Suit::Club));
    g.spread.get_stack_mut(tl()).push(Card::new(Rank::Nine, Suit::Heart));
    update(Msg::ToggleStack(tl()), &mut g);
    assert!(matches!(g.selected_move(), Some(Move::Trash(p)) if p == tl()));
    update(Msg::MakeMove, &mut g);
    assert_eq!(g.spread.get_stack(tl()).len(), 1);
    assert_eq!(
        g.spread.get_stack(tl()).last(),
        Some(&Card::new(Rank::Five, Suit::Club))
    );
    assert_eq!(g.trashes, Trashes::One);
    assert_eq!(g.selected.len(), 0);
}

// Deterministic end-to-end play: arrange the deck so two aces of different
// suits surface on stacks in different rows, then play them as a pair.
#[test]
fn test_play_pair_of_aces_end_to_end() {
    let mut deck = auto_sage::deck::new();
    // After dealing, the exposed card of the top-left stack is deck[44] and
    // of the bottom-left stack deck[6]; put the Ace of Spades and the Ace of
    // Hearts there.
    deck.swap(44, 3);
    deck.swap(6, 2);
    let mut g = Game::deal(deck);
    assert_eq!(
        g.spread.get_stack(tl()).last(),
        Some(&Card::new(Rank::Ace, Suit::Spade))
    );
    assert_eq!(
        g.spread.get_stack(bl()).last(),
        Some(&Card::new(Rank::Ace, Suit::Heart))
    );
    g.spend_one_trash();
    assert_eq!(g.trashes, Trashes::One);

    update(Msg::ToggleStack(tl()), &mut g);
    update(Msg::ToggleStack(bl()), &mut g);
    assert!(matches!(
        g.selected_move(),
        Some(Move::PlayHand(auto_sage::hand::Hand::Pair))
    ));
    update(Msg::MakeMove, &mut g);

    assert_eq!(g.spread.get_stack(tl()).len(), 7, "top-left lost its top card");
    assert_eq!(
        g.spread.get_stack(bl()).len(),
        3,
        "bottom-left lost its top card"
    );
    assert_eq!(g.trashes, Trashes::Two, "one charge restored");
    assert_eq!(g.selected.len(), 0, "selection cleared");
}

#[test]
fn test_play_restores_at_most_to_the_cap() {
    let mut deck = auto_sage::deck::new();
    deck.swap(44, 3);
    deck.swap(6, 2);
    let mut g = Game::deal(deck);
    assert_eq!(g.trashes, Trashes::Two);
    update(Msg::ToggleStack(tl()), &mut g);
    update(Msg::ToggleStack(bl()), &mut g);
    update(Msg::MakeMove, &mut g);
    assert_eq!(g.trashes, Trashes::Two, "restore saturates at two");
}

// With no trash charge left, a one-stack selection offers no move and
// committing changes nothing.
#[test]
fn test_no_trash_means_no_discard() {
    let mut g = Game::empty();
    g.spread.get_stack_mut(tc()).push(Card::new(Rank::Seven, Suit::Diamond));
    g.trashes = Trashes::Zero;
    update(Msg::ToggleStack(tc()), &mut g);
    assert!(g.selected_move().is_none());
    update(Msg::MakeMove, &mut g);
    assert_eq!(g.spread.get_stack(tc()).len(), 1, "no card was removed");
    assert_eq!(g.trashes, Trashes::Zero);
    assert!(g.selected.contains(tc()), "the selection is left as it was");
}

#[test]
fn test_make_move_without_selection_is_ignored() {
    let mut g = Game::empty();
    g.spread.get_stack_mut(tl()).push(Card::new(Rank::Five, Suit::Club));
    update(Msg::MakeMove, &mut g);
    assert_eq!(g.spread.get_stack(tl()).len(), 1);
    assert_eq!(g.trashes, Trashes::Two);
}

#[test]
fn test_new_game_message_redeals() {
    let mut g = Game::empty();
    update(Msg::NewGame, &mut g);
    assert_eq!(g.remaining_cards().len(), 51);
    assert_eq!(g.trashes, Trashes::Two);
    assert_eq!(g.selected.len(), 0);
}
