use auto_sage::board::{ColumnId, Position, RowId};
use auto_sage::game::{Game, Trashes};
use auto_sage::newgame::pile_size;

fn all_positions() -> Vec<Position> {
    let mut ps = Vec::new();
    for row in [RowId::Top, RowId::Middle, RowId::Bottom] {
        for col in [ColumnId::Left, ColumnId::Center, ColumnId::Right] {
            ps.push(Position(row, col));
        }
    }
    ps
}

#[test]
fn test_pile_sizes() {
    let mut total = 0;
    for pos in all_positions() {
        total += pile_size(pos);
    }
    assert!(total == 51);
}

#[test]
fn test_generate_deals_the_layout() {
    let g = Game::generate();
    for pos in all_positions() {
        assert_eq!(g.spread.get_stack(pos).len(), pile_size(pos));
        assert!(!g.selected.contains(pos));
    }
    assert_eq!(g.trashes, Trashes::Two);
}

#[test]
fn test_generate_accounts_for_all_52_cards() {
    let g = Game::generate();
    let mut cards = g.remaining_cards();
    assert_eq!(cards.len(), 51);
    cards.push(g.bonus_card);
    let mut sorted = cards.clone();
    sorted.sort();
    sorted.dedup();
    assert_eq!(sorted.len(), 52, "every card distinct");
    let mut reference = auto_sage::deck::new();
    reference.sort();
    assert_eq!(sorted, reference, "exactly the 52 deck cards");
}

#[test]
fn test_reset_redeals_in_place() {
    let mut g = Game::generate();
    g.spend_one_trash();
    g.selected.insert(Position(RowId::Top, ColumnId::Left));
    g.reset();
    assert_eq!(g.trashes, Trashes::Two);
    for pos in all_positions() {
        assert_eq!(g.spread.get_stack(pos).len(), pile_size(pos));
        assert!(!g.selected.contains(pos));
    }
    assert_eq!(g.remaining_cards().len(), 51);
}

#[test]
fn test_deal_is_deterministic() {
    let g1 = Game::deal(auto_sage::deck::new());
    let g2 = Game::deal(auto_sage::deck::new());
    assert_eq!(g1.bonus_card, g2.bonus_card);
    for pos in all_positions() {
        assert_eq!(g1.spread.get_stack(pos), g2.spread.get_stack(pos));
    }
}
