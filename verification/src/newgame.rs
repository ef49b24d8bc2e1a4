//! Dealing a fresh game: the fixed pile layout, the deal itself, and the
//! accounting law that no card is lost or duplicated by it.
use vstd::prelude::*;
use crate::board::{ColumnId, Position, RowId, Selection, Spread};
use crate::card::Card;
use crate::deck;
use crate::deck::full_deck;
use crate::game::{Game, Trashes};

verus! {

/// The number of cards dealt to each stack at game start: eight per top
/// stack, then seven down to two left to right across the middle and bottom
/// rows; 51 in all, leaving one bonus card.
pub open spec fn pile_size_spec(pos: Position) -> int {
    match pos {
        Position(RowId::Top, ColumnId::Left) => 8,
        Position(RowId::Top, ColumnId::Center) => 8,
        Position(RowId::Top, ColumnId::Right) => 8,
        Position(RowId::Middle, ColumnId::Left) => 7,
        Position(RowId::Middle, ColumnId::Center) => 6,
        Position(RowId::Middle, ColumnId::Right) => 5,
        Position(RowId::Bottom, ColumnId::Left) => 4,
        Position(RowId::Bottom, ColumnId::Center) => 3,
        Position(RowId::Bottom, ColumnId::Right) => 2,
    }
}

/// The number of cards dealt to the stack at a position at game start.
pub fn pile_size(pos: Position) -> (n: usize)
    ensures
        n == pile_size_spec(pos),
{
    match pos {
        Position(RowId::Top, ColumnId::Left) => 8,
        Position(RowId::Top, ColumnId::Center) => 8,
        Position(RowId::Top, ColumnId::Right) => 8,
        Position(RowId::Middle, ColumnId::Left) => 7,
        Position(RowId::Middle, ColumnId::Center) => 6,
        Position(RowId::Middle, ColumnId::Right) => 5,
        Position(RowId::Bottom, ColumnId::Left) => 4,
        Position(RowId::Bottom, ColumnId::Center) => 3,
        Position(RowId::Bottom, ColumnId::Right) => 2,
    }
}

/// A freshly dealt game: the fixed pile sizes, nothing selected, the full
/// trash balance, and the 52 deck cards spread over the stacks and the
/// bonus card with none lost or duplicated.
pub open spec fn dealt_game(g: Game) -> bool {
    &&& forall|p: Position| #[trigger] g.spread.at(p).len() == pile_size_spec(p)
    &&& forall|p: Position| !(#[trigger] g.selected.has(p))
    &&& g.selected.count() == 0
    &&& g.trashes == Trashes::Two
    &&& (g.spread.all_cards() + seq![g.bonus_card]).to_multiset() == full_deck().to_multiset()
}

impl Game {
    /// Deals a 52-card deck into the fixed layout, drawing from the top of
    /// the deck: the top row first, then the middle and bottom rows left to
    /// right, and the one remaining card as the bonus card.
    pub fn deal(deck: Vec<Card>) -> (g: Game)
        requires
            deck@.len() == 52,
        ensures
            g.spread.tl@ == deck@.subrange(44, 52).reverse(),
            g.spread.tc@ == deck@.subrange(36, 44).reverse(),
            g.spread.tr@ == deck@.subrange(28, 36).reverse(),
            g.spread.ml@ == deck@.subrange(21, 28).reverse(),
            g.spread.mc@ == deck@.subrange(15, 21).reverse(),
            g.spread.mr@ == deck@.subrange(10, 15).reverse(),
            g.spread.bl@ == deck@.subrange(6, 10).reverse(),
            g.spread.bc@ == deck@.subrange(3, 6).reverse(),
            g.spread.br@ == deck@.subrange(1, 3).reverse(),
            g.bonus_card == deck@[0],
            forall|p: Position| !(#[trigger] g.selected.has(p)),
            g.selected.count() == 0,
            g.trashes == Trashes::Two,
            forall|p: Position| #[trigger] g.spread.at(p).len() == pile_size_spec(p),
            (g.spread.all_cards() + seq![g.bonus_card]).to_multiset() == deck@.to_multiset(),
    {
        let ghost d0 = deck@;
        let mut d = deck;
        let tl = deck::draw(&mut d, 8);
        proof {
            assert(d@ =~= d0.subrange(0, 44));
            assert(tl@ =~= d0.subrange(44, 52).reverse());
        }
        let tc = deck::draw(&mut d, 8);
        proof {
            assert(d@ =~= d0.subrange(0, 36));
            assert(tc@ =~= d0.subrange(36, 44).reverse());
        }
        let tr = deck::draw(&mut d, 8);
        proof {
            assert(d@ =~= d0.subrange(0, 28));
            assert(tr@ =~= d0.subrange(28, 36).reverse());
        }
        let ml = deck::draw(&mut d, 7);
        proof {
            assert(d@ =~= d0.subrange(0, 21));
            assert(ml@ =~= d0.subrange(21, 28).reverse());
        }
        let mc = deck::draw(&mut d, 6);
        proof {
            assert(d@ =~= d0.subrange(0, 15));
            assert(mc@ =~= d0.subrange(15, 21).reverse());
        }
        let mr = deck::draw(&mut d, 5);
        proof {
            assert(d@ =~= d0.subrange(0, 10));
            assert(mr@ =~= d0.subrange(10, 15).reverse());
        }
        let bl = deck::draw(&mut d, 4);
        proof {
            assert(d@ =~= d0.subrange(0, 6));
            assert(bl@ =~= d0.subrange(6, 10).reverse());
        }
        let bc = deck::draw(&mut d, 3);
        proof {
            assert(d@ =~= d0.subrange(0, 3));
            assert(bc@ =~= d0.subrange(3, 6).reverse());
        }
        let br = deck::draw(&mut d, 2);
        proof {
            assert(d@ =~= d0.subrange(0, 1));
            assert(br@ =~= d0.subrange(1, 3).reverse());
        }
        let bonus_card = match d.pop() {
            Some(c) => c,
            None => {
                proof {
                    assert(false);
                }
                Card::new(crate::card::Rank::Ace, crate::card::Suit::Club)
            },
        };
        let g = Game {
            spread: Spread { tl, tc, tr, ml, mc, mr, bl, bc, br },
            selected: Selection::new(),
            trashes: Trashes::Two,
            bonus_card,
        };
        proof {
            assert(g.bonus_card == d0[0]);
            lemma_deal_partition(d0, g);
        }
        g
    }

    /// Deals a freshly shuffled deck into a new game with the full trash
    /// balance and an empty selection.
    pub fn generate() -> (g: Game)
        ensures
            dealt_game(g),
            g.sel_ok(),
    {
        let mut d = deck::new();
        deck::shuffle(&mut d);
        let g = Game::deal(d);
        g
    }

    /// Replaces the whole state with a freshly dealt game: new board, empty
    /// selection, full trash balance, new bonus card.
    pub fn reset(&mut self)
        ensures
            dealt_game(*final(self)),
            final(self).sel_ok(),
    {
        let mut d = deck::new();
        deck::shuffle(&mut d);
        *self = Game::deal(d);
    }
}

/// Dealing is a partition: the nine piles plus the bonus card hold exactly
/// the cards of the deck they were drawn from.
proof fn lemma_deal_partition(d0: Seq<Card>, g: Game)
    requires
        d0.len() == 52,
        g.spread.tl@ == d0.subrange(44, 52).reverse(),
        g.spread.tc@ == d0.subrange(36, 44).reverse(),
        g.spread.tr@ == d0.subrange(28, 36).reverse(),
        g.spread.ml@ == d0.subrange(21, 28).reverse(),
        g.spread.mc@ == d0.subrange(15, 21).reverse(),
        g.spread.mr@ == d0.subrange(10, 15).reverse(),
        g.spread.bl@ == d0.subrange(6, 10).reverse(),
        g.spread.bc@ == d0.subrange(3, 6).reverse(),
        g.spread.br@ == d0.subrange(1, 3).reverse(),
        g.bonus_card == d0[0],
    ensures
        (g.spread.all_cards() + seq![g.bonus_card]).to_multiset() == d0.to_multiset(),
{
    broadcast use vstd::seq_lib::lemma_multiset_commutative;
    broadcast use vstd::multiset::group_multiset_axioms;

    d0.subrange(44, 52).lemma_reverse_to_multiset();
    d0.subrange(36, 44).lemma_reverse_to_multiset();
    d0.subrange(28, 36).lemma_reverse_to_multiset();
    d0.subrange(21, 28).lemma_reverse_to_multiset();
    d0.subrange(15, 21).lemma_reverse_to_multiset();
    d0.subrange(10, 15).lemma_reverse_to_multiset();
    d0.subrange(6, 10).lemma_reverse_to_multiset();
    d0.subrange(3, 6).lemma_reverse_to_multiset();
    d0.subrange(1, 3).lemma_reverse_to_multiset();
    let rest = d0.subrange(1, 3) + d0.subrange(3, 6) + d0.subrange(6, 10) + d0.subrange(10, 15)
        + d0.subrange(15, 21) + d0.subrange(21, 28) + d0.subrange(28, 36) + d0.subrange(36, 44)
        + d0.subrange(44, 52);
    assert(d0 =~= d0.subrange(0, 1) + rest);
    assert(seq![g.bonus_card] =~= d0.subrange(0, 1));
    assert((g.spread.all_cards() + seq![g.bonus_card]).to_multiset() =~= d0.to_multiset());
}

/// Law: a game dealt from a full deck accounts for exactly the 52 distinct
/// cards: the nine stacks hold 51 of them, the bonus card is the last one,
/// and no card appears twice.
pub proof fn lemma_dealt_game_counts(g: Game)
    requires
        dealt_game(g),
    ensures
        g.spread.all_cards().len() == 51,
        (g.spread.all_cards() + seq![g.bonus_card]).no_duplicates(),
{
    broadcast use vstd::seq_lib::group_to_multiset_ensures;

    lemma_full_deck_no_duplicates();
    let all = g.spread.all_cards() + seq![g.bonus_card];
    assert(all.to_multiset().len() == full_deck().to_multiset().len());
    assert(all.len() == 52);
    full_deck().lemma_multiset_has_no_duplicates();
    assert forall|x: Card| all.to_multiset().contains(x) implies all.to_multiset().count(x)
        == 1 by {
        assert(full_deck().to_multiset().count(x) == all.to_multiset().count(x));
    }
    all.lemma_multiset_has_no_duplicates_conv();
}

/// The 52 construction-order deck cards are pairwise distinct.
pub proof fn lemma_full_deck_no_duplicates()
    ensures
        full_deck().no_duplicates(),
{
    assert forall|i: int, j: int|
        0 <= i < full_deck().len() && 0 <= j < full_deck().len() && i != j implies full_deck()[i]
        != full_deck()[j] by {
        vstd::arithmetic::div_mod::lemma_fundamental_div_mod(i, 4);
        vstd::arithmetic::div_mod::lemma_fundamental_div_mod(j, 4);
        assert(crate::card::rank_val(crate::card::rank_from_val(i / 4)) == i / 4);
        assert(crate::card::rank_val(crate::card::rank_from_val(j / 4)) == j / 4);
        assert(crate::card::suit_val(crate::card::suit_from_val(i % 4)) == i % 4);
        assert(crate::card::suit_val(crate::card::suit_from_val(j % 4)) == j % 4);
    }
}

} // verus!
