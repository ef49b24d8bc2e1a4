//! The message-driven update function: the one place where game state is
//! mutated.
use vstd::prelude::*;
use crate::board::Position;
use crate::card::Card;
use crate::game::{restored_spec, spent_spec, Game, Move, Msg, Trashes};
use crate::newgame::dealt_game;

verus! {

/// What toggling a position does: deselect it if selected; select it if its
/// stack is non-empty; otherwise nothing (selecting an empty stack is
/// silently ignored).
pub open spec fn toggle_spec(g0: Game, g1: Game, p: Position) -> bool {
    &&& g1.spread == g0.spread
    &&& g1.trashes == g0.trashes
    &&& g1.bonus_card == g0.bonus_card
    &&& (if g0.selected.has(p) {
        &&& !g1.selected.has(p)
        &&& forall|q: Position| q != p ==> #[trigger] g1.selected.has(q) == g0.selected.has(q)
    } else if g0.spread.at(p).len() >= 1 {
        &&& g1.selected.has(p)
        &&& forall|q: Position| q != p ==> #[trigger] g1.selected.has(q) == g0.selected.has(q)
    } else {
        g1.selected == g0.selected
    })
}

/// What committing a move does: nothing when no move is legal; a discard
/// spends a charge and pops the one selected stack; a played hand pops every
/// selected stack and restores a charge. Either move clears the selection.
pub open spec fn make_move_spec(g0: Game, g1: Game) -> bool {
    match g0.move_spec() {
        None => g1 == g0,
        Some(Move::Trash(p)) => {
            &&& forall|q: Position| !(#[trigger] g1.selected.has(q))
            &&& g1.selected.count() == 0
            &&& g1.trashes == spent_spec(g0.trashes)
            &&& g1.spread.at(p) == g0.spread.at(p).drop_last()
            &&& forall|q: Position| q != p ==> #[trigger] g1.spread.at(q) == g0.spread.at(q)
            &&& g1.bonus_card == g0.bonus_card
        },
        Some(Move::PlayHand(_h)) => {
            &&& forall|q: Position| !(#[trigger] g1.selected.has(q))
            &&& g1.selected.count() == 0
            &&& g1.trashes == restored_spec(g0.trashes)
            &&& forall|q: Position|
                #[trigger] g1.spread.at(q) == (if g0.selected.has(q) {
                    g0.spread.at(q).drop_last()
                } else {
                    g0.spread.at(q)
                })
            &&& g1.bonus_card == g0.bonus_card
        },
    }
}

/// Applies one message to the game. Toggles keep the selection on non-empty
/// stacks only, so the selection invariant is maintained; committing a move
/// mutates the board exactly as the resolved move dictates; a new game is
/// dealt afresh.
pub fn update(msg: Msg, game: &mut Game)
    requires
        old(game).sel_ok(),
    ensures
        final(game).sel_ok(),
        match msg {
            Msg::MakeMove => make_move_spec(*old(game), *final(game)),
            Msg::ToggleStack(p) => toggle_spec(*old(game), *final(game), p),
            Msg::NewGame => dealt_game(*final(game)),
        },
{
    match msg {
        Msg::MakeMove => {
            let mv_opt = game.selected_move();
            match mv_opt {
                Some(mv) => match mv {
                    Move::Trash(p) => {
                        proof {
                            assert(game.selected.has(p));
                        }
                        game.spend_one_trash();
                        let st = game.spread.get_stack_mut(p);
                        st.pop();
                        game.selected.clear();
                    },
                    Move::PlayHand(_h) => {
                        game.pop_selected();
                        game.restore_one_trash();
                        game.selected.clear();
                    },
                },
                None => (),
            }
        },
        Msg::NewGame => {
            game.reset();
        },
        Msg::ToggleStack(p) => {
            if game.selected.contains(p) {
                game.selected.remove(p);
            } else {
                let s = game.spread.get_stack(p);
                if s.len() > 0 {
                    game.selected.insert(p);
                }
            }
        },
    }
}

impl Game {
    /// Pops the top card of every selected stack; the selection itself, the
    /// trash balance and the bonus card stay as they are.
    fn pop_selected(&mut self)
        requires
            old(self).sel_ok(),
        ensures
            forall|q: Position|
                #[trigger] final(self).spread.at(q) == (if old(self).selected.has(q) {
                    old(self).spread.at(q).drop_last()
                } else {
                    old(self).spread.at(q)
                }),
            final(self).selected == old(self).selected,
            final(self).trashes == old(self).trashes,
            final(self).bonus_card == old(self).bonus_card,
    {
        proof {
            assert(self.selected.has(Position(
                crate::board::RowId::Top,
                crate::board::ColumnId::Left,
            )) == self.selected.tl);
            assert(self.selected.has(Position(
                crate::board::RowId::Top,
                crate::board::ColumnId::Center,
            )) == self.selected.tc);
            assert(self.selected.has(Position(
                crate::board::RowId::Top,
                crate::board::ColumnId::Right,
            )) == self.selected.tr);
            assert(self.selected.has(Position(
                crate::board::RowId::Middle,
                crate::board::ColumnId::Left,
            )) == self.selected.ml);
            assert(self.selected.has(Position(
                crate::board::RowId::Middle,
                crate::board::ColumnId::Center,
            )) == self.selected.mc);
            assert(self.selected.has(Position(
                crate::board::RowId::Middle,
                crate::board::ColumnId::Right,
            )) == self.selected.mr);
            assert(self.selected.has(Position(
                crate::board::RowId::Bottom,
                crate::board::ColumnId::Left,
            )) == self.selected.bl);
            assert(self.selected.has(Position(
                crate::board::RowId::Bottom,
                crate::board::ColumnId::Center,
            )) == self.selected.bc);
            assert(self.selected.has(Position(
                crate::board::RowId::Bottom,
                crate::board::ColumnId::Right,
            )) == self.selected.br);
        }
        let sel = self.selected;
        pop_if(&mut self.spread.tl, sel.tl);
        pop_if(&mut self.spread.tc, sel.tc);
        pop_if(&mut self.spread.tr, sel.tr);
        pop_if(&mut self.spread.ml, sel.ml);
        pop_if(&mut self.spread.mc, sel.mc);
        pop_if(&mut self.spread.mr, sel.mr);
        pop_if(&mut self.spread.bl, sel.bl);
        pop_if(&mut self.spread.bc, sel.bc);
        pop_if(&mut self.spread.br, sel.br);
    }
}

/// Pops the top card of a stack when the flag asks for it.
fn pop_if(st: &mut Vec<Card>, take: bool)
    requires
        take ==> old(st)@.len() >= 1,
    ensures
        final(st)@ == (if take {
            old(st)@.drop_last()
        } else {
            old(st)@
        }),
{
    if take {
        st.pop();
    }
    proof {
        if take {
            assert(st@ =~= old(st)@.drop_last());
        }
    }
}

} // verus!
