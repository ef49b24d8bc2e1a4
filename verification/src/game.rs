//! The game aggregate: board, selection, trash balance and bonus card, with
//! the queries that resolve the currently legal move.
use vstd::prelude::*;
use crate::board::{ColumnId, Position, RowId, Selection, Spread};
use crate::card::Card;
use crate::hand::{classify, Hand};

verus! {

/// The bounded counter of discard charges: zero, one or two.
#[derive(Clone, Copy, Debug, PartialEq, Eq, Structural)]
pub enum Trashes {
    Zero,
    One,
    Two,
}

/// The numeric value of a trash balance.
pub open spec fn trash_count(t: Trashes) -> int {
    match t {
        Trashes::Zero => 0,
        Trashes::One => 1,
        Trashes::Two => 2,
    }
}

/// The balance after one discard charge is spent; an empty balance stays
/// empty, but spending from it is ruled out by `spend_one_trash`'s
/// precondition.
pub open spec fn spent_spec(t: Trashes) -> Trashes {
    match t {
        Trashes::Two => Trashes::One,
        Trashes::One => Trashes::Zero,
        Trashes::Zero => Trashes::Zero,
    }
}

/// The balance after one discard charge is restored, saturating at two.
pub open spec fn restored_spec(t: Trashes) -> Trashes {
    match t {
        Trashes::Zero => Trashes::One,
        Trashes::One => Trashes::Two,
        Trashes::Two => Trashes::Two,
    }
}

/// Law: spending decrements the balance and restoring increments it with a
/// cap at two; in particular two spends take the full balance down to empty
/// (a third spend is ruled out by `spend_one_trash`'s precondition), and
/// restoring a full balance is a no-op.
pub proof fn lemma_trash_economy(t: Trashes)
    ensures
        t != Trashes::Zero ==> trash_count(spent_spec(t)) == trash_count(t) - 1,
        trash_count(restored_spec(t)) == (if trash_count(t) < 2 {
            trash_count(t) + 1
        } else {
            2
        }),
        spent_spec(spent_spec(Trashes::Two)) == Trashes::Zero,
        restored_spec(Trashes::Two) == Trashes::Two,
{
}

/// A message driving the game's update function.
#[derive(Clone, Copy, Debug)]
pub enum Msg {
    MakeMove,
    ToggleStack(Position),
    NewGame,
}

/// The single legal action implied by a selection: discard the top of one
/// stack, or play the selected cards as a hand.
#[derive(Clone, Copy, Debug, PartialEq, Eq, Structural)]
pub enum Move {
    Trash(Position),
    PlayHand(Hand),
}

/// The game aggregate: board, selection, trash balance and bonus card.
#[derive(Debug)]
pub struct Game {
    pub spread: Spread,
    pub selected: Selection,
    pub trashes: Trashes,
    pub bonus_card: Card,
}

impl Game {
    /// Every selected position owns a non-empty stack; the update function
    /// maintains this, so a top card can always be read at a selected
    /// position.
    pub open spec fn sel_ok(self) -> bool {
        forall|p: Position| #[trigger] self.selected.has(p) ==> self.spread.at(p).len() >= 1
    }

    /// The top card at a selected position, or nothing where the position is
    /// not selected.
    pub open spec fn sel_one(self, pos: Position) -> Seq<Card> {
        if self.selected.has(pos) {
            seq![self.spread.at(pos).last()]
        } else {
            Seq::empty()
        }
    }

    /// The cards exposed at the selected positions, in fixed board order
    /// (rows top to bottom, columns left to right).
    pub open spec fn selected_cards_seq(self) -> Seq<Card> {
        self.sel_one(Position(RowId::Top, ColumnId::Left)) + self.sel_one(
            Position(RowId::Top, ColumnId::Center),
        ) + self.sel_one(Position(RowId::Top, ColumnId::Right)) + self.sel_one(
            Position(RowId::Middle, ColumnId::Left),
        ) + self.sel_one(Position(RowId::Middle, ColumnId::Center)) + self.sel_one(
            Position(RowId::Middle, ColumnId::Right),
        ) + self.sel_one(Position(RowId::Bottom, ColumnId::Left)) + self.sel_one(
            Position(RowId::Bottom, ColumnId::Center),
        ) + self.sel_one(Position(RowId::Bottom, ColumnId::Right))
    }

    /// The first selected position in fixed board order (meaningful only
    /// when something is selected).
    pub open spec fn first_selected(self) -> Position {
        if self.selected.tl {
            Position(RowId::Top, ColumnId::Left)
        } else if self.selected.tc {
            Position(RowId::Top, ColumnId::Center)
        } else if self.selected.tr {
            Position(RowId::Top, ColumnId::Right)
        } else if self.selected.ml {
            Position(RowId::Middle, ColumnId::Left)
        } else if self.selected.mc {
            Position(RowId::Middle, ColumnId::Center)
        } else if self.selected.mr {
            Position(RowId::Middle, ColumnId::Right)
        } else if self.selected.bl {
            Position(RowId::Bottom, ColumnId::Left)
        } else if self.selected.bc {
            Position(RowId::Bottom, ColumnId::Center)
        } else {
            Position(RowId::Bottom, ColumnId::Right)
        }
    }

    /// The single legal move implied by the current state: nothing without a
    /// selection; a discard of the one selected stack while a charge is
    /// left; otherwise whatever hand the classifier finds.
    pub open spec fn move_spec(self) -> Option<Move> {
        if self.selected.count() == 0 {
            None
        } else if self.selected.count() == 1 {
            if self.trashes == Trashes::Zero {
                None
            } else {
                Some(Move::Trash(self.first_selected()))
            }
        } else {
            match classify(self.selected_cards_seq(), self.selected.rows()) {
                Some(h) => Some(Move::PlayHand(h)),
                None => None,
            }
        }
    }

    /// A game with an empty board, nothing selected, the full trash balance
    /// and the Ace of Spades as a placeholder bonus card.
    pub fn empty() -> (g: Game)
        ensures
            forall|p: Position| #[trigger] g.spread.at(p) == Seq::<Card>::empty(),
            forall|p: Position| !(#[trigger] g.selected.has(p)),
            g.selected.count() == 0,
            g.trashes == Trashes::Two,
            g.bonus_card == Card(crate::card::Rank::Ace, crate::card::Suit::Spade),
            g.sel_ok(),
    {
        Game {
            spread: Spread::empty(),
            selected: Selection::new(),
            trashes: Trashes::Two,
            bonus_card: Card::new(crate::card::Rank::Ace, crate::card::Suit::Spade),
        }
    }

    /// The cards exposed at the selected positions, in fixed board order.
    pub fn selected_cards(&self) -> (cards: Vec<Card>)
        requires
            self.sel_ok(),
        ensures
            cards@ == self.selected_cards_seq(),
            cards@.len() == self.selected.count(),
    {
        proof {
            assert(self.selected.has(Position(RowId::Top, ColumnId::Left)) == self.selected.tl);
            assert(self.selected.has(Position(RowId::Top, ColumnId::Center)) == self.selected.tc);
            assert(self.selected.has(Position(RowId::Top, ColumnId::Right)) == self.selected.tr);
            assert(self.selected.has(Position(RowId::Middle, ColumnId::Left)) == self.selected.ml);
            assert(self.selected.has(Position(RowId::Middle, ColumnId::Center))
                == self.selected.mc);
            assert(self.selected.has(Position(RowId::Middle, ColumnId::Right)) == self.selected.mr);
            assert(self.selected.has(Position(RowId::Bottom, ColumnId::Left)) == self.selected.bl);
            assert(self.selected.has(Position(RowId::Bottom, ColumnId::Center))
                == self.selected.bc);
            assert(self.selected.has(Position(RowId::Bottom, ColumnId::Right)) == self.selected.br);
        }
        let mut cards: Vec<Card> = Vec::new();
        push_top(&mut cards, &self.spread.tl, self.selected.tl);
        push_top(&mut cards, &self.spread.tc, self.selected.tc);
        push_top(&mut cards, &self.spread.tr, self.selected.tr);
        push_top(&mut cards, &self.spread.ml, self.selected.ml);
        push_top(&mut cards, &self.spread.mc, self.selected.mc);
        push_top(&mut cards, &self.spread.mr, self.selected.mr);
        push_top(&mut cards, &self.spread.bl, self.selected.bl);
        push_top(&mut cards, &self.spread.bc, self.selected.bc);
        push_top(&mut cards, &self.spread.br, self.selected.br);
        proof {
            assert(cards@ =~= self.selected_cards_seq());
            lemma_selected_cards_len(*self);
        }
        cards
    }

    /// The number of distinct rows that the selected positions span.
    pub fn selected_rows(&self) -> (n: usize)
        ensures
            n == self.selected.rows(),
    {
        let top = self.selected.tl || self.selected.tc || self.selected.tr;
        let middle = self.selected.ml || self.selected.mc || self.selected.mr;
        let bottom = self.selected.bl || self.selected.bc || self.selected.br;
        let mut n: usize = 0;
        if top {
            n += 1;
        }
        if middle {
            n += 1;
        }
        if bottom {
            n += 1;
        }
        n
    }

    /// The hand formed by the currently exposed selected cards, if any: none
    /// when the selection spans fewer than two rows, and otherwise whatever
    /// the classifier finds.
    pub fn selected_hand(&self) -> (h: Option<Hand>)
        requires
            self.sel_ok(),
        ensures
            h == classify(self.selected_cards_seq(), self.selected.rows()),
            self.selected.rows() < 2 ==> h is None,
    {
        let rows = self.selected_rows();
        if rows < 2 {
            return None;
        }
        let cards = self.selected_cards();
        crate::hand::classify_cards(&cards, rows)
    }

    /// Spends one discard charge; the balance must not be empty, which the
    /// move resolver guarantees before ever asking for a discard.
    pub fn spend_one_trash(&mut self)
        requires
            old(self).trashes != Trashes::Zero,
        ensures
            final(self).trashes == spent_spec(old(self).trashes),
            final(self).spread == old(self).spread,
            final(self).selected == old(self).selected,
            final(self).bonus_card == old(self).bonus_card,
    {
        match self.trashes {
            Trashes::Two => {
                self.trashes = Trashes::One;
            },
            Trashes::One => {
                self.trashes = Trashes::Zero;
            },
            Trashes::Zero => {
                proof {
                    assert(false);
                }
            },
        }
    }

    /// Restores one discard charge, saturating at two.
    pub fn restore_one_trash(&mut self)
        ensures
            final(self).trashes == restored_spec(old(self).trashes),
            final(self).spread == old(self).spread,
            final(self).selected == old(self).selected,
            final(self).bonus_card == old(self).bonus_card,
    {
        match self.trashes {
            Trashes::Two => {},
            Trashes::One => {
                self.trashes = Trashes::Two;
            },
            Trashes::Zero => {
                self.trashes = Trashes::One;
            },
        }
    }

    /// The first selected position in fixed board order.
    fn first_selected_pos(&self) -> (p: Position)
        requires
            self.selected.count() >= 1,
        ensures
            p == self.first_selected(),
            self.selected.has(p),
    {
        if self.selected.tl {
            Position(RowId::Top, ColumnId::Left)
        } else if self.selected.tc {
            Position(RowId::Top, ColumnId::Center)
        } else if self.selected.tr {
            Position(RowId::Top, ColumnId::Right)
        } else if self.selected.ml {
            Position(RowId::Middle, ColumnId::Left)
        } else if self.selected.mc {
            Position(RowId::Middle, ColumnId::Center)
        } else if self.selected.mr {
            Position(RowId::Middle, ColumnId::Right)
        } else if self.selected.bl {
            Position(RowId::Bottom, ColumnId::Left)
        } else if self.selected.bc {
            Position(RowId::Bottom, ColumnId::Center)
        } else {
            Position(RowId::Bottom, ColumnId::Right)
        }
    }

    /// The single legal move implied by the current selection and trash
    /// balance, recomputed on every call so the interface can preview it.
    pub fn selected_move(&self) -> (m: Option<Move>)
        requires
            self.sel_ok(),
        ensures
            m == self.move_spec(),
    {
        let n = self.selected.len();
        if n == 0 {
            return None;
        }
        if n == 1 {
            if matches!(self.trashes, Trashes::Zero) {
                return None;
            }
            let pos = self.first_selected_pos();
            return Some(Move::Trash(pos));
        }
        match self.selected_hand() {
            Some(h) => Some(Move::PlayHand(h)),
            None => None,
        }
    }

    /// Every card still on the board, stack by stack in fixed board order.
    pub fn remaining_cards(&self) -> (r: Vec<Card>)
        ensures
            r@ == self.spread.all_cards(),
    {
        let mut out: Vec<Card> = Vec::new();
        append_stack(&mut out, &self.spread.tl);
        append_stack(&mut out, &self.spread.tc);
        append_stack(&mut out, &self.spread.tr);
        append_stack(&mut out, &self.spread.ml);
        append_stack(&mut out, &self.spread.mc);
        append_stack(&mut out, &self.spread.mr);
        append_stack(&mut out, &self.spread.bl);
        append_stack(&mut out, &self.spread.bc);
        append_stack(&mut out, &self.spread.br);
        proof {
            assert(out@ =~= self.spread.all_cards());
        }
        out
    }
}

/// One card is exposed for each selected position.
pub proof fn lemma_selected_cards_len(g: Game)
    ensures
        g.selected_cards_seq().len() == g.selected.count(),
{
}

/// Appends the top card of a stack when the flag asks for it.
fn push_top(cards: &mut Vec<Card>, st: &Vec<Card>, take: bool)
    requires
        take ==> st@.len() >= 1,
    ensures
        final(cards)@ == old(cards)@ + (if take {
            seq![st@.last()]
        } else {
            Seq::<Card>::empty()
        }),
{
    if take {
        cards.push(st[st.len() - 1]);
    }
    proof {
        if take {
            assert(cards@ =~= old(cards)@ + seq![st@.last()]);
        } else {
            assert(cards@ =~= old(cards)@ + Seq::<Card>::empty());
        }
    }
}

/// Copies the cards of one stack onto the end of a list.
fn append_stack(dst: &mut Vec<Card>, src: &Vec<Card>)
    ensures
        final(dst)@ == old(dst)@ + src@,
{
    let mut k: usize = 0;
    while k < src.len()
        invariant
            k <= src@.len(),
            dst@ == old(dst)@ + src@.take(k as int),
        decreases src@.len() - k,
    {
        dst.push(src[k]);
        proof {
            assert(old(dst)@ + src@.take(k + 1) =~= (old(dst)@ + src@.take(k as int)).push(
                src@[k as int],
            ));
        }
        k += 1;
    }
    proof {
        assert(old(dst)@ + src@.take(src@.len() as int) =~= old(dst)@ + src@);
    }
}

} // verus!
