//! The board: nine addressable stacks of cards keyed by (row, column), and
//! the selection of currently chosen positions.
use vstd::prelude::*;
use crate::card::Card;

verus! {

/// One of the three rows of the board.
#[derive(Clone, Copy, Debug, PartialEq, Eq, Hash, Structural)]
pub enum RowId {
    Top,
    Middle,
    Bottom,
}

/// One of the three columns of the board.
#[derive(Clone, Copy, Debug, PartialEq, Eq, Hash, Structural)]
pub enum ColumnId {
    Left,
    Center,
    Right,
}

/// One of the nine board positions: a (row, column) pair, fixed for the
/// game's lifetime.
#[derive(Clone, Copy, Debug, PartialEq, Eq, Hash, Structural)]
pub struct Position(pub RowId, pub ColumnId);

/// An ordered stack of cards; the "top" is the end that is pushed and popped.
pub type CardStack = Vec<Card>;

/// The board: a total mapping from the nine positions to card stacks.
#[derive(Debug)]
pub struct Spread {
    pub tl: CardStack,
    pub tc: CardStack,
    pub tr: CardStack,
    pub ml: CardStack,
    pub mc: CardStack,
    pub mr: CardStack,
    pub bl: CardStack,
    pub bc: CardStack,
    pub br: CardStack,
}

impl Spread {
    /// The stack at a position, as a mathematical sequence (bottom first).
    pub open spec fn at(self, pos: Position) -> Seq<Card> {
        match pos {
            Position(RowId::Top, ColumnId::Left) => self.tl@,
            Position(RowId::Top, ColumnId::Center) => self.tc@,
            Position(RowId::Top, ColumnId::Right) => self.tr@,
            Position(RowId::Middle, ColumnId::Left) => self.ml@,
            Position(RowId::Middle, ColumnId::Center) => self.mc@,
            Position(RowId::Middle, ColumnId::Right) => self.mr@,
            Position(RowId::Bottom, ColumnId::Left) => self.bl@,
            Position(RowId::Bottom, ColumnId::Center) => self.bc@,
            Position(RowId::Bottom, ColumnId::Right) => self.br@,
        }
    }

    /// Every card on the board, stack by stack in fixed board order (rows
    /// top to bottom, columns left to right, each stack bottom first).
    pub open spec fn all_cards(self) -> Seq<Card> {
        self.tl@ + self.tc@ + self.tr@ + self.ml@ + self.mc@ + self.mr@ + self.bl@ + self.bc@
            + self.br@
    }

    /// A board with nine empty stacks.
    pub fn empty() -> (s: Spread)
        ensures
            forall|p: Position| #[trigger] s.at(p) == Seq::<Card>::empty(),
    {
        let s = Spread {
            tl: Vec::new(),
            tc: Vec::new(),
            tr: Vec::new(),
            ml: Vec::new(),
            mc: Vec::new(),
            mr: Vec::new(),
            bl: Vec::new(),
            bc: Vec::new(),
            br: Vec::new(),
        };
        assert forall|p: Position| #[trigger] s.at(p) == Seq::<Card>::empty() by {
            assert(s.at(p) =~= Seq::<Card>::empty());
        }
        s
    }

    /// Read access to the stack at a position.
    pub fn get_stack(&self, pos: Position) -> (r: &CardStack)
        ensures
            r@ == self.at(pos),
    {
        match pos {
            Position(RowId::Top, ColumnId::Left) => &self.tl,
            Position(RowId::Top, ColumnId::Center) => &self.tc,
            Position(RowId::Top, ColumnId::Right) => &self.tr,
            Position(RowId::Middle, ColumnId::Left) => &self.ml,
            Position(RowId::Middle, ColumnId::Center) => &self.mc,
            Position(RowId::Middle, ColumnId::Right) => &self.mr,
            Position(RowId::Bottom, ColumnId::Left) => &self.bl,
            Position(RowId::Bottom, ColumnId::Center) => &self.bc,
            Position(RowId::Bottom, ColumnId::Right) => &self.br,
        }
    }

    /// Write access to the stack at a position: every other stack is left
    /// unchanged, and the stack at `pos` becomes whatever the caller leaves
    /// behind the returned reference.
    pub fn get_stack_mut(&mut self, pos: Position) -> (r: &mut CardStack)
        ensures
            r@ == old(self).at(pos),
            final(self).at(pos) == final(r)@,
            forall|q: Position| q != pos ==> #[trigger] final(self).at(q) == old(self).at(q),
    {
        match pos {
            Position(RowId::Top, ColumnId::Left) => &mut self.tl,
            Position(RowId::Top, ColumnId::Center) => &mut self.tc,
            Position(RowId::Top, ColumnId::Right) => &mut self.tr,
            Position(RowId::Middle, ColumnId::Left) => &mut self.ml,
            Position(RowId::Middle, ColumnId::Center) => &mut self.mc,
            Position(RowId::Middle, ColumnId::Right) => &mut self.mr,
            Position(RowId::Bottom, ColumnId::Left) => &mut self.bl,
            Position(RowId::Bottom, ColumnId::Center) => &mut self.bc,
            Position(RowId::Bottom, ColumnId::Right) => &mut self.br,
        }
    }
}

/// The set of currently chosen board positions: at most one membership flag
/// per position, so no duplicates and no order.
#[derive(Clone, Copy, Debug, PartialEq, Eq, Structural)]
pub struct Selection {
    pub tl: bool,
    pub tc: bool,
    pub tr: bool,
    pub ml: bool,
    pub mc: bool,
    pub mr: bool,
    pub bl: bool,
    pub bc: bool,
    pub br: bool,
}

impl Selection {
    /// Whether a position is currently selected.
    pub open spec fn has(self, pos: Position) -> bool {
        match pos {
            Position(RowId::Top, ColumnId::Left) => self.tl,
            Position(RowId::Top, ColumnId::Center) => self.tc,
            Position(RowId::Top, ColumnId::Right) => self.tr,
            Position(RowId::Middle, ColumnId::Left) => self.ml,
            Position(RowId::Middle, ColumnId::Center) => self.mc,
            Position(RowId::Middle, ColumnId::Right) => self.mr,
            Position(RowId::Bottom, ColumnId::Left) => self.bl,
            Position(RowId::Bottom, ColumnId::Center) => self.bc,
            Position(RowId::Bottom, ColumnId::Right) => self.br,
        }
    }

    /// The number of selected positions.
    pub open spec fn count(self) -> int {
        (if self.tl { 1int } else { 0 }) + (if self.tc { 1int } else { 0 }) + (if self.tr {
            1int
        } else {
            0
        }) + (if self.ml { 1int } else { 0 }) + (if self.mc { 1int } else { 0 }) + (if self.mr {
            1int
        } else {
            0
        }) + (if self.bl { 1int } else { 0 }) + (if self.bc { 1int } else { 0 }) + (if self.br {
            1int
        } else {
            0
        })
    }

    /// Whether any position of the given row is selected.
    pub open spec fn row_selected(self, row: RowId) -> bool {
        match row {
            RowId::Top => self.tl || self.tc || self.tr,
            RowId::Middle => self.ml || self.mc || self.mr,
            RowId::Bottom => self.bl || self.bc || self.br,
        }
    }

    /// The number of distinct rows that the selected positions span.
    pub open spec fn rows(self) -> int {
        (if self.row_selected(RowId::Top) { 1int } else { 0 }) + (if self.row_selected(
            RowId::Middle,
        ) { 1int } else { 0 }) + (if self.row_selected(RowId::Bottom) { 1int } else { 0 })
    }

    /// An empty selection.
    pub fn new() -> (s: Selection)
        ensures
            forall|p: Position| !(#[trigger] s.has(p)),
            s.count() == 0,
    {
        Selection {
            tl: false,
            tc: false,
            tr: false,
            ml: false,
            mc: false,
            mr: false,
            bl: false,
            bc: false,
            br: false,
        }
    }

    /// Whether a position is currently selected.
    pub fn contains(&self, pos: Position) -> (r: bool)
        ensures
            r == self.has(pos),
    {
        match pos {
            Position(RowId::Top, ColumnId::Left) => self.tl,
            Position(RowId::Top, ColumnId::Center) => self.tc,
            Position(RowId::Top, ColumnId::Right) => self.tr,
            Position(RowId::Middle, ColumnId::Left) => self.ml,
            Position(RowId::Middle, ColumnId::Center) => self.mc,
            Position(RowId::Middle, ColumnId::Right) => self.mr,
            Position(RowId::Bottom, ColumnId::Left) => self.bl,
            Position(RowId::Bottom, ColumnId::Center) => self.bc,
            Position(RowId::Bottom, ColumnId::Right) => self.br,
        }
    }

    /// Adds a position to the selection; adding one already present changes
    /// nothing.
    pub fn insert(&mut self, pos: Position)
        ensures
            final(self).has(pos),
            forall|q: Position| q != pos ==> #[trigger] final(self).has(q) == old(self).has(q),
    {
        let slot = match pos {
            Position(RowId::Top, ColumnId::Left) => &mut self.tl,
            Position(RowId::Top, ColumnId::Center) => &mut self.tc,
            Position(RowId::Top, ColumnId::Right) => &mut self.tr,
            Position(RowId::Middle, ColumnId::Left) => &mut self.ml,
            Position(RowId::Middle, ColumnId::Center) => &mut self.mc,
            Position(RowId::Middle, ColumnId::Right) => &mut self.mr,
            Position(RowId::Bottom, ColumnId::Left) => &mut self.bl,
            Position(RowId::Bottom, ColumnId::Center) => &mut self.bc,
            Position(RowId::Bottom, ColumnId::Right) => &mut self.br,
        };
        *slot = true;
    }

    /// Removes a position from the selection; removing one not present
    /// changes nothing.
    pub fn remove(&mut self, pos: Position)
        ensures
            !final(self).has(pos),
            forall|q: Position| q != pos ==> #[trigger] final(self).has(q) == old(self).has(q),
    {
        let slot = match pos {
            Position(RowId::Top, ColumnId::Left) => &mut self.tl,
            Position(RowId::Top, ColumnId::Center) => &mut self.tc,
            Position(RowId::Top, ColumnId::Right) => &mut self.tr,
            Position(RowId::Middle, ColumnId::Left) => &mut self.ml,
            Position(RowId::Middle, ColumnId::Center) => &mut self.mc,
            Position(RowId::Middle, ColumnId::Right) => &mut self.mr,
            Position(RowId::Bottom, ColumnId::Left) => &mut self.bl,
            Position(RowId::Bottom, ColumnId::Center) => &mut self.bc,
            Position(RowId::Bottom, ColumnId::Right) => &mut self.br,
        };
        *slot = false;
    }

    /// Empties the selection.
    pub fn clear(&mut self)
        ensures
            forall|p: Position| !(#[trigger] final(self).has(p)),
            final(self).count() == 0,
    {
        self.tl = false;
        self.tc = false;
        self.tr = false;
        self.ml = false;
        self.mc = false;
        self.mr = false;
        self.bl = false;
        self.bc = false;
        self.br = false;
    }

    /// The number of selected positions.
    #[verifier::rlimit(50)]
    pub fn len(&self) -> (n: usize)
        ensures
            n == self.count(),
    {
        one_if(self.tl) + one_if(self.tc) + one_if(self.tr) + one_if(self.ml) + one_if(self.mc)
            + one_if(self.mr) + one_if(self.bl) + one_if(self.bc) + one_if(self.br)
    }
}

/// 1 for a set flag, 0 for a clear one.
fn one_if(b: bool) -> (n: usize)
    ensures
        n == (if b {
            1int
        } else {
            0int
        }),
{
    if b {
        1
    } else {
        0
    }
}

} // verus!
