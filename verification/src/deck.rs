//! The 52-card deck: construction in a fixed order, shuffling through an
//! outside random source, and drawing from the top.
use vstd::prelude::*;
use rand::seq::SliceRandom;
use crate::card::{rank_from_val, suit_from_val, Card};

verus! {

/// The full 52-card deck in construction order: for each rank in
/// enumeration order, the four suits in enumeration order.
pub open spec fn full_deck() -> Seq<Card> {
    Seq::new(52, |i: int| Card(rank_from_val(i / 4), suit_from_val(i % 4)))
}

/// Builds the full 52-card deck in its fixed construction order.
pub fn new() -> (d: Vec<Card>)
    ensures
        d@ == full_deck(),
{
    let mut d: Vec<Card> = Vec::new();
    let mut i: usize = 0;
    while i < 52
        invariant
            i <= 52,
            d@.len() == i,
            forall|k: int| 0 <= k < i ==> #[trigger] d@[k] == full_deck()[k],
        decreases 52 - i,
    {
        let r = crate::card::rank_of_code((i / 4) as u8);
        let s = crate::card::suit_of_code((i % 4) as u8);
        d.push(Card::new(r, s));
        i += 1;
    }
    proof {
        assert(d@ =~= full_deck());
    }
    d
}

/// Relies on rand's `SliceRandom::shuffle` with `rand::thread_rng`: a
/// Fisher-Yates walk that only swaps elements in place, so the deck holds
/// the same cards as before, in some new order.
#[verifier::external_body]
pub fn shuffle(deck: &mut Vec<Card>)
    ensures
        final(deck)@.len() == old(deck)@.len(),
        final(deck)@.to_multiset() == old(deck)@.to_multiset(),
{
    deck.shuffle(&mut rand::thread_rng());
}

/// Removes and returns the given number of cards from the top (the end) of
/// the deck, most recently stacked first; drawing more cards than the deck
/// holds is a caller fault.
pub fn draw(deck: &mut Vec<Card>, cards: usize) -> (hand: Vec<Card>)
    requires
        old(deck)@.len() >= cards,
    ensures
        hand@ == old(deck)@.subrange(old(deck)@.len() - cards, old(deck)@.len() as int).reverse(),
        final(deck)@ == old(deck)@.subrange(0, old(deck)@.len() - cards),
{
    let ghost n0 = deck@.len() as int;
    let mut hand: Vec<Card> = Vec::new();
    let mut k: usize = 0;
    while k < cards
        invariant
            k <= cards,
            cards <= n0,
            n0 == old(deck)@.len(),
            deck@ == old(deck)@.subrange(0, n0 - k),
            hand@.len() == k,
            forall|t: int| 0 <= t < k ==> #[trigger] hand@[t] == old(deck)@[n0 - 1 - t],
        decreases cards - k,
    {
        let c = match deck.pop() {
            Some(c) => c,
            None => {
                proof {
                    assert(false);
                }
                Card::new(crate::card::Rank::Ace, crate::card::Suit::Club)
            },
        };
        hand.push(c);
        proof {
            assert(deck@ =~= old(deck)@.subrange(0, n0 - (k + 1)));
        }
        k += 1;
    }
    proof {
        assert(hand@ =~= old(deck)@.subrange(n0 - cards, n0).reverse());
    }
    hand
}

} // verus!
