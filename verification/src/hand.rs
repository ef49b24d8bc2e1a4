//! Hand classification: the eight scoring categories, their point values,
//! and the pure predicates (equal ranks, straights, full houses) that decide
//! which category a selection of cards falls into.
use vstd::prelude::*;
use vstd::seq_lib::group_to_multiset_ensures;
use crate::card::{card_rank, card_suit, Card};

verus! {

/// The eight scoring hand categories, in ascending order of rarity.
#[derive(Clone, Copy, Debug, PartialEq, Eq, PartialOrd, Ord, Structural)]
pub enum Hand {
    Pair,
    StraightThree,
    ThreeOfAKind,
    StraightFive,
    FullHouse,
    Flush,
    FourOfAKind,
    StraightFlush,
}

/// The fixed point value of each hand category.
pub open spec fn points_spec(h: Hand) -> int {
    match h {
        Hand::Pair => 1,
        Hand::StraightThree => 2,
        Hand::ThreeOfAKind => 3,
        Hand::StraightFive => 5,
        Hand::FullHouse => 7,
        Hand::Flush => 9,
        Hand::FourOfAKind => 10,
        Hand::StraightFlush => 15,
    }
}

impl Hand {
    /// The fixed point value of this hand category.
    pub fn points(&self) -> (p: u32)
        ensures
            p == points_spec(*self),
    {
        match self {
            Hand::Pair => 1,
            Hand::StraightThree => 2,
            Hand::ThreeOfAKind => 3,
            Hand::StraightFive => 5,
            Hand::FullHouse => 7,
            Hand::Flush => 9,
            Hand::FourOfAKind => 10,
            Hand::StraightFlush => 15,
        }
    }
}

/// All cards share one rank.
pub open spec fn all_ranks_eq(cards: Seq<Card>) -> bool {
    forall|i: int| 0 <= i < cards.len() ==> card_rank(#[trigger] cards[i]) == card_rank(cards[0])
}

/// All cards share one suit.
pub open spec fn all_suits_eq(cards: Seq<Card>) -> bool {
    forall|i: int| 0 <= i < cards.len() ==> card_suit(#[trigger] cards[i]) == card_suit(cards[0])
}

/// No two cards share a rank.
pub open spec fn ranks_distinct(cards: Seq<Card>) -> bool {
    forall|i: int, j: int|
        0 <= i < j < cards.len() ==> card_rank(#[trigger] cards[i]) != card_rank(
            #[trigger] cards[j],
        )
}

/// Some card sits at the given rank position of the enumeration order.
pub open spec fn has_rank(cards: Seq<Card>, v: int) -> bool {
    exists|i: int| 0 <= i < cards.len() && card_rank(#[trigger] cards[i]) == v
}

/// The lowest rank position among the cards (meaningful only for a non-empty
/// sequence).
pub open spec fn min_rank(cards: Seq<Card>) -> int
    decreases cards.len(),
{
    if cards.len() <= 1 {
        card_rank(cards[0])
    } else {
        let m = min_rank(cards.drop_last());
        if card_rank(cards.last()) < m {
            card_rank(cards.last())
        } else {
            m
        }
    }
}

/// The lowest rank is attained, and bounds every card's rank from below.
pub proof fn lemma_min_rank(cards: Seq<Card>)
    requires
        cards.len() >= 1,
    ensures
        has_rank(cards, min_rank(cards)),
        forall|i: int| 0 <= i < cards.len() ==> card_rank(#[trigger] cards[i]) >= min_rank(cards),
    decreases cards.len(),
{
    if cards.len() > 1 {
        lemma_min_rank(cards.drop_last());
        assert forall|i: int| 0 <= i < cards.len() implies card_rank(#[trigger] cards[i])
            >= min_rank(cards) by {
            if i < cards.len() - 1 {
                assert(cards.drop_last()[i] == cards[i]);
            }
        }
        if card_rank(cards.last()) < min_rank(cards.drop_last()) {
            assert(card_rank(cards[cards.len() - 1]) == min_rank(cards));
        } else {
            let w = choose|i: int|
                0 <= i < cards.drop_last().len() && card_rank(cards.drop_last()[i]) == min_rank(
                    cards.drop_last(),
                );
            assert(card_rank(cards[w]) == min_rank(cards));
        }
    }
}

/// The distinct ranks form one consecutive run in enumeration order; with
/// Ace's position 0 as the lowest value this includes ace-low runs such as
/// Ace-Two-Three.
pub open spec fn is_plain_run(cards: Seq<Card>) -> bool {
    &&& ranks_distinct(cards)
    &&& forall|i: int|
        0 <= i < cards.len() ==> card_rank(#[trigger] cards[i]) < min_rank(cards) + cards.len()
}

/// Ace counts as sitting above King: the cards are an Ace plus a consecutive
/// run that ends at King, as in Jack-Queen-King-Ace. Only selections of more
/// than two cards may wrap this way.
pub open spec fn is_ace_high_run(cards: Seq<Card>) -> bool {
    &&& cards.len() > 2
    &&& ranks_distinct(cards)
    &&& has_rank(cards, 0)
    &&& has_rank(cards, 12)
    &&& forall|i: int|
        0 <= i < cards.len() ==> (card_rank(#[trigger] cards[i]) == 0 || 14 - cards.len()
            <= card_rank(cards[i]) <= 12)
}

/// The cards form a straight: their ranks are distinct and consecutive,
/// counting Ace either as the lowest rank or, in runs that end at King, as
/// the highest.
pub open spec fn is_straight_spec(cards: Seq<Card>) -> bool {
    is_plain_run(cards) || is_ace_high_run(cards)
}

/// All values of the sequence are equal.
pub open spec fn all_eq_spec(xs: Seq<u8>) -> bool {
    forall|i: int| 0 <= i < xs.len() ==> #[trigger] xs[i] == xs[0]
}

/// Whether every value equals the first one; an empty sequence counts as
/// uniform.
pub fn all_eq(xs: &Vec<u8>) -> (r: bool)
    ensures
        r == all_eq_spec(xs@),
{
    let mut k: usize = 0;
    while k < xs.len()
        invariant
            k <= xs@.len(),
            forall|i: int| 0 <= i < k ==> #[trigger] xs@[i] == xs@[0],
        decreases xs@.len() - k,
    {
        if xs[k] != xs[0] {
            return false;
        }
        k += 1;
    }
    true
}

/// The sequence is ascending: no later value is smaller than an earlier one.
pub open spec fn sorted_le(s: Seq<u8>) -> bool {
    forall|i: int, j: int| 0 <= i <= j < s.len() ==> #[trigger] s[i] <= #[trigger] s[j]
}

/// Sorts the values ascending by repeated insertion, keeping the multiset of
/// values unchanged.
fn sort_codes(v: &mut Vec<u8>)
    ensures
        sorted_le(final(v)@),
        final(v)@.to_multiset() == old(v)@.to_multiset(),
        final(v)@.len() == old(v)@.len(),
{
    broadcast use group_to_multiset_ensures;
    broadcast use vstd::multiset::group_multiset_axioms;

    let mut out: Vec<u8> = Vec::new();
    let mut k: usize = 0;
    while k < v.len()
        invariant
            k <= v@.len(),
            sorted_le(out@),
            out@.to_multiset() == v@.take(k as int).to_multiset(),
            out@.len() == k,
        decreases v@.len() - k,
    {
        let x = v[k];
        let mut pos: usize = 0;
        while pos < out.len() && out[pos] <= x
            invariant
                pos <= out@.len(),
                forall|a: int| 0 <= a < pos ==> #[trigger] out@[a] <= x,
            decreases out@.len() - pos,
        {
            pos += 1;
        }
        let ghost before = out@;
        out.insert(pos, x);
        proof {
            before.insert_ensures(pos as int, x);
            assert forall|a: int, b: int| 0 <= a <= b < out@.len() implies #[trigger] out@[a]
                <= #[trigger] out@[b] by {
                if a > pos {
                    assert(out@[a] == before[a - 1]);
                }
                if b > pos {
                    assert(out@[b] == before[b - 1]);
                }
                if pos < before.len() {
                    assert(before[pos as int] > x);
                }
            }
            vstd::seq_lib::to_multiset_insert(before, pos as int, x);
            vstd::seq_lib::to_multiset_build(v@.take(k as int), v@[k as int]);
            assert(v@.take(k + 1) =~= v@.take(k as int).push(v@[k as int]));
        }
        k += 1;
    }
    proof {
        assert(v@.take(v@.len() as int) =~= v@);
    }
    *v = out;
}

/// Some value of the sequence sits at the given position of the rank order.
pub open spec fn has_code(s: Seq<u8>, v: int) -> bool {
    exists|j: int| 0 <= j < s.len() && #[trigger] s[j] as int == v
}

/// The cyclic successor of a rank position: one more, except that King's
/// position 12 wraps to Ace's position 0.
pub open spec fn succ_code(v: int) -> int {
    if v == 12 {
        0
    } else {
        v + 1
    }
}

/// Every value is followed by the cyclic successor of its rank position.
pub open spec fn chain(s: Seq<u8>) -> bool {
    forall|a: int, b: int|
        #![trigger s[a], s[b]]
        0 <= a && b == a + 1 && b < s.len() ==> s[b] as int == succ_code(s[a] as int)
}

/// The sequence with its first value moved to the back; this is how an Ace
/// found next to a King is recounted as the highest rank.
pub open spec fn rotated(s: Seq<u8>) -> Seq<u8> {
    s.subrange(1, s.len() as int).push(s[0])
}

/// Two sequences with the same value multiset attain the same positions.
proof fn lemma_same_ms_values(a: Seq<u8>, b: Seq<u8>)
    requires
        a.to_multiset() == b.to_multiset(),
    ensures
        forall|v: int| has_code(a, v) <==> has_code(b, v),
{
    broadcast use group_to_multiset_ensures;

    assert forall|v: int| has_code(a, v) <==> has_code(b, v) by {
        if has_code(a, v) {
            let j = choose|j: int| 0 <= j < a.len() && #[trigger] a[j] as int == v;
            assert(a.contains(a[j]));
            assert(b.to_multiset().count(a[j]) > 0);
            assert(b.contains(a[j]));
            let t = choose|t: int| 0 <= t < b.len() && b[t] == a[j];
            assert(b[t] as int == v);
        }
        if has_code(b, v) {
            let j = choose|j: int| 0 <= j < b.len() && #[trigger] b[j] as int == v;
            assert(b.contains(b[j]));
            assert(a.to_multiset().count(b[j]) > 0);
            assert(a.contains(b[j]));
            let t = choose|t: int| 0 <= t < a.len() && a[t] == b[j];
            assert(a[t] as int == v);
        }
    }
}

/// Two sequences with the same value multiset repeat values alike.
proof fn lemma_same_ms_no_dup(a: Seq<u8>, b: Seq<u8>)
    requires
        a.to_multiset() == b.to_multiset(),
    ensures
        a.no_duplicates() <==> b.no_duplicates(),
{
    if a.no_duplicates() {
        a.lemma_multiset_has_no_duplicates();
        b.lemma_multiset_has_no_duplicates_conv();
    }
    if b.no_duplicates() {
        b.lemma_multiset_has_no_duplicates();
        a.lemma_multiset_has_no_duplicates_conv();
    }
}

/// In an ascending sequence without repeats, values grow at least as fast as
/// the indices.
proof fn lemma_sorted_distinct_gap(s: Seq<u8>, i: int, j: int)
    requires
        sorted_le(s),
        s.no_duplicates(),
        0 <= i <= j < s.len(),
    ensures
        s[j] as int >= s[i] as int + (j - i),
    decreases j - i,
{
    if i < j {
        lemma_sorted_distinct_gap(s, i, j - 1);
        assert(s[j - 1] != s[j]);
    }
}

/// A sequence whose adjacent values each step up by one is an arithmetic run
/// from its first value.
proof fn lemma_consecutive_from(s: Seq<u8>, j: int)
    requires
        forall|a: int, b: int|
            #![trigger s[a], s[b]]
            0 <= a && b == a + 1 && b < s.len() ==> s[b] as int == s[a] as int + 1,
        0 <= j < s.len(),
    ensures
        s[j] as int == s[0] as int + j,
    decreases j,
{
    if j > 0 {
        lemma_consecutive_from(s, j - 1);
    }
}

/// How the sorted rank positions of the cards line up with the cards
/// themselves: both sides attain the same rank positions, repeat them alike,
/// and stay within the thirteen ranks.
spec fn sorted_matches(cards: Seq<Card>, sorted: Seq<u8>) -> bool {
    &&& cards.len() == sorted.len()
    &&& sorted_le(sorted)
    &&& (forall|v: int| has_rank(cards, v) <==> has_code(sorted, v))
    &&& (ranks_distinct(cards) <==> sorted.no_duplicates())
    &&& forall|j: int| 0 <= j < sorted.len() ==> (#[trigger] sorted[j]) <= 12
}

/// The first sorted value is the least rank among the cards.
proof fn lemma_sorted_min(cards: Seq<Card>, sorted: Seq<u8>)
    requires
        sorted_matches(cards, sorted),
        cards.len() >= 1,
    ensures
        sorted[0] as int == min_rank(cards),
{
    lemma_min_rank(cards);
    assert(has_code(sorted, min_rank(cards)));
    let j = choose|j: int| 0 <= j < sorted.len() && #[trigger] sorted[j] as int == min_rank(cards);
    assert(sorted[0] <= sorted[j]);
    assert(has_code(sorted, sorted[0] as int));
    assert(has_rank(cards, sorted[0] as int));
    let i = choose|i: int| 0 <= i < cards.len() && #[trigger] card_rank(cards[i]) == sorted[0] as int;
    assert(card_rank(cards[i]) >= min_rank(cards));
}

/// Without an Ace-beside-King wrap, the successor walk over the sorted ranks
/// succeeds exactly on a straight.
proof fn lemma_chain_plain(cards: Seq<Card>, sorted: Seq<u8>)
    requires
        sorted_matches(cards, sorted),
        cards.len() >= 1,
        !(sorted.len() > 2 && sorted[0] == 0 && sorted[sorted.len() - 1] == 12),
    ensures
        chain(sorted) == is_straight_spec(cards),
{
    let n = sorted.len() as int;
    lemma_sorted_min(cards, sorted);
    if chain(sorted) {
        assert forall|a: int, b: int|
            #![trigger sorted[a], sorted[b]]
            0 <= a && b == a + 1 && b < n implies sorted[b] as int == sorted[a] as int + 1 by {
            assert(sorted[b] as int == succ_code(sorted[a] as int));
            if sorted[a] == 12 {
                assert(sorted[b] == 0);
                assert(sorted[a] <= sorted[b]);
            }
        }
        assert forall|j: int| 0 <= j < n implies (#[trigger] sorted[j]) as int == sorted[0] as int + j by {
            lemma_consecutive_from(sorted, j);
        }
        assert(sorted.no_duplicates());
        assert forall|i: int| 0 <= i < cards.len() implies card_rank(#[trigger] cards[i])
            < min_rank(cards) + n by {
            assert(has_rank(cards, card_rank(cards[i])));
            assert(has_code(sorted, card_rank(cards[i])));
            let j = choose|j: int|
                0 <= j < n && #[trigger] sorted[j] as int == card_rank(cards[i]);
        }
        assert(is_plain_run(cards));
    } else {
        if is_plain_run(cards) {
            assert(sorted.no_duplicates());
            assert forall|j: int| 0 <= j < n implies (#[trigger] sorted[j]) as int == sorted[0] as int + j by {
                lemma_sorted_distinct_gap(sorted, 0, j);
                lemma_sorted_distinct_gap(sorted, j, n - 1);
                assert(has_code(sorted, sorted[n - 1] as int));
                assert(has_rank(cards, sorted[n - 1] as int));
                let i = choose|i: int|
                    0 <= i < cards.len() && #[trigger] card_rank(cards[i]) == sorted[n - 1] as int;
                assert(card_rank(cards[i]) < min_rank(cards) + n);
            }
            assert forall|a: int, b: int|
                #![trigger sorted[a], sorted[b]]
                0 <= a && b == a + 1 && b < n implies sorted[b] as int == succ_code(
                sorted[a] as int,
            ) by {
                assert(sorted[b] as int == sorted[a] as int + 1);
                assert(sorted[a] < 12);
            }
            assert(chain(sorted));
            assert(false);
        }
        if is_ace_high_run(cards) {
            assert(has_code(sorted, 0));
            let j0 = choose|j: int| 0 <= j < n && #[trigger] sorted[j] as int == 0;
            assert(sorted[0] <= sorted[j0]);
            assert(has_code(sorted, 12));
            let j12 = choose|j: int| 0 <= j < n && #[trigger] sorted[j] as int == 12;
            assert(sorted[n - 1] >= sorted[j12]);
            assert(false);
        }
        assert(!is_straight_spec(cards));
    }
}

/// With an Ace next to a King, the successor walk over the rotated ranks
/// succeeds exactly on an ace-high straight.
proof fn lemma_chain_ace(cards: Seq<Card>, sorted: Seq<u8>)
    requires
        sorted_matches(cards, sorted),
        cards.len() <= 13,
        sorted.len() > 2,
        sorted[0] == 0,
        sorted[sorted.len() - 1] == 12,
    ensures
        chain(rotated(sorted)) == is_straight_spec(cards),
{
    let n = sorted.len() as int;
    let rot = rotated(sorted);
    let mid = sorted.subrange(1, n);
    assert(rot.len() == n);
    assert(forall|t: int| 0 <= t < n - 1 ==> #[trigger] rot[t] == sorted[t + 1]);
    assert(rot[n - 1] == sorted[0]);
    assert(forall|t: int| 0 <= t < n - 1 ==> #[trigger] mid[t] == sorted[t + 1]);
    if chain(rot) {
        // the middle of the rotation steps up by one each time
        assert forall|a: int, b: int|
            #![trigger mid[a], mid[b]]
            0 <= a && b == a + 1 && b < mid.len() implies mid[b] as int == mid[a] as int + 1 by {
            assert(rot[b] as int == succ_code(rot[a] as int));
            if sorted[a + 1] == 12 {
                assert(sorted[b + 1] == 0);
                assert(sorted[a + 1] <= sorted[b + 1]);
            }
        }
        assert forall|j: int| 1 <= j < n implies (#[trigger] sorted[j]) as int == sorted[1] as int + (j - 1) by {
            lemma_consecutive_from(mid, j - 1);
        }
        assert(sorted[1] as int == 12 - (n - 2));
        assert forall|i: int, j: int| 0 <= i < j < n implies sorted[i] != sorted[j] by {
            if i == 0 {
                assert(sorted[j] as int == 14 - n + (j - 1));
            }
        }
        assert(sorted.no_duplicates());
        assert(ranks_distinct(cards));
        assert(has_rank(cards, 0));
        assert(has_rank(cards, 12));
        assert forall|i: int| 0 <= i < cards.len() implies (card_rank(#[trigger] cards[i]) == 0
            || 14 - cards.len() <= card_rank(cards[i]) <= 12) by {
            assert(has_rank(cards, card_rank(cards[i])));
            assert(has_code(sorted, card_rank(cards[i])));
            let j = choose|j: int|
                0 <= j < n && #[trigger] sorted[j] as int == card_rank(cards[i]);
            if j > 0 {
                assert(sorted[j] as int == 14 - n + (j - 1));
            }
        }
        assert(is_ace_high_run(cards));
    } else {
        if is_straight_spec(cards) {
            assert(sorted.no_duplicates());
            // all sorted values from index one on lie in the ace-high window
            assert forall|j: int| 1 <= j < n implies 14 - n <= (#[trigger] sorted[j]) as int by {
                lemma_sorted_distinct_gap(sorted, 0, j);
                if is_plain_run(cards) {
                    // a King in a plain run starting at Ace forces all
                    // thirteen ranks onto the board
                    lemma_sorted_min(cards, sorted);
                    assert(sorted[n - 1] as int == 12);
                    assert(has_code(sorted, 12));
                    assert(has_rank(cards, 12));
                    let i12 = choose|i: int|
                        0 <= i < cards.len() && #[trigger] card_rank(cards[i]) == 12;
                    assert(card_rank(cards[i12]) < min_rank(cards) + n);
                } else {
                    assert(has_code(sorted, sorted[j] as int));
                    assert(has_rank(cards, sorted[j] as int));
                    let i = choose|i: int|
                        0 <= i < cards.len() && #[trigger] card_rank(cards[i]) == sorted[j] as int;
                    assert(card_rank(cards[i]) == 0 || 14 - cards.len() <= card_rank(cards[i])
                        <= 12);
                }
            }
            assert forall|j: int| 1 <= j < n implies (#[trigger] sorted[j]) as int == 14 - n + (j - 1) by {
                lemma_sorted_distinct_gap(sorted, 1, j);
                lemma_sorted_distinct_gap(sorted, j, n - 1);
            }
            assert forall|a: int, b: int|
                #![trigger rot[a], rot[b]]
                0 <= a && b == a + 1 && b < n implies rot[b] as int == succ_code(
                rot[a] as int,
            ) by {
                if b < n - 1 {
                    assert(rot[a] as int == 14 - n + a);
                    assert(rot[b] as int == 14 - n + b);
                } else {
                    assert(rot[a] == sorted[n - 1]);
                    assert(rot[b] == sorted[0]);
                }
            }
            assert(chain(rot));
            assert(false);
        }
        assert(!is_straight_spec(cards));
    }
}

/// Walks adjacent values and reports whether each is followed by the cyclic
/// successor of its rank position.
fn codes_consecutive(rs: &Vec<u8>) -> (r: bool)
    requires
        rs@.len() >= 1,
        forall|i: int| 0 <= i < rs@.len() ==> (#[trigger] rs@[i]) <= 12,
    ensures
        r == chain(rs@),
{
    let last = rs.len() - 1;
    let mut idx: usize = 0;
    while idx < last
        invariant
            0 <= idx <= last,
            last == rs@.len() - 1,
            forall|i: int| 0 <= i < rs@.len() ==> (#[trigger] rs@[i]) <= 12,
            forall|a: int, b: int|
                #![trigger rs@[a], rs@[b]]
                0 <= a && b == a + 1 && b <= idx ==> rs@[b] as int == succ_code(rs@[a] as int),
        decreases rs@.len() - idx,
    {
        let cur = rs[idx];
        let nxt = rs[idx + 1];
        let expected: u8 = if cur == 12 {
            0
        } else {
            cur + 1
        };
        if nxt != expected {
            proof {
                assert(rs@[idx + 1] as int != succ_code(rs@[idx as int] as int));
            }
            return false;
        }
        idx += 1;
    }
    true
}

/// Whether the cards form a straight: sorts the rank positions, moves a
/// leading Ace behind a trailing King, and then requires each rank to be the
/// cyclic successor of the one before it. At most thirteen cards can carry
/// thirteen distinct ranks, so longer selections are not asked about.
pub fn is_straight(cards: &Vec<Card>) -> (r: bool)
    requires
        1 <= cards@.len() <= 13,
    ensures
        r == is_straight_spec(cards@),
{
    let mut rs: Vec<u8> = Vec::new();
    let mut k: usize = 0;
    while k < cards.len()
        invariant
            k <= cards@.len(),
            rs@.len() == k,
            forall|i: int| 0 <= i < k ==> (#[trigger] rs@[i]) as int == card_rank(cards@[i]),
        decreases cards@.len() - k,
    {
        let Card(rank, _) = cards[k];
        rs.push(rank.code());
        k += 1;
    }
    let ghost codes0 = rs@;
    sort_codes(&mut rs);
    let ghost sorted = rs@;
    proof {
        lemma_same_ms_values(codes0, sorted);
        lemma_same_ms_no_dup(codes0, sorted);
        assert forall|v: int| has_rank(cards@, v) <==> has_code(sorted, v) by {
            if has_rank(cards@, v) {
                let i = choose|i: int|
                    0 <= i < cards@.len() && card_rank(#[trigger] cards@[i]) == v;
                assert(codes0[i] as int == v);
                assert(has_code(codes0, v));
            }
            if has_code(sorted, v) {
                assert(has_code(codes0, v));
                let j = choose|j: int| 0 <= j < codes0.len() && #[trigger] codes0[j] as int == v;
                assert(card_rank(cards@[j]) == v);
            }
        }
        if ranks_distinct(cards@) {
            assert forall|i: int, j: int|
                0 <= i < codes0.len() && 0 <= j < codes0.len() && i != j implies codes0[i]
                != codes0[j] by {
                assert(codes0[i] as int == card_rank(cards@[i]));
                assert(codes0[j] as int == card_rank(cards@[j]));
            }
            assert(codes0.no_duplicates());
        }
        if codes0.no_duplicates() {
            assert forall|i: int, j: int|
                0 <= i < j < cards@.len() implies card_rank(#[trigger] cards@[i]) != card_rank(
                #[trigger] cards@[j],
            ) by {
                assert(codes0[i] as int == card_rank(cards@[i]));
                assert(codes0[j] as int == card_rank(cards@[j]));
                assert(codes0[i] != codes0[j]);
            }
            assert(ranks_distinct(cards@));
        }
        assert forall|j: int| 0 <= j < sorted.len() implies (#[trigger] sorted[j]) <= 12 by {
            assert(has_code(sorted, sorted[j] as int));
            assert(has_code(codes0, sorted[j] as int));
            let ghost sj = sorted[j] as int;
            let t = choose|t: int| 0 <= t < codes0.len() && #[trigger] codes0[t] as int == sj;
        }
        assert(sorted_matches(cards@, sorted));
    }
    let n = rs.len();
    let wrap_ace = n > 2 && rs[0] == 0 && rs[n - 1] == 12;
    if wrap_ace {
        let ace = rs.remove(0);
        rs.push(ace);
        proof {
            assert(rs@ =~= rotated(sorted));
        }
    }
    let ok = codes_consecutive(&rs);
    proof {
        if wrap_ace {
            lemma_chain_ace(cards@, sorted);
        } else {
            lemma_chain_plain(cards@, sorted);
        }
    }
    ok
}

/// The number of cards that carry the given rank position.
pub open spec fn rank_count(cards: Seq<Card>, v: int) -> int
    decreases cards.len(),
{
    if cards.len() == 0 {
        0
    } else {
        rank_count(cards.drop_last(), v) + if card_rank(cards.last()) == v {
            1int
        } else {
            0int
        }
    }
}

/// A full house: five cards such that every card's rank is carried by
/// exactly two or exactly three of them. Since the multiplicities are then
/// parts of five drawn from {2, 3}, they are exactly one pair and one
/// triple.
pub open spec fn fullhouse_spec(cards: Seq<Card>) -> bool {
    &&& cards.len() == 5
    &&& forall|i: int|
        0 <= i < cards.len() ==> (rank_count(cards, card_rank(#[trigger] cards[i])) == 2
            || rank_count(cards, card_rank(cards[i])) == 3)
}

/// Counts the cards that carry the given rank position.
fn count_rank(cards: &Vec<Card>, code: u8) -> (n: usize)
    ensures
        n == rank_count(cards@, code as int),
{
    let mut n: usize = 0;
    let mut k: usize = 0;
    while k < cards.len()
        invariant
            k <= cards@.len(),
            n <= k,
            n == rank_count(cards@.take(k as int), code as int),
        decreases cards@.len() - k,
    {
        let Card(r, _) = cards[k];
        proof {
            assert(cards@.take(k + 1).drop_last() =~= cards@.take(k as int));
            assert(cards@.take(k + 1).last() == cards@[k as int]);
        }
        if r.code() == code {
            n += 1;
        }
        k += 1;
    }
    proof {
        assert(cards@.take(cards@.len() as int) =~= cards@);
    }
    n
}

/// Whether the cards form a full house: exactly five of them, with rank
/// multiplicities two and three.
pub fn check_fullhouse(cards: &Vec<Card>) -> (r: bool)
    ensures
        r == fullhouse_spec(cards@),
{
    if cards.len() != 5 {
        return false;
    }
    let mut k: usize = 0;
    while k < cards.len()
        invariant
            cards@.len() == 5,
            k <= 5,
            forall|i: int|
                0 <= i < k ==> (rank_count(cards@, card_rank(#[trigger] cards@[i])) == 2
                    || rank_count(cards@, card_rank(cards@[i])) == 3),
        decreases cards@.len() - k,
    {
        let Card(r, _) = cards[k];
        let c = count_rank(cards, r.code());
        if c != 2 && c != 3 {
            return false;
        }
        k += 1;
    }
    true
}

/// The single classification rule: fewer than two rows never scores; two,
/// three and four cards score only on matched ranks or a three-card
/// straight; five cards score a full house first, then straight flush,
/// straight, or flush; anything else is no hand.
pub open spec fn classify(cards: Seq<Card>, rows: int) -> Option<Hand> {
    if rows < 2 {
        None
    } else if cards.len() == 2 {
        if all_ranks_eq(cards) {
            Some(Hand::Pair)
        } else {
            None
        }
    } else if cards.len() == 3 {
        if all_ranks_eq(cards) {
            Some(Hand::ThreeOfAKind)
        } else if is_straight_spec(cards) {
            Some(Hand::StraightThree)
        } else {
            None
        }
    } else if cards.len() == 4 {
        if all_ranks_eq(cards) {
            Some(Hand::FourOfAKind)
        } else {
            None
        }
    } else if cards.len() == 5 {
        if fullhouse_spec(cards) {
            Some(Hand::FullHouse)
        } else if is_straight_spec(cards) && all_suits_eq(cards) {
            Some(Hand::StraightFlush)
        } else if is_straight_spec(cards) {
            Some(Hand::StraightFive)
        } else if all_suits_eq(cards) {
            Some(Hand::Flush)
        } else {
            None
        }
    } else {
        None
    }
}

/// Law: a selection spanning fewer than two distinct rows never yields a
/// hand, whatever the cards are.
pub proof fn lemma_few_rows_no_hand(cards: Seq<Card>, rows: int)
    requires
        rows < 2,
    ensures
        classify(cards, rows) is None,
{
}

/// Law: two cards from at least two rows form a Pair exactly when they share
/// a rank, and nothing else.
pub proof fn lemma_pair(cards: Seq<Card>, rows: int)
    requires
        cards.len() == 2,
        rows >= 2,
    ensures
        card_rank(cards[0]) == card_rank(cards[1]) ==> classify(cards, rows) == Some(Hand::Pair),
        card_rank(cards[0]) != card_rank(cards[1]) ==> classify(cards, rows) is None,
{
    if card_rank(cards[0]) == card_rank(cards[1]) {
        assert(all_ranks_eq(cards));
    }
}

/// Law: five cards from at least two rows whose rank multiplicities are
/// exactly {2, 3} classify as a full house, taking priority over any
/// straight or flush the same cards might also form.
pub proof fn lemma_full_house_priority(cards: Seq<Card>, rows: int)
    requires
        rows >= 2,
        fullhouse_spec(cards),
    ensures
        classify(cards, rows) == Some(Hand::FullHouse),
{
}

/// The rank position of each card, in order.
fn rank_codes(cards: &Vec<Card>) -> (rs: Vec<u8>)
    ensures
        rs@.len() == cards@.len(),
        forall|i: int| 0 <= i < cards@.len() ==> (#[trigger] rs@[i]) as int == card_rank(
            cards@[i],
        ),
{
    let mut rs: Vec<u8> = Vec::new();
    let mut k: usize = 0;
    while k < cards.len()
        invariant
            k <= cards@.len(),
            rs@.len() == k,
            forall|i: int| 0 <= i < k ==> (#[trigger] rs@[i]) as int == card_rank(cards@[i]),
        decreases cards@.len() - k,
    {
        let Card(rank, _) = cards[k];
        rs.push(rank.code());
        k += 1;
    }
    rs
}

/// The suit position of each card, in order.
fn suit_codes(cards: &Vec<Card>) -> (ss: Vec<u8>)
    ensures
        ss@.len() == cards@.len(),
        forall|i: int| 0 <= i < cards@.len() ==> (#[trigger] ss@[i]) as int == card_suit(
            cards@[i],
        ),
{
    let mut ss: Vec<u8> = Vec::new();
    let mut k: usize = 0;
    while k < cards.len()
        invariant
            k <= cards@.len(),
            ss@.len() == k,
            forall|i: int| 0 <= i < k ==> (#[trigger] ss@[i]) as int == card_suit(cards@[i]),
        decreases cards@.len() - k,
    {
        let Card(_, suit) = cards[k];
        ss.push(suit.code());
        k += 1;
    }
    ss
}

/// Whether all cards share one rank, read off their rank positions.
fn ranks_all_eq(cards: &Vec<Card>) -> (r: bool)
    ensures
        r == all_ranks_eq(cards@),
{
    let rc = rank_codes(cards);
    let r = all_eq(&rc);
    proof {
        if all_eq_spec(rc@) {
            assert forall|i: int| 0 <= i < cards@.len() implies card_rank(#[trigger] cards@[i])
                == card_rank(cards@[0]) by {
                assert(rc@[i] == rc@[0]);
            }
        }
        if all_ranks_eq(cards@) {
            assert forall|i: int| 0 <= i < rc@.len() implies #[trigger] rc@[i] == rc@[0] by {
                assert(card_rank(cards@[i]) == card_rank(cards@[0]));
            }
        }
    }
    r
}

/// Whether all cards share one suit, read off their suit positions.
fn suits_all_eq(cards: &Vec<Card>) -> (r: bool)
    ensures
        r == all_suits_eq(cards@),
{
    let sc = suit_codes(cards);
    let r = all_eq(&sc);
    proof {
        if all_eq_spec(sc@) {
            assert forall|i: int| 0 <= i < cards@.len() implies card_suit(#[trigger] cards@[i])
                == card_suit(cards@[0]) by {
                assert(sc@[i] == sc@[0]);
            }
        }
        if all_suits_eq(cards@) {
            assert forall|i: int| 0 <= i < sc@.len() implies #[trigger] sc@[i] == sc@[0] by {
                assert(card_suit(cards@[i]) == card_suit(cards@[0]));
            }
        }
    }
    r
}

/// Classifies a selection: the exposed cards together with the number of
/// distinct rows they span decide the hand, by the single rule above.
pub fn classify_cards(cards: &Vec<Card>, rows: usize) -> (h: Option<Hand>)
    ensures
        h == classify(cards@, rows as int),
{
    if rows < 2 {
        return None;
    }
    let n = cards.len();
    if n == 2 {
        if ranks_all_eq(cards) {
            Some(Hand::Pair)
        } else {
            None
        }
    } else if n == 3 {
        if ranks_all_eq(cards) {
            Some(Hand::ThreeOfAKind)
        } else if is_straight(cards) {
            Some(Hand::StraightThree)
        } else {
            None
        }
    } else if n == 4 {
        if ranks_all_eq(cards) {
            Some(Hand::FourOfAKind)
        } else {
            None
        }
    } else if n == 5 {
        if check_fullhouse(cards) {
            return Some(Hand::FullHouse);
        }
        let straight = is_straight(cards);
        let flush = suits_all_eq(cards);
        if straight && flush {
            Some(Hand::StraightFlush)
        } else if straight {
            Some(Hand::StraightFive)
        } else if flush {
            Some(Hand::Flush)
        } else {
            None
        }
    } else {
        None
    }
}

} // verus!
