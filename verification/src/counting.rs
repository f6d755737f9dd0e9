use vstd::prelude::*;

use crate::deck::{card_points, rank_index, Card, RANK_COUNT};

verus! {

/// How many cards of `cards` fall in rank slot `slot`.
pub open spec fn tally(cards: Seq<Card>, slot: int) -> nat
    decreases cards.len(),
{
    if cards.len() == 0 {
        0
    } else {
        tally(cards.drop_last(), slot) + if rank_index(cards.last().value) == slot {
            1nat
        } else {
            0nat
        }
    }
}

/// The cards of `cards` whose rank falls in slot `slot`, keeping their
/// order.
pub open spec fn cards_at(cards: Seq<Card>, slot: int) -> Seq<Card>
    decreases cards.len(),
{
    if cards.len() == 0 {
        Seq::empty()
    } else {
        cards_at(cards.drop_last(), slot) + if rank_index(cards.last().value) == slot {
            seq![cards.last()]
        } else {
            Seq::empty()
        }
    }
}

/// The total fixed score of a pile of cards.
pub open spec fn seq_points(cards: Seq<Card>) -> int
    decreases cards.len(),
{
    if cards.len() == 0 {
        0
    } else {
        seq_points(cards.drop_last()) + card_points(cards.last())
    }
}

/// Taking one more element appends it at the end.
pub proof fn lemma_take_succ<A>(s: Seq<A>, j: int)
    requires
        0 <= j < s.len(),
    ensures
        s.take(j + 1).drop_last() =~= s.take(j),
        s.take(j + 1).last() == s[j],
{
}

/// A slot never tallies more cards than the pile holds.
pub proof fn lemma_tally_le_len(cards: Seq<Card>, slot: int)
    ensures
        tally(cards, slot) <= cards.len(),
    decreases cards.len(),
{
    if cards.len() > 0 {
        lemma_tally_le_len(cards.drop_last(), slot);
    }
}

/// Every card scores a positive amount, so no pile scores negatively.
pub proof fn lemma_seq_points_nonneg(cards: Seq<Card>)
    ensures
        seq_points(cards) >= 0,
    decreases cards.len(),
{
    if cards.len() > 0 {
        lemma_seq_points_nonneg(cards.drop_last());
    }
}

/// A prefix of a pile never scores more than the whole pile.
pub proof fn lemma_seq_points_take_le(cards: Seq<Card>, j: int)
    requires
        0 <= j <= cards.len(),
    ensures
        seq_points(cards.take(j)) <= seq_points(cards),
    decreases cards.len() - j,
{
    if j == cards.len() {
        assert(cards.take(j) =~= cards);
    } else {
        lemma_take_succ(cards, j);
        lemma_seq_points_take_le(cards, j + 1);
    }
}

/// Counts how many cards of `hand` fall in each rank slot.
pub fn tally_hand(hand: &[Card]) -> (counts: Vec<usize>)
    ensures
        counts@.len() == RANK_COUNT,
        forall|slot: int| 0 <= slot < RANK_COUNT ==> counts@[slot] == tally(hand@, slot),
{
    let mut counts: Vec<usize> = Vec::new();
    let mut k: usize = 0;
    while k < RANK_COUNT
        invariant
            k <= RANK_COUNT,
            counts@.len() == k,
            forall|slot: int| 0 <= slot < k ==> counts@[slot] == 0,
        decreases RANK_COUNT - k,
    {
        counts.push(0);
        k = k + 1;
    }
    assert(forall|slot: int| 0 <= slot < RANK_COUNT ==> tally(hand@.take(0), slot) == 0) by {
        assert(hand@.take(0) =~= Seq::<Card>::empty());
    }

    let mut j: usize = 0;
    while j < hand.len()
        invariant
            j <= hand@.len(),
            counts@.len() == RANK_COUNT,
            forall|slot: int| 0 <= slot < RANK_COUNT ==> counts@[slot] == tally(hand@.take(j as int), slot),
        decreases hand@.len() - j,
    {
        proof {
            lemma_take_succ(hand@, j as int);
            assert forall|slot: int| 0 <= slot < RANK_COUNT implies tally(
                hand@.take(j as int),
                slot,
            ) <= j by {
                lemma_tally_le_len(hand@.take(j as int), slot);
            }
        }
        let slot = hand[j].slot();
        let c = counts[slot];
        counts[slot] = c + 1;
        j = j + 1;
    }
    assert(hand@.take(hand@.len() as int) =~= hand@);
    counts
}

} // verus!
