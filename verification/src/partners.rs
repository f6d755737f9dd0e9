use vstd::prelude::*;

use crate::counting::{
    cards_at, lemma_seq_points_nonneg, lemma_seq_points_take_le, lemma_take_succ, seq_points,
    tally, tally_hand,
};
use crate::deck::{card_points, is_meld_slot, rank_index, wild_index, Card, CardValue, RANK_COUNT};

verus! {

/// Which members of a team have opened this round. The status only ever
/// advances toward `Both`, which is terminal for the round.
#[derive(Clone, Copy, Debug, PartialEq, Eq, Structural)]
pub enum TeamOpenStatus {
    Neither,
    PlayerA,
    PlayerB,
    Both,
}

/// A team's open status projected into one player's frame of reference.
#[derive(Clone, Copy, Debug, PartialEq, Eq, Structural)]
pub enum WhoOpened {
    Both,
    Me,
    Partner,
    Nobody,
}

/// The abstract value of a team: the two member indices, the per-rank
/// points deck, the cross-round running score, and the open status.
#[verifier::ext_equal]
pub struct PartnersView {
    pub a: int,
    pub b: int,
    pub points: Seq<Seq<Card>>,
    pub overall: int,
    pub status: TeamOpenStatus,
}

/// A two-player team: its member indices, the shared points deck holding
/// all cards melded this round keyed by rank slot, the running score
/// carried across rounds, and the open-status state machine.
pub struct Partners {
    pub player_a_index: usize,
    pub player_b_index: usize,
    pub points_deck: Vec<Vec<Card>>,
    pub overall_points: i16,
    pub status: TeamOpenStatus,
}

impl PartnersView {
    /// The points deck has one bucket per rank slot and every card sits
    /// in the bucket of its own rank.
    pub open spec fn wf(self) -> bool {
        &&& self.points.len() == RANK_COUNT
        &&& forall|i: int, j: int|
            0 <= i < RANK_COUNT && 0 <= j < self.points[i].len() ==> rank_index(
                #[trigger] self.points[i][j].value,
            ) == i
    }

    /// Whether any card of rank slot `slot` has been melded, the analogue
    /// of the rank being a key of the points deck.
    pub open spec fn has_rank(self, slot: int) -> bool {
        0 <= slot < self.points.len() && self.points[slot].len() > 0
    }

    /// The summed fixed score of the first `k` buckets.
    pub open spec fn points_upto(self, k: int) -> int
        decreases k,
    {
        if k <= 0 {
            0
        } else {
            self.points_upto(k - 1) + seq_points(self.points[k - 1])
        }
    }

    /// The summed fixed score of every card in the points deck.
    pub open spec fn points_total(self) -> int {
        self.points_upto(RANK_COUNT as int)
    }
}

/// The status a team moves to when `opener` opens: an unrecognized opener
/// changes nothing; the first recognized opener is recorded; the other
/// member opening afterwards advances to `Both`; a repeated opener and a
/// team already at `Both` stay put.
pub open spec fn updated_status(status: TeamOpenStatus, a: int, b: int, opener: int) -> TeamOpenStatus {
    if opener != a && opener != b {
        status
    } else {
        let candidate = if opener == a {
            TeamOpenStatus::PlayerA
        } else {
            TeamOpenStatus::PlayerB
        };
        match (candidate, status) {
            (TeamOpenStatus::PlayerA, TeamOpenStatus::PlayerB)
            | (TeamOpenStatus::PlayerB, TeamOpenStatus::PlayerA) => TeamOpenStatus::Both,
            (c, TeamOpenStatus::Neither) => c,
            _ => status,
        }
    }
}

/// How player `i` sees a team's status: `Both` and `Nobody` pass through,
/// and a single-member status reads as `Me` for that member and `Partner`
/// for anyone else.
pub open spec fn who_opened_for(status: TeamOpenStatus, a: int, b: int, i: int) -> WhoOpened {
    match status {
        TeamOpenStatus::Both => WhoOpened::Both,
        TeamOpenStatus::PlayerA => if a == i {
            WhoOpened::Me
        } else {
            WhoOpened::Partner
        },
        TeamOpenStatus::PlayerB => if b == i {
            WhoOpened::Me
        } else {
            WhoOpened::Partner
        },
        TeamOpenStatus::Neither => WhoOpened::Nobody,
    }
}

/// The total wild-card debit that adding `hand` to a team with points
/// deck `v` would require, over the first `k` rank slots: a meldable rank
/// that is present in `hand` but not yet melded costs two wilds when it
/// appears once and one wild when it appears twice.
pub open spec fn wild_debits_upto(v: PartnersView, hand: Seq<Card>, k: int) -> int
    decreases k,
{
    if k <= 0 {
        0
    } else {
        wild_debits_upto(v, hand, k - 1) + slot_debit(v, hand, k - 1)
    }
}

/// The wild-card debit one rank slot contributes.
pub open spec fn slot_debit(v: PartnersView, hand: Seq<Card>, slot: int) -> int {
    if is_meld_slot(slot) && !v.has_rank(slot) {
        if tally(hand, slot) == 1 {
            2
        } else if tally(hand, slot) == 2 {
            1
        } else {
            0
        }
    } else {
        0
    }
}

/// The lenient add-points rule: the wilds supplied in `hand` must cover
/// the pooled debit of every rank in `hand` that the points deck does not
/// hold yet. Ranks already melded, Jokers and surplus wilds are all free.
pub open spec fn valid_points(v: PartnersView, hand: Seq<Card>) -> bool {
    wild_debits_upto(v, hand, 13) <= tally(hand, wild_index())
}

impl View for Partners {
    type V = PartnersView;

    open spec fn view(&self) -> PartnersView {
        PartnersView {
            a: self.player_a_index as int,
            b: self.player_b_index as int,
            points: Seq::new(self.points_deck@.len(), |i: int| self.points_deck@[i]@),
            overall: self.overall_points as int,
            status: self.status,
        }
    }
}

impl Partners {
    /// A fresh team of the two given players: nothing melded, nothing
    /// scored, nobody opened.
    pub fn new(player_a_index: usize, player_b_index: usize) -> (p: Partners)
        ensures
            p@.a == player_a_index,
            p@.b == player_b_index,
            p@.overall == 0,
            p@.status == TeamOpenStatus::Neither,
            p@.wf(),
            forall|slot: int| 0 <= slot < RANK_COUNT ==> p@.points[slot] =~= Seq::<Card>::empty(),
    {
        let mut points_deck: Vec<Vec<Card>> = Vec::new();
        let mut k: usize = 0;
        while k < RANK_COUNT
            invariant
                k <= RANK_COUNT,
                points_deck@.len() == k,
                forall|i: int| 0 <= i < k ==> points_deck@[i]@.len() == 0,
            decreases RANK_COUNT - k,
        {
            points_deck.push(Vec::new());
            k = k + 1;
        }
        Partners {
            player_a_index,
            player_b_index,
            overall_points: 0,
            points_deck,
            status: TeamOpenStatus::Neither,
        }
    }

    /// Appends every card of an accepted set to the points deck under its
    /// own rank, keeping insertion order within each rank. No card is
    /// ever removed within a round.
    pub fn add_points(&mut self, cards: Vec<Card>)
        requires
            old(self)@.wf(),
        ensures
            final(self)@.wf(),
            final(self)@.a == old(self)@.a,
            final(self)@.b == old(self)@.b,
            final(self)@.overall == old(self)@.overall,
            final(self)@.status == old(self)@.status,
            forall|slot: int|
                0 <= slot < RANK_COUNT ==> final(self)@.points[slot] == old(self)@.points[slot]
                    + cards_at(cards@, slot),
    {
        let ghost orig = self@;
        let mut j: usize = 0;
        while j < cards.len()
            invariant
                j <= cards@.len(),
                self@.a == orig.a,
                self@.b == orig.b,
                self@.overall == orig.overall,
                self@.status == orig.status,
                self@.points.len() == RANK_COUNT,
                orig.wf(),
                forall|slot: int|
                    0 <= slot < RANK_COUNT ==> self@.points[slot] == orig.points[slot] + cards_at(
                        cards@.take(j as int),
                        slot,
                    ),
            decreases cards@.len() - j,
        {
            let card = cards[j];
            let slot = card.slot();
            let ghost before = self@.points;
            self.points_deck[slot].push(card);
            proof {
                lemma_take_succ(cards@, j as int);
                assert forall|s: int| 0 <= s < RANK_COUNT implies self@.points[s] == orig.points[s]
                    + cards_at(cards@.take(j + 1), s) by {
                    if s == slot as int {
                        assert(self@.points[s] =~= before[s].push(card));
                        assert(orig.points[s] + cards_at(cards@.take(j + 1), s) =~= (
                        orig.points[s] + cards_at(cards@.take(j as int), s)).push(card));
                    } else {
                        assert(self@.points[s] == before[s]);
                        assert(cards_at(cards@.take(j + 1), s) == cards_at(
                            cards@.take(j as int),
                            s,
                        ));
                    }
                }
            }
            j = j + 1;
        }
        assert(cards@.take(cards@.len() as int) =~= cards@);
        proof {
            assert forall|i: int, jj: int|
                0 <= i < RANK_COUNT && 0 <= jj < final(self)@.points[i].len() implies rank_index(
                #[trigger] final(self)@.points[i][jj].value,
            ) == i by {
                lemma_cards_at_ranks(cards@, i);
                if jj >= orig.points[i].len() {
                    assert(final(self)@.points[i][jj] == cards_at(cards@, i)[jj - orig.points[i].len()]);
                }
            }
        }
    }

    /// Records that `player_opening` has opened, advancing the open-status
    /// machine; see [`updated_status`] for the exact transition.
    pub fn update_status(&mut self, player_opening: usize)
        ensures
            final(self)@.status == updated_status(
                old(self)@.status,
                old(self)@.a,
                old(self)@.b,
                player_opening as int,
            ),
            final(self)@.a == old(self)@.a,
            final(self)@.b == old(self)@.b,
            final(self)@.overall == old(self)@.overall,
            final(self)@.points == old(self)@.points,
    {
        let status: TeamOpenStatus;
        if player_opening == self.player_a_index {
            status = TeamOpenStatus::PlayerA;
        } else if player_opening == self.player_b_index {
            status = TeamOpenStatus::PlayerB;
        } else {
            // an opener who is on neither seat changes nothing
            return ;
        }

        match (status, &self.status) {
            (TeamOpenStatus::PlayerA, TeamOpenStatus::PlayerB)
            | (TeamOpenStatus::PlayerB, TeamOpenStatus::PlayerA) => {
                self.status = TeamOpenStatus::Both;
            },
            (s, TeamOpenStatus::Neither) => {
                self.status = s;
            },
            _ => {},
        }
    }

    /// The raw open status of the team.
    pub fn get_status(&self) -> (s: TeamOpenStatus)
        ensures
            s == self@.status,
    {
        self.status
    }

    /// The team's status as player `i` sees it; see [`who_opened_for`].
    pub fn who_opened(&self, i: usize) -> (r: WhoOpened)
        ensures
            r == who_opened_for(self@.status, self@.a, self@.b, i as int),
    {
        match self.get_status() {
            TeamOpenStatus::Both => WhoOpened::Both,
            TeamOpenStatus::PlayerA => {
                if self.player_a_index == i {
                    WhoOpened::Me
                } else {
                    WhoOpened::Partner
                }
            },
            TeamOpenStatus::PlayerB => {
                if self.player_b_index == i {
                    WhoOpened::Me
                } else {
                    WhoOpened::Partner
                }
            },
            TeamOpenStatus::Neither => WhoOpened::Nobody,
        }
    }

    /// Whether any card of the given rank has been melded by this team.
    pub fn has_melded_rank(&self, value: CardValue) -> (r: bool)
        requires
            self@.wf(),
        ensures
            r == self@.has_rank(rank_index(value)),
    {
        let card = Card { value, suit: crate::deck::CardSuit::Hearts };
        let slot = card.slot();
        self.points_deck[slot].len() > 0
    }

    /// The cards melded so far under the given rank slot, oldest first.
    pub fn melded_at(&self, slot: usize) -> (r: &Vec<Card>)
        requires
            self@.wf(),
            slot < RANK_COUNT,
        ensures
            r@ == self@.points[slot as int],
    {
        &self.points_deck[slot]
    }

    /// Decides the lenient add-points rule for a candidate set against
    /// this team's points deck; see [`valid_points`].
    pub fn are_valid_points(&self, hand: &[Card]) -> (r: bool)
        requires
            self@.wf(),
        ensures
            r == valid_points(self@, hand@),
    {
        let counts = tally_hand(hand);
        let twos = counts[1];
        let mut debit: usize = 0;
        let mut k: usize = 0;
        while k < 13
            invariant
                k <= 13,
                self@.wf(),
                counts@.len() == RANK_COUNT,
                forall|slot: int| 0 <= slot < RANK_COUNT ==> counts@[slot] == tally(hand@, slot),
                debit <= 2 * k,
                debit as int == wild_debits_upto(self@, hand@, k as int),
            decreases 13 - k,
        {
            if k != 1 && counts[k] >= 1 && self.points_deck[k].len() == 0 {
                let c = counts[k];
                if c == 1 {
                    debit = debit + 2;
                } else if c == 2 {
                    debit = debit + 1;
                }
            }
            k = k + 1;
        }
        debit <= twos
    }

    /// The index of this player's partner, or nothing when the player is
    /// on neither seat of this team.
    pub fn get_partner(&self, player_index: usize) -> (r: Option<usize>)
        ensures
            player_index as int == self@.a ==> (r matches Some(p) && p as int == self@.b),
            player_index as int != self@.a && player_index as int == self@.b ==> (r matches Some(p)
                && p as int == self@.a),
            player_index as int != self@.a && player_index as int != self@.b ==> r is None,
    {
        if player_index == self.player_a_index {
            Some(self.player_b_index)
        } else if player_index == self.player_b_index {
            Some(self.player_a_index)
        } else {
            None
        }
    }

    /// The summed fixed score of every card melded this round.
    pub fn get_points_total(&self) -> (r: u16)
        requires
            self@.wf(),
            self@.points_total() <= u16::MAX,
        ensures
            r as int == self@.points_total(),
    {
        proof {
            lemma_points_upto_le(self@, 0, RANK_COUNT as int);
        }
        let mut total: u16 = 0;
        let mut k: usize = 0;
        while k < RANK_COUNT
            invariant
                k <= RANK_COUNT,
                self@.wf(),
                self@.points_total() <= u16::MAX,
                total as int == self@.points_upto(k as int),
            decreases RANK_COUNT - k,
        {
            let bucket_len = self.points_deck[k].len();
            let mut j: usize = 0;
            proof {
                assert(seq_points(self@.points[k as int].take(0)) == 0) by {
                    assert(self@.points[k as int].take(0) =~= Seq::<Card>::empty());
                }
            }
            while j < bucket_len
                invariant
                    j <= bucket_len,
                    k < RANK_COUNT,
                    self@.wf(),
                    self@.points_total() <= u16::MAX,
                    bucket_len == self@.points[k as int].len(),
                    total as int == self@.points_upto(k as int) + seq_points(
                        self@.points[k as int].take(j as int),
                    ),
                decreases bucket_len - j,
            {
                proof {
                    lemma_take_succ(self@.points[k as int], j as int);
                    lemma_seq_points_take_le(self@.points[k as int], j + 1);
                    lemma_points_upto_le(self@, k + 1, RANK_COUNT as int);
                    lemma_seq_points_nonneg(self@.points[k as int].take(j + 1));
                }
                let card = self.points_deck[k][j];
                assert(card_points(card) >= 5 && card_points(card) <= 100);
                total = total + card.point_value();
                j = j + 1;
            }
            assert(self@.points[k as int].take(bucket_len as int) =~= self@.points[k as int]);
            k = k + 1;
        }
        total
    }
}

/// Every card that [`cards_at`] selects for a slot has that slot's rank.
pub proof fn lemma_cards_at_ranks(cards: Seq<Card>, slot: int)
    ensures
        forall|j: int|
            0 <= j < cards_at(cards, slot).len() ==> rank_index(
                #[trigger] cards_at(cards, slot)[j].value,
            ) == slot,
    decreases cards.len(),
{
    if cards.len() > 0 {
        lemma_cards_at_ranks(cards.drop_last(), slot);
    }
}

/// The per-bucket point sums only grow as more buckets are taken in.
pub proof fn lemma_points_upto_le(v: PartnersView, k1: int, k2: int)
    requires
        v.wf(),
        0 <= k1 <= k2 <= RANK_COUNT,
    ensures
        v.points_upto(k1) <= v.points_upto(k2),
    decreases k2 - k1,
{
    if k1 < k2 {
        lemma_seq_points_nonneg(v.points[k1]);
        lemma_points_upto_le(v, k1 + 1, k2);
    }
}


/// The advancement order of the open-status machine: a status may stay
/// put, anything may leave `Neither`, and anything may reach `Both`.
pub open spec fn status_le(s1: TeamOpenStatus, s2: TeamOpenStatus) -> bool {
    s1 == s2 || s1 is Neither || s2 is Both
}

/// Law: recording an opener never regresses the status — it only moves
/// along [`status_le`] — and `Both` is absorbing.
pub proof fn lemma_update_status_monotonic(status: TeamOpenStatus, a: int, b: int, opener: int)
    ensures
        status_le(status, updated_status(status, a, b, opener)),
        status is Both ==> updated_status(status, a, b, opener) is Both,
{
}


/// [`status_le`] is transitive, so single-step monotonicity extends to
/// any sequence of recorded openers.
pub proof fn lemma_status_le_transitive(s1: TeamOpenStatus, s2: TeamOpenStatus, s3: TeamOpenStatus)
    requires
        status_le(s1, s2),
        status_le(s2, s3),
    ensures
        status_le(s1, s3),
{
}


/// The status a team reaches after recording a whole sequence of
/// openers, one after the other.
pub open spec fn status_after_all(
    status: TeamOpenStatus,
    a: int,
    b: int,
    openers: Seq<int>,
) -> TeamOpenStatus
    decreases openers.len(),
{
    if openers.len() == 0 {
        status
    } else {
        status_after_all(updated_status(status, a, b, openers[0]), a, b, openers.drop_first())
    }
}

/// Law: over any sequence of recorded openers the status never
/// regresses.
pub proof fn lemma_status_monotonic_over_sequence(
    status: TeamOpenStatus,
    a: int,
    b: int,
    openers: Seq<int>,
)
    ensures
        status_le(status, status_after_all(status, a, b, openers)),
    decreases openers.len(),
{
    if openers.len() > 0 {
        let next = updated_status(status, a, b, openers[0]);
        lemma_update_status_monotonic(status, a, b, openers[0]);
        lemma_status_monotonic_over_sequence(next, a, b, openers.drop_first());
        lemma_status_le_transitive(status, next, status_after_all(next, a, b, openers.drop_first()));
    }
}

/// Law: recording the same opener twice is the same as recording them
/// once.
pub proof fn lemma_update_status_idempotent(status: TeamOpenStatus, a: int, b: int, opener: int)
    ensures
        updated_status(updated_status(status, a, b, opener), a, b, opener) == updated_status(
            status,
            a,
            b,
            opener,
        ),
{
}

} // verus!
