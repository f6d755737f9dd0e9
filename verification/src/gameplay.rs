use vstd::prelude::*;

use crate::counting::{
    cards_at, lemma_seq_points_nonneg, lemma_seq_points_take_le, lemma_take_succ, seq_points,
    tally, tally_hand,
};
use crate::deck::{fresh_deck, is_meld_slot, wild_index, Card, CardValue, Deck, DeckType, DeckView};
use crate::error::DameDePiqueError;
use crate::partners::{
    lemma_cards_at_ranks, updated_status, valid_points, who_opened_for, Partners, PartnersView,
    WhoOpened,
};
use crate::player::{Player, PlayerView};
use crate::state::{team_of, DDPState, DDPView, GameState, GameStateView};

verus! {

/// The cumulative score at which the game ends.
pub const GAME_POINT_TOTAL: i16 = 1000;

/// What a successfully applied move reports about the round.
#[derive(Clone, Copy, Debug, PartialEq, Eq, Structural)]
pub enum GameStatus {
    /// The round goes on.
    Active,
    /// A hand was emptied; the scoring rollup has been applied.
    RoundOver,
    /// A hand was emptied and some team has reached the game total.
    GameOver,
}

/// One move request, always on behalf of the player whose turn it is.
#[derive(Clone)]
pub enum PlayerMove {
    /// Draw the top card of the draw pile.
    Draw,
    /// Meld the given cards as an opening.
    Open(Vec<Card>),
    /// Add the given cards to the team's established melds.
    AddPoints(Vec<Card>),
    /// Claim the whole discard pile by opening with the given cards plus
    /// the top discard.
    TakeDiscardPile(Vec<Card>),
    /// Discard the card at the given hand index.
    Discard(usize),
}

/// How many of the first `k` rank slots hold a completed set in `hand`:
/// a meldable rank with three or more cards.
pub open spec fn triples_upto(hand: Seq<Card>, k: int) -> int
    decreases k,
{
    if k <= 0 {
        0
    } else {
        triples_upto(hand, k - 1) + if is_meld_slot(k - 1) && tally(hand, k - 1) >= 3 {
            1int
        } else {
            0int
        }
    }
}

/// How many of the first `k` rank slots hold exactly a pair in `hand`,
/// each needing one wild card to complete.
pub open spec fn doubles_upto(hand: Seq<Card>, k: int) -> int
    decreases k,
{
    if k <= 0 {
        0
    } else {
        doubles_upto(hand, k - 1) + if is_meld_slot(k - 1) && tally(hand, k - 1) == 2 {
            1int
        } else {
            0int
        }
    }
}

/// How many of the first `k` rank slots hold exactly one card in `hand`,
/// each needing two wild cards to complete.
pub open spec fn singles_upto(hand: Seq<Card>, k: int) -> int
    decreases k,
{
    if k <= 0 {
        0
    } else {
        singles_upto(hand, k - 1) + if is_meld_slot(k - 1) && tally(hand, k - 1) == 1 {
            1int
        } else {
            0int
        }
    }
}

/// The ranks of `hand` holding three or more cards. Jokers and wild Twos
/// never count toward a set.
pub open spec fn triples(hand: Seq<Card>) -> int {
    triples_upto(hand, 13)
}

/// The ranks of `hand` holding exactly two cards.
pub open spec fn doubles(hand: Seq<Card>) -> int {
    doubles_upto(hand, 13)
}

/// The ranks of `hand` holding exactly one card.
pub open spec fn singles(hand: Seq<Card>) -> int {
    singles_upto(hand, 13)
}

/// The number of wild Twos in `hand`.
pub open spec fn wild_count(hand: Seq<Card>) -> nat {
    tally(hand, wild_index())
}

/// The exact-match wild rule: the wilds supplied must equal exactly what
/// completing every pair and single needs — one per pair, two per single.
/// A surplus, unused wild invalidates the opening.
pub open spec fn wilds_exact(hand: Seq<Card>) -> bool {
    wild_count(hand) == doubles(hand) + 2 * singles(hand)
}

/// The number of sets the hand completes, counting completed triples and
/// the pairs and singles that the wild rule completes.
pub open spec fn total_sets(hand: Seq<Card>) -> int {
    triples(hand) + doubles(hand) + singles(hand)
}

/// The opening rule: a player who already opened (alone or with their
/// partner) may never open again; a first opener needs three completed
/// sets while neither member has opened, and only one once the partner
/// has; and in either case the wilds must match the shortfall exactly.
pub open spec fn can_open(who: WhoOpened, hand: Seq<Card>) -> bool {
    match who {
        WhoOpened::Both | WhoOpened::Me => false,
        WhoOpened::Partner => wilds_exact(hand) && total_sets(hand) == 1,
        WhoOpened::Nobody => wilds_exact(hand) && total_sets(hand) == 3,
    }
}

/// Whether the top discard may be picked up at all: it must exist, must
/// not be a wild Two or a Joker, and when its rank is already melded by
/// the team, only a side that has not fully opened (`Nobody` or
/// `Partner`) may take it — a fully open team must extend such melds
/// through an ordinary add-points move instead.
pub open spec fn can_pickup_top(s: DDPView, t: int, turn: int) -> bool {
    &&& s.base.deck.discard.len() > 0
    &&& {
        let top = s.base.deck.discard.last();
        let who = who_opened_for(s.partners[t].status, s.partners[t].a, s.partners[t].b, turn);
        &&& top.value != CardValue::Joker
        &&& top.value != CardValue::Two
        &&& (!s.partners[t].has_rank(crate::deck::rank_index(top.value)) || (who is Nobody || who
            is Partner))
    }
}

/// Whether the acting player's team has opened through them, which is
/// what entitles them to add points.
pub open spec fn may_add_points(s: DDPView, t: int, turn: int) -> bool {
    let who = who_opened_for(s.partners[t].status, s.partners[t].a, s.partners[t].b, turn);
    who is Me || who is Both
}

/// A round is over as soon as any player's hand is empty.
pub open spec fn round_over(s: DDPView) -> bool {
    exists|p: int| 0 <= p < s.base.players.len() && (#[trigger] s.base.players[p]).hand.len() == 0
}

/// The game is over once any team's cumulative score has reached the
/// game total.
pub open spec fn game_over(s: DDPView) -> bool {
    exists|j: int| 0 <= j < s.partners.len() && (#[trigger] s.partners[j]).overall
        >= GAME_POINT_TOTAL
}

/// `s` with its deck replaced.
pub open spec fn with_deck(s: DDPView, deck: DeckView) -> DDPView {
    DDPView { base: GameStateView { deck, ..s.base }, ..s }
}

/// `s` with player `p`'s hand replaced.
pub open spec fn with_hand(s: DDPView, p: int, hand: Seq<Card>) -> DDPView {
    DDPView {
        base: GameStateView {
            players: s.base.players.update(p, PlayerView { hand, ..s.base.players[p] }),
            ..s.base
        },
        ..s
    }
}

/// `s` with team `t` replaced.
pub open spec fn with_team(s: DDPView, t: int, team: PartnersView) -> DDPView {
    DDPView { partners: s.partners.update(t, team), ..s }
}

/// The team after an accepted set of cards is appended to its points
/// deck, each card under its own rank.
pub open spec fn team_with_points(team: PartnersView, cards: Seq<Card>) -> PartnersView {
    PartnersView {
        points: Seq::new(team.points.len(), |i: int| team.points[i] + cards_at(cards, i)),
        ..team
    }
}

/// The team after `opener` is recorded as having opened.
pub open spec fn team_opened(team: PartnersView, opener: int) -> PartnersView {
    PartnersView { status: updated_status(team.status, team.a, team.b, opener), ..team }
}

/// The state after the acting player draws the top card of the draw pile.
pub open spec fn draw_applied(s: DDPView) -> DDPView {
    let top = s.base.deck.draw.last();
    let s1 = with_deck(
        s,
        DeckView { draw: s.base.deck.draw.drop_last(), discard: s.base.deck.discard },
    );
    with_hand(s1, s.base.turn, s.base.players[s.base.turn].hand.push(top))
}

/// The state after the acting player discards the card at hand index `i`.
pub open spec fn discard_applied(s: DDPView, i: int) -> DDPView {
    let hand = s.base.players[s.base.turn].hand;
    let s1 = with_hand(s, s.base.turn, hand.remove(i));
    with_deck(
        s1,
        DeckView { draw: s.base.deck.draw, discard: s.base.deck.discard.push(hand[i]) },
    )
}

/// The state after the acting player's accepted opening: the cards join
/// the team's points deck and the player is recorded as opener.
pub open spec fn open_applied(s: DDPView, cards: Seq<Card>) -> DDPView {
    let t = team_of(s.partners, s.base.turn);
    with_team(s, t, team_opened(team_with_points(s.partners[t], cards), s.base.turn))
}

/// The state after an accepted add-points move: the cards join the
/// team's points deck; the status machine is already fully advanced.
pub open spec fn add_points_applied(s: DDPView, cards: Seq<Card>) -> DDPView {
    let t = team_of(s.partners, s.base.turn);
    with_team(s, t, team_with_points(s.partners[t], cards))
}

/// The state after an accepted discard-pile pickup: the top discard is
/// melded together with the supplied cards, the player is recorded as
/// opener, and the whole remaining pile moves into their hand.
pub open spec fn pickup_applied(s: DDPView, cards: Seq<Card>) -> DDPView {
    let t = team_of(s.partners, s.base.turn);
    let top = s.base.deck.discard.last();
    let remaining = s.base.deck.discard.drop_last();
    let s1 = with_team(
        s,
        t,
        team_opened(team_with_points(s.partners[t], cards.push(top)), s.base.turn),
    );
    let s2 = with_deck(s1, DeckView { draw: s.base.deck.draw, discard: Seq::empty() });
    with_hand(s2, s.base.turn, s.base.players[s.base.turn].hand + remaining)
}

/// All the discard-pile pickup conditions together: the supplied cards
/// alone must not already open (the top card has to be necessary), the
/// top card must be eligible, and with the top card appended the set
/// must open at the current status — or at the reduced one-set threshold
/// when the team has already opened through this player or both.
pub open spec fn pickup_accepted(s: DDPView, t: int, turn: int, cards: Seq<Card>) -> bool {
    let who = who_opened_for(s.partners[t].status, s.partners[t].a, s.partners[t].b, turn);
    &&& !can_open(who, cards)
    &&& can_pickup_top(s, t, turn)
    &&& {
        let combined = cards.push(s.base.deck.discard.last());
        match who {
            WhoOpened::Nobody | WhoOpened::Partner => can_open(who, combined),
            _ => can_open(WhoOpened::Partner, combined),
        }
    }
}

/// The state a move leads to, or nothing when the move is rejected; the
/// round/game-over settlement is applied on top of this by the
/// dispatcher.
pub open spec fn move_applied(s: DDPView, m: PlayerMove) -> Option<DDPView> {
    let turn = s.base.turn;
    let t = team_of(s.partners, turn);
    let who = who_opened_for(s.partners[t].status, s.partners[t].a, s.partners[t].b, turn);
    match m {
        PlayerMove::Draw => if s.base.deck.draw.len() == 0 {
            None
        } else {
            Some(draw_applied(s))
        },
        PlayerMove::Discard(i) => if i >= s.base.players[turn].hand.len() {
            None
        } else {
            Some(discard_applied(s, i as int))
        },
        PlayerMove::Open(cards) => if can_open(who, cards@) {
            Some(open_applied(s, cards@))
        } else {
            None
        },
        PlayerMove::AddPoints(cards) => if may_add_points(s, t, turn) && valid_points(
            s.partners[t],
            cards@,
        ) {
            Some(add_points_applied(s, cards@))
        } else {
            None
        },
        PlayerMove::TakeDiscardPile(cards) => if pickup_accepted(s, t, turn, cards@) {
            Some(pickup_applied(s, cards@))
        } else {
            None
        },
    }
}

/// The rejection a refused move reports; each error that carries a
/// player index carries the acting player's.
pub open spec fn move_error(s: DDPView, m: PlayerMove) -> DameDePiqueError {
    let turn = s.base.turn;
    let t = team_of(s.partners, turn);
    match m {
        PlayerMove::Draw => DameDePiqueError::DeckEmpty,
        PlayerMove::Discard(i) => DameDePiqueError::IncorrectCardNumberRequest,
        PlayerMove::Open(cards) => DameDePiqueError::InvalidOpeningHand(turn as usize),
        PlayerMove::AddPoints(cards) => if !may_add_points(s, t, turn) {
            DameDePiqueError::PlayerCantAddPoints(turn as usize)
        } else {
            DameDePiqueError::InvalidPoints
        },
        PlayerMove::TakeDiscardPile(cards) => DameDePiqueError::InvalidDiscardOpeningHand(
            turn as usize,
        ),
    }
}

/// A team after the round-end scoring rollup: the melded value joins the
/// running score and both members' remaining hands are charged against
/// it.
pub open spec fn team_rolled(s: DDPView, team: PartnersView) -> PartnersView {
    PartnersView {
        overall: team.overall + team.points_total() - seq_points(s.base.players[team.a].hand)
            - seq_points(s.base.players[team.b].hand),
        ..team
    }
}

/// The whole state after the round-end scoring rollup.
pub open spec fn rollup(s: DDPView) -> DDPView {
    DDPView { partners: Seq::new(s.partners.len(), |j: int| team_rolled(s, s.partners[j])), ..s }
}

/// How an applied move settles: both round and game over report
/// `GameOver` with no rollup; a round over alone reports `RoundOver`
/// after the rollup; anything else stays `Active`.
pub open spec fn settles(mid: DDPView, fin: DDPView, r: Result<GameStatus, DameDePiqueError>) -> bool {
    if game_over(mid) && round_over(mid) {
        r == Ok::<GameStatus, DameDePiqueError>(GameStatus::GameOver) && fin == mid
    } else if round_over(mid) {
        r == Ok::<GameStatus, DameDePiqueError>(GameStatus::RoundOver) && fin == rollup(mid)
    } else {
        r == Ok::<GameStatus, DameDePiqueError>(GameStatus::Active) && fin == mid
    }
}

/// The machine-size bounds the scoring rollup needs: each team's melded
/// total and each member's hand penalty must fit the 16-bit counters
/// they are summed in, and the updated running score must fit its
/// signed 16-bit field.
pub open spec fn rollup_fits(s: DDPView) -> bool {
    forall|j: int|
        0 <= j < s.partners.len() ==> {
            let team = #[trigger] s.partners[j];
            &&& team.points_total() <= u16::MAX
            &&& seq_points(s.base.players[team.a].hand) <= u16::MAX
            &&& seq_points(s.base.players[team.b].hand) <= u16::MAX
            &&& i16::MIN <= team_rolled(s, team).overall <= i16::MAX
        }
}


/// Appending melded cards keeps every bucket on its own rank.
pub proof fn lemma_team_with_points_wf(team: PartnersView, cards: Seq<Card>)
    requires
        team.wf(),
    ensures
        team_with_points(team, cards).wf(),
{
    let after = team_with_points(team, cards);
    assert forall|i: int, j: int|
        0 <= i < crate::deck::RANK_COUNT && 0 <= j < after.points[i].len() implies crate::deck::rank_index(
        #[trigger] after.points[i][j].value,
    ) == i by {
        lemma_cards_at_ranks(cards, i);
        if j >= team.points[i].len() {
            assert(after.points[i][j] == cards_at(cards, i)[j - team.points[i].len()]);
        }
    }
}

/// Wherever some team seats a player, a first such team exists and is
/// what [`team_of`] names.
pub proof fn lemma_first_team_exists(partners: Seq<PartnersView>, p: int)
    requires
        crate::state::player_has_team(partners, p),
    ensures
        crate::state::is_first_team(partners, p, team_of(partners, p)),
    decreases partners.len(),
{
    if crate::state::on_team(partners[0], p) {
        assert(crate::state::is_first_team(partners, p, 0));
    } else {
        let rest = partners.drop_first();
        assert(crate::state::player_has_team(rest, p)) by {
            let w = choose|j: int|
                0 <= j < partners.len() && crate::state::on_team(#[trigger] partners[j], p);
            assert(rest[w - 1] == partners[w]);
            assert(crate::state::on_team(rest[w - 1], p));
        }
        lemma_first_team_exists(rest, p);
        let t = team_of(rest, p);
        assert(crate::state::is_first_team(partners, p, t + 1)) by {
            assert(partners[t + 1] == rest[t]);
            assert forall|j: int| 0 <= j < t + 1 implies !crate::state::on_team(
                #[trigger] partners[j],
                p,
            ) by {
                if j > 0 {
                    assert(partners[j] == rest[j - 1]);
                }
            }
        }
        crate::state::lemma_team_of_first(partners, p, t + 1);
    }
}

impl PlayerMove {
    /// Copies a slice of cards into a fresh vector.
    fn copy_cards(cards: &[Card]) -> (r: Vec<Card>)
        ensures
            r@ == cards@,
    {
        let mut out: Vec<Card> = Vec::new();
        let mut i: usize = 0;
        while i < cards.len()
            invariant
                i <= cards@.len(),
                out@ == cards@.take(i as int),
            decreases cards@.len() - i,
        {
            out.push(cards[i]);
            proof {
                lemma_take_succ(cards@, i as int);
                assert(out@ =~= cards@.take(i + 1));
            }
            i = i + 1;
        }
        assert(cards@.take(cards@.len() as int) =~= cards@);
        out
    }

    /// The summed fixed score of a slice of cards.
    fn slice_points(cards: &[Card]) -> (r: u16)
        requires
            seq_points(cards@) <= u16::MAX,
        ensures
            r as int == seq_points(cards@),
    {
        let mut total: u16 = 0;
        let mut j: usize = 0;
        assert(seq_points(cards@.take(0)) == 0) by {
            assert(cards@.take(0) =~= Seq::<Card>::empty());
        }
        while j < cards.len()
            invariant
                j <= cards@.len(),
                seq_points(cards@) <= u16::MAX,
                total as int == seq_points(cards@.take(j as int)),
            decreases cards@.len() - j,
        {
            proof {
                lemma_take_succ(cards@, j as int);
                lemma_seq_points_take_le(cards@, j + 1);
                lemma_seq_points_nonneg(cards@.take(j + 1));
            }
            total = total + cards[j].point_value();
            j = j + 1;
        }
        assert(cards@.take(cards@.len() as int) =~= cards@);
        total
    }
}

impl PlayerMove {
    /// Decides whether `hand` is a legal opening for a player whose team
    /// status reads `who_opened`; see [`can_open`] for the rule.
    pub fn hand_can_open(who_opened: WhoOpened, hand: &[Card]) -> (r: bool)
        ensures
            r == can_open(who_opened, hand@),
    {
        let counts = tally_hand(hand);
        let twos = counts[1];

        let mut triple_sets: usize = 0;
        let mut double_sets: usize = 0;
        let mut single_sets: usize = 0;
        let mut k: usize = 0;
        while k < 13
            invariant
                k <= 13,
                counts@.len() == crate::deck::RANK_COUNT,
                forall|slot: int|
                    0 <= slot < crate::deck::RANK_COUNT ==> counts@[slot] == tally(hand@, slot),
                triple_sets as int == triples_upto(hand@, k as int),
                double_sets as int == doubles_upto(hand@, k as int),
                single_sets as int == singles_upto(hand@, k as int),
                triple_sets <= k && double_sets <= k && single_sets <= k,
            decreases 13 - k,
        {
            if k != 1 {
                let c = counts[k];
                if c >= 3 {
                    triple_sets = triple_sets + 1;
                } else if c == 2 {
                    double_sets = double_sets + 1;
                } else if c == 1 {
                    single_sets = single_sets + 1;
                }
            }
            k = k + 1;
        }

        match who_opened {
            WhoOpened::Both | WhoOpened::Me => false,
            WhoOpened::Partner => {
                twos == double_sets + 2 * single_sets && single_sets + double_sets + triple_sets
                    == 1
            },
            WhoOpened::Nobody => {
                twos == double_sets + 2 * single_sets && single_sets + double_sets + triple_sets
                    == 3
            },
        }
    }

    /// Whether the acting player may add points at all: their team must
    /// have opened through them or through both members.
    pub fn can_add_points(turn: usize, game: &DDPState) -> (r: bool)
        requires
            game@.wf(),
            game@.base.turn == turn,
        ensures
            r == may_add_points(game@, team_of(game@.partners, turn as int), turn as int),
    {
        let t = game.get_partners_from_player(turn);
        match game.partners[t].who_opened(turn) {
            WhoOpened::Nobody | WhoOpened::Partner => false,
            WhoOpened::Me | WhoOpened::Both => true,
        }
    }

    /// Whether the top discard is even a card the acting player is
    /// allowed to pick up; see [`can_pickup_top`].
    pub fn player_can_pickup_top_discard(turn: usize, game: &DDPState) -> (r: bool)
        requires
            game@.wf(),
            game@.base.turn == turn,
        ensures
            r == can_pickup_top(game@, team_of(game@.partners, turn as int), turn as int),
    {
        let t = game.get_partners_from_player(turn);
        let top_card = match game.default_state.deck.peek_top_discarded_card() {
            Some(card) => *card,
            None => {
                return false;
            },
        };
        let who = game.partners[t].who_opened(turn);
        let rank_melded = game.partners[t].has_melded_rank(top_card.value);
        let value_ok = !matches!(top_card.value, CardValue::Joker) && !matches!(
            top_card.value,
            CardValue::Two,
        );
        value_ok && (!rank_melded || matches!(who, WhoOpened::Nobody | WhoOpened::Partner))
    }

    /// The summed fixed score of a pile of cards: the value of a meld, or
    /// the penalty of a hand still held at round end.
    pub fn calculate_point_total(hand: Vec<Card>) -> (r: u16)
        requires
            seq_points(hand@) <= u16::MAX,
        ensures
            r as int == seq_points(hand@),
    {
        Self::slice_points(hand.as_slice())
    }

    /// Whether any team's cumulative score has reached the game total.
    pub fn is_game_over(state: &DDPState) -> (r: bool)
        ensures
            r == game_over(state@),
    {
        let n = state.partners.len();
        let mut j: usize = 0;
        while j < n
            invariant
                j <= n,
                n == state@.partners.len(),
                forall|i: int| 0 <= i < j ==> (#[trigger] state@.partners[i]).overall
                    < GAME_POINT_TOTAL,
            decreases n - j,
        {
            if state.partners[j].overall_points >= GAME_POINT_TOTAL {
                assert(state@.partners[j as int].overall >= GAME_POINT_TOTAL);
                return true;
            }
            j = j + 1;
        }
        false
    }

    /// Whether any player's hand is empty.
    pub fn is_round_over(state: &DDPState) -> (r: bool)
        ensures
            r == round_over(state@),
    {
        let n = state.default_state.players.len();
        let mut p: usize = 0;
        while p < n
            invariant
                p <= n,
                n == state@.base.players.len(),
                forall|i: int| 0 <= i < p ==> (#[trigger] state@.base.players[i]).hand.len() > 0,
            decreases n - p,
        {
            if state.default_state.players[p].hand.is_empty() {
                assert(state@.base.players[p as int].hand.len() == 0);
                return true;
            }
            p = p + 1;
        }
        false
    }

    /// Passes the turn to the next player around the table.
    pub fn end_turn(state: &mut DDPState)
        requires
            old(state)@.base.players.len() > 0,
            old(state)@.base.turn < old(state)@.base.players.len(),
        ensures
            final(state)@.base.turn == (old(state)@.base.turn + 1) % old(
                state,
            )@.base.players.len() as int,
            final(state)@.base.players == old(state)@.base.players,
            final(state)@.base.deck == old(state)@.base.deck,
            final(state)@.partners == old(state)@.partners,
    {
        let n = state.default_state.players.len();
        state.default_state.turn = (state.default_state.turn + 1) % n;
    }
}


impl PlayerMove {
    /// Applies this move to the round state on behalf of the acting
    /// player, with no partial mutation on rejection: a refused move
    /// returns its error and leaves the state exactly as it was, and an
    /// accepted move leads to the state [`move_applied`] describes,
    /// settled by the round/game-over evaluation of [`settles`] — with
    /// the scoring rollup applied when the round just ended.
    pub fn handle_move(&self, game: &mut DDPState) -> (r: Result<GameStatus, DameDePiqueError>)
        requires
            old(game)@.wf(),
            match move_applied(old(game)@, *self) {
                Some(mid) => round_over(mid) && !game_over(mid) ==> rollup_fits(mid),
                None => true,
            },
        ensures
            match move_applied(old(game)@, *self) {
                Some(mid) => settles(mid, final(game)@, r),
                None => r == Err::<GameStatus, DameDePiqueError>(move_error(old(game)@, *self))
                    && final(game)@ == old(game)@,
            },
    {
        let ghost s0 = game@;
        let ghost m = *self;
        match self {
            PlayerMove::Draw => {
                let turn = game.default_state.turn;
                match game.default_state.deck.draw_card() {
                    Some(card) => {
                        let player = &mut game.default_state.players[turn];
                        player.add_card_to_hand(card);
                        proof {
                            assert(game@ =~~= draw_applied(s0));
                        }
                    },
                    None => {
                        proof {
                            assert(game@ =~~= s0);
                        }
                        return Err(DameDePiqueError::DeckEmpty);
                    },
                }
            },
            PlayerMove::Discard(c) => {
                let turn = game.default_state.turn;
                let idx = *c;
                if idx >= game.default_state.players[turn].hand.len() {
                    return Err(DameDePiqueError::IncorrectCardNumberRequest);
                }
                let player = &mut game.default_state.players[turn];
                let card = player.play_card_from_hand(idx);
                game.default_state.deck.discard_card(card);
                proof {
                    assert(game@ =~~= discard_applied(s0, idx as int));
                }
            },
            PlayerMove::Open(cards) => {
                let turn = game.default_state.turn;
                let t = game.get_partners_from_player(turn);
                let who = game.partners[t].who_opened(turn);
                if !PlayerMove::hand_can_open(who, cards.as_slice()) {
                    return Err(DameDePiqueError::InvalidOpeningHand(turn));
                }
                let owned = PlayerMove::copy_cards(cards.as_slice());
                let team = &mut game.partners[t];
                team.add_points(owned);
                team.update_status(turn);
                proof {
                    assert(game@.partners[t as int] =~~= team_opened(
                        team_with_points(s0.partners[t as int], cards@),
                        turn as int,
                    ));
                    assert(game@ =~~= open_applied(s0, cards@));
                }
            },
            PlayerMove::AddPoints(cards) => {
                let turn = game.default_state.turn;
                if !PlayerMove::can_add_points(turn, game) {
                    return Err(DameDePiqueError::PlayerCantAddPoints(turn));
                }
                let t = game.get_partners_from_player(turn);
                if !game.partners[t].are_valid_points(cards.as_slice()) {
                    return Err(DameDePiqueError::InvalidPoints);
                }
                let owned = PlayerMove::copy_cards(cards.as_slice());
                let team = &mut game.partners[t];
                team.add_points(owned);
                proof {
                    assert(game@.partners[t as int] =~~= team_with_points(
                        s0.partners[t as int],
                        cards@,
                    ));
                    assert(game@ =~~= add_points_applied(s0, cards@));
                }
            },
            PlayerMove::TakeDiscardPile(cards) => {
                let turn = game.default_state.turn;
                let t = game.get_partners_from_player(turn);
                let who = game.partners[t].who_opened(turn);
                let can_already = PlayerMove::hand_can_open(who, cards.as_slice());
                let can_pick = PlayerMove::player_can_pickup_top_discard(turn, game);
                if can_already || !can_pick {
                    return Err(DameDePiqueError::InvalidDiscardOpeningHand(turn));
                }
                let mut combined = PlayerMove::copy_cards(cards.as_slice());
                let top = match game.default_state.deck.peek_top_discarded_card() {
                    Some(card) => *card,
                    None => {
                        proof {
                            assert(false);
                        }
                        return Err(DameDePiqueError::InvalidDiscardOpeningHand(turn));
                    },
                };
                combined.push(top);
                let completes = match who {
                    WhoOpened::Nobody | WhoOpened::Partner => PlayerMove::hand_can_open(
                        who,
                        combined.as_slice(),
                    ),
                    _ => PlayerMove::hand_can_open(WhoOpened::Partner, combined.as_slice()),
                };
                if !completes {
                    return Err(DameDePiqueError::InvalidDiscardOpeningHand(turn));
                }
                proof {
                    assert(pickup_accepted(s0, t as int, turn as int, cards@));
                }
                let _ = game.default_state.deck.pop_top_discarded_card();
                let team = &mut game.partners[t];
                team.add_points(combined);
                team.update_status(turn);
                proof {
                    assert(game@.partners[t as int] =~~= team_opened(
                        team_with_points(s0.partners[t as int], cards@.push(top)),
                        turn as int,
                    ));
                }
                let pile = game.default_state.deck.take_discard_pile();
                let ghost hand0 = game@.base.players[turn as int].hand;
                let ghost name0 = game@.base.players[turn as int].name;
                let pile_len = pile.len();
                let player = &mut game.default_state.players[turn];
                let mut i: usize = 0;
                assert(player@.hand =~= hand0 + pile@.take(0));
                while i < pile_len
                    invariant
                        i <= pile_len,
                        pile_len == pile@.len(),
                        player@.hand == hand0 + pile@.take(i as int),
                        player@.name == name0,
                    decreases pile_len - i,
                {
                    player.add_card_to_hand(pile[i]);
                    proof {
                        lemma_take_succ(pile@, i as int);
                        assert(player@.hand =~= hand0 + pile@.take(i + 1));
                    }
                    i = i + 1;
                }
                proof {
                    assert(player@.hand =~= hand0 + pile@);
                    assert(game@ =~~= pickup_applied(s0, cards@));
                }
            },
        }

        let ghost mid = game@;
        proof {
            assert(move_applied(s0, m) == Some(mid));
            lemma_move_preserves_wf_at(s0, m, mid);
        }
        let over_game = PlayerMove::is_game_over(game);
        let over_round = PlayerMove::is_round_over(game);
        if over_game && over_round {
            Ok(GameStatus::GameOver)
        } else if over_round {
            let n = game.partners.len();
            let mut j: usize = 0;
            while j < n
                invariant
                    j <= n,
                    n == mid.partners.len(),
                    game@.base == mid.base,
                    game@.partners.len() == n,
                    mid.wf(),
                    rollup_fits(mid),
                    forall|i: int|
                        0 <= i < j ==> game@.partners[i] == team_rolled(mid, #[trigger] mid.partners[i]),
                    forall|i: int| j <= i < n ==> #[trigger] game@.partners[i] == mid.partners[i],
                decreases n - j,
            {
                proof {
                    assert(game@.partners[j as int] == mid.partners[j as int]);
                    assert(mid.partners[j as int].wf());
                }
                let a = game.partners[j].player_a_index;
                let b = game.partners[j].player_b_index;
                let team_total = game.partners[j].get_points_total();
                let pa = PlayerMove::slice_points(game.default_state.players[a].hand.as_slice());
                let pb = PlayerMove::slice_points(game.default_state.players[b].hand.as_slice());
                let base_points = game.partners[j].overall_points;
                let v: i32 = base_points as i32 + team_total as i32 - pa as i32 - pb as i32;
                proof {
                    assert(v as int == team_rolled(mid, mid.partners[j as int]).overall);
                }
                let ghost before = game@;
                let team = &mut game.partners[j];
                team.overall_points = v as i16;
                proof {
                    assert(game@.partners[j as int] =~~= team_rolled(mid, mid.partners[j as int]));
                    assert(forall|i: int|
                        0 <= i < n && i != j ==> #[trigger] game@.partners[i] == before.partners[i]);
                }
                j = j + 1;
            }
            proof {
                assert(game@ =~~= rollup(mid));
            }
            Ok(GameStatus::RoundOver)
        } else {
            Ok(GameStatus::Active)
        }
    }
}

/// Replacing a team with a well-formed team on the same two seats keeps
/// the round state well-formed.
pub proof fn lemma_with_team_wf(s: DDPView, t: int, team: PartnersView)
    requires
        s.wf(),
        0 <= t < s.partners.len(),
        team.wf(),
        team.a == s.partners[t].a,
        team.b == s.partners[t].b,
    ensures
        with_team(s, t, team).wf(),
{
    let mid = with_team(s, t, team);
    assert forall|p: int|
        0 <= p < mid.base.players.len() implies crate::state::player_has_team(
        mid.partners,
        p,
    ) by {
        assert(crate::state::player_has_team(s.partners, p));
        let w = choose|j: int|
            0 <= j < s.partners.len() && crate::state::on_team(#[trigger] s.partners[j], p);
        assert(crate::state::on_team(mid.partners[w], p));
    }
}

/// An accepted move keeps the round state well-formed.
pub proof fn lemma_move_preserves_wf_at(s: DDPView, m: PlayerMove, mid: DDPView)
    requires
        s.wf(),
        move_applied(s, m) == Some(mid),
    ensures
        mid.wf(),
{
    let turn = s.base.turn;
    lemma_first_team_exists(s.partners, turn);
    let t = team_of(s.partners, turn);
    match m {
        PlayerMove::Draw => {
            assert(mid.wf());
        },
        PlayerMove::Discard(i) => {
            assert(mid.wf());
        },
        PlayerMove::Open(cards) => {
            lemma_team_with_points_wf(s.partners[t], cards@);
            lemma_with_team_wf(s, t, team_opened(team_with_points(s.partners[t], cards@), turn));
        },
        PlayerMove::AddPoints(cards) => {
            lemma_team_with_points_wf(s.partners[t], cards@);
            lemma_with_team_wf(s, t, team_with_points(s.partners[t], cards@));
        },
        PlayerMove::TakeDiscardPile(cards) => {
            let combined = cards@.push(s.base.deck.discard.last());
            lemma_team_with_points_wf(s.partners[t], combined);
            lemma_with_team_wf(
                s,
                t,
                team_opened(team_with_points(s.partners[t], combined), turn),
            );
            assert(mid.wf());
        },
    }
}


/// The hands of the first `k` players laid end to end.
pub open spec fn hands_cat(players: Seq<PlayerView>, k: int) -> Seq<Card>
    decreases k,
{
    if k <= 0 {
        Seq::empty()
    } else {
        hands_cat(players, k - 1) + players[k - 1].hand
    }
}

/// Concatenated hands only read the players in front of `k`.
proof fn lemma_hands_cat_prefix(a: Seq<PlayerView>, b: Seq<PlayerView>, k: int)
    requires
        forall|p: int| 0 <= p < k ==> a[p] == b[p],
    ensures
        hands_cat(a, k) == hands_cat(b, k),
    decreases k,
{
    if k > 0 {
        lemma_hands_cat_prefix(a, b, k - 1);
    }
}

/// Dealing a packet off the top of the draw pile moves cards without
/// creating or losing any: already-dealt cards plus the packet plus the
/// remaining pile hold exactly what stood there before the deal.
proof fn lemma_deal_step(
    dealt: Seq<Card>,
    cards: Seq<Card>,
    new_draw: Seq<Card>,
    old_draw: Seq<Card>,
)
    requires
        cards.len() <= old_draw.len(),
        new_draw == old_draw.take(old_draw.len() - cards.len()),
        forall|i: int| 0 <= i < cards.len() ==> cards[i] == old_draw[old_draw.len() - 1 - i],
    ensures
        (dealt + cards + new_draw).to_multiset() == (dealt + old_draw).to_multiset(),
{
    broadcast use vstd::seq_lib::group_to_multiset_ensures;
    broadcast use vstd::multiset::group_multiset_axioms;

    let suffix = old_draw.skip(old_draw.len() - cards.len());
    assert(old_draw =~= new_draw + suffix);
    assert(cards =~= suffix.reverse());
    suffix.lemma_reverse_to_multiset();
    vstd::seq_lib::lemma_multiset_commutative(dealt + cards, new_draw);
    vstd::seq_lib::lemma_multiset_commutative(dealt, cards);
    vstd::seq_lib::lemma_multiset_commutative(dealt, old_draw);
    vstd::seq_lib::lemma_multiset_commutative(new_draw, suffix);
    assert((dealt + cards + new_draw).to_multiset() =~= (dealt + old_draw).to_multiset());
}

/// Sets up a fresh round: two shuffled decks with Jokers, four players
/// dealt thirteen cards each, one card flipped onto the discard pile,
/// the first player to act, and the two teams seating players 0 with 2
/// and 1 with 3.
pub struct DameDePiqueGameBuilder;

impl DameDePiqueGameBuilder {
    /// Builds the starting state of a round. The draw pile always holds
    /// enough cards for the deal, so this never fails.
    pub fn initialize_game() -> (r: Result<DDPState, DameDePiqueError>)
        ensures
            r matches Ok(state) ==> {
                &&& state@.wf()
                &&& state@.base.players.len() == 4
                &&& forall|p: int|
                    0 <= p < 4 ==> (#[trigger] state@.base.players[p]).hand.len() == 13
                &&& state@.base.turn == 0
                &&& state@.base.deck.draw.len() == 55
                &&& state@.base.deck.discard.len() == 1
                &&& state@.partners.len() == 2
                &&& state@.partners[0].a == 0 && state@.partners[0].b == 2
                &&& state@.partners[1].a == 1 && state@.partners[1].b == 3
                &&& forall|j: int|
                    0 <= j < 2 ==> (#[trigger] state@.partners[j]).overall == 0
                        && state@.partners[j].status is Neither && forall|slot: int|
                        0 <= slot < crate::deck::RANK_COUNT
                            ==> state@.partners[j].points[slot].len() == 0
                &&& (hands_cat(state@.base.players, 4) + state@.base.deck.draw
                    + state@.base.deck.discard).to_multiset() == (fresh_deck(DeckType::WithJokers)
                    + fresh_deck(DeckType::WithJokers)).to_multiset()
            },
            r is Ok,
    {
        let ghost pack = fresh_deck(DeckType::WithJokers) + fresh_deck(DeckType::WithJokers);
        let mut deck = Deck::new(DeckType::WithJokers);
        deck.extend(Deck::new(DeckType::WithJokers));
        assert(deck@.draw == pack);
        deck.shuffle();

        let ghost mut dealt: Seq<Card> = Seq::empty();
        proof {
            assert(dealt + deck@.draw =~= deck@.draw);
        }
        let mut players: Vec<Player> = Vec::new();
        let mut i: usize = 0;
        while i < 4
            invariant
                i <= 4,
                players@.len() == i,
                forall|p: int| 0 <= p < i ==> (#[trigger] players@[p])@.hand.len() == 13,
                deck@.draw.len() + 13 * i == 108,
                deck@.discard.len() == 0,
                dealt == hands_cat(Seq::new(players@.len(), |q: int| players@[q]@), i as int),
                (dealt + deck@.draw).to_multiset() == pack.to_multiset(),
            decreases 4 - i,
        {
            let name = match i {
                0 => "Player 0",
                1 => "Player 1",
                2 => "Player 2",
                _ => "Player 3",
            };
            let ghost pre_draw = deck@.draw;
            let hand = match deck.draw_cards(13) {
                Ok(hand) => hand,
                Err(e) => {
                    proof {
                        assert(false);
                    }
                    return Err(e);
                },
            };
            let ghost hand_view = hand@;
            let ghost old_view = Seq::new(players@.len(), |q: int| players@[q]@);
            players.push(Player::new(name, hand));
            proof {
                lemma_deal_step(dealt, hand_view, deck@.draw, pre_draw);
                let new_view = Seq::new(players@.len(), |q: int| players@[q]@);
                lemma_hands_cat_prefix(new_view, old_view, i as int);
                assert(new_view[i as int].hand == hand_view);
                dealt = dealt + hand_view;
                assert(dealt == hands_cat(new_view, i + 1));
            }
            i = i + 1;
        }
        let ghost final_view = Seq::new(players@.len(), |q: int| players@[q]@);
        let ghost pre_flip = deck@.draw;

        if let Some(top_card) = deck.draw_card() {
            deck.discard_card(top_card);
        }

        let partners: Vec<Partners> = vec![Partners::new(0, 2), Partners::new(1, 3)];

        let state = DDPState {
            default_state: GameState { players, deck, turn: 0 },
            partners,
        };
        proof {
            assert(state@.partners[0] == state.partners@[0]@);
            assert(state@.partners[1] == state.partners@[1]@);
            assert forall|p: int| 0 <= p < 4 implies crate::state::player_has_team(
                state@.partners,
                p,
            ) by {
                if p == 0 || p == 2 {
                    assert(crate::state::on_team(state@.partners[0], p));
                } else {
                    assert(crate::state::on_team(state@.partners[1], p));
                }
            }
            assert(state@.wf());
            assert(state@.base.players =~= final_view);
            lemma_hands_cat_prefix(state@.base.players, final_view, 4);
            assert(hands_cat(state@.base.players, 4) + state@.base.deck.draw
                + state@.base.deck.discard =~= dealt + pre_flip);
        }
        Ok(state)
    }
}


/// Law: an opening is only ever accepted when the wilds supplied equal
/// exactly one per pair plus two per single — a surplus, unused wild
/// always invalidates it, whatever the team status.
pub proof fn lemma_open_wilds_exact(who: WhoOpened, hand: Seq<Card>)
    ensures
        can_open(who, hand) ==> wild_count(hand) == doubles(hand) + 2 * singles(hand),
{
}

/// Law: a player whose team already opened through them, or through both
/// members, can never open again, whatever the hand.
pub proof fn lemma_cannot_open_twice(hand: Seq<Card>)
    ensures
        !can_open(WhoOpened::Me, hand),
        !can_open(WhoOpened::Both, hand),
{
}

/// Law: a hand holding exactly one completed triple and nothing else to
/// complete is a legal opening once the partner has opened, and an
/// illegal one while neither member has.
pub proof fn lemma_partner_reduced_threshold(hand: Seq<Card>)
    requires
        triples(hand) == 1,
        doubles(hand) == 0,
        singles(hand) == 0,
        wild_count(hand) == 0,
    ensures
        can_open(WhoOpened::Partner, hand),
        !can_open(WhoOpened::Nobody, hand),
{
}

/// Law: a discard-pile pickup is refused whenever the supplied cards
/// alone already satisfy the opening test — the top discard has to be
/// necessary, so the move can never serve as a free draw.
pub proof fn lemma_pickup_needs_top_card(s: DDPView, cards: Vec<Card>)
    ensures
        ({
            let t = team_of(s.partners, s.base.turn);
            let who = who_opened_for(
                s.partners[t].status,
                s.partners[t].a,
                s.partners[t].b,
                s.base.turn,
            );
            can_open(who, cards@)
        }) ==> move_applied(s, PlayerMove::TakeDiscardPile(cards)) is None,
{
}

/// Law: whenever the dispatcher settles a move as the end of a round,
/// each team's running score afterwards equals its score before plus the
/// melded value of its points deck minus both members' remaining-hand
/// penalties, with the hands exactly as the move left them; the melds,
/// seats and status survive untouched. This holds of the settlement
/// itself, with no side condition.
pub proof fn lemma_dispatcher_round_end_conservation(
    mid: DDPView,
    fin: DDPView,
    r: Result<GameStatus, DameDePiqueError>,
    j: int,
)
    requires
        settles(mid, fin, r),
        r == Ok::<GameStatus, DameDePiqueError>(GameStatus::RoundOver),
        0 <= j < mid.partners.len(),
    ensures
        fin == rollup(mid),
        fin.base == mid.base,
        fin.partners[j].overall == mid.partners[j].overall + mid.partners[j].points_total()
            - seq_points(mid.base.players[mid.partners[j].a].hand) - seq_points(
            mid.base.players[mid.partners[j].b].hand,
        ),
        fin.partners[j].points == mid.partners[j].points,
        fin.partners[j].status == mid.partners[j].status,
        fin.partners[j].a == mid.partners[j].a && fin.partners[j].b == mid.partners[j].b,
{
    lemma_round_end_conservation(mid, j);
}

/// Law: the round-end rollup moves each team's running score by exactly
/// the melded value of its points deck minus both members' remaining-hand
/// penalties, whatever the pre-rollup state; nothing else of the team
/// changes.
pub proof fn lemma_round_end_conservation(s: DDPView, j: int)
    requires
        0 <= j < s.partners.len(),
    ensures
        rollup(s).partners[j].overall == s.partners[j].overall + s.partners[j].points_total()
            - seq_points(s.base.players[s.partners[j].a].hand) - seq_points(
            s.base.players[s.partners[j].b].hand,
        ),
        rollup(s).partners[j].points == s.partners[j].points,
        rollup(s).partners[j].status == s.partners[j].status,
        rollup(s).base == s.base,
{
}

} // verus!
