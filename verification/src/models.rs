use vstd::prelude::*;

use std::collections::HashSet;

use crate::deck::Card;
use crate::state::DDPState;

verus! {

/// A request to discard the card at a hand index in a named game.
pub struct GameDiscardRequest {
    pub game_id: String,
    pub card_index: usize,
}

/// A request to claim the discard pile with the cards at the given hand
/// indices.
pub struct PlayerPickupDiscardRequest {
    pub game_id: String,
    pub card_indices: Vec<usize>,
}

/// A request to open with the cards at the given hand indices.
pub struct PlayerOpenRequest {
    pub game_id: String,
    pub card_indices: Vec<usize>,
}

/// A request to add the cards at the given hand indices to the team's
/// melds.
pub struct PlayerAddPointsRequest {
    pub game_id: String,
    pub card_indices: Vec<usize>,
}

/// A request to register a player under a name.
pub struct RegisterPlayerRequest {
    pub username: String,
}

/// A request to create a game session under a name.
pub struct RegisterGameRequest {
    pub game_identifier: String,
    pub player_username: String,
}

/// A lobby entry: a game session and the names of the players in it.
pub struct GameResponse {
    pub game_id: String,
    pub players: HashSet<String>,
}

/// One registered player as the lobby reports it.
pub struct PlayerResponse {
    pub username: String,
    pub game_session_id: Option<String>,
    pub websocket_url: String,
}

/// The whole lobby listing.
pub struct GameSessionListResponse {
    pub games: Vec<GameResponse>,
}

/// A request to start a named game session.
pub struct StartGameRequest {
    pub game_id: String,
}

/// The (empty) acknowledgement of a started game.
pub struct StartGameResponse;

/// One running game session: its lobby entry, the engine state, and
/// whether the round has been dealt.
pub struct GameSession {
    pub inner: GameResponse,
    pub state: DDPState,
    pub is_active: bool,
}

/// Rejection marker: the session already seats all its players.
pub struct TooManyPlayers;

/// Rejection marker: the player name is already taken.
pub struct PlayerExists;

/// The cards at the hand positions up to `k` whose position occurs in
/// `indices`, in hand order. A position occurring twice in `indices`
/// still selects its card once.
pub open spec fn selected_upto(hand: Seq<Card>, indices: Seq<usize>, k: int) -> Seq<Card>
    decreases k,
{
    if k <= 0 {
        Seq::empty()
    } else {
        selected_upto(hand, indices, k - 1) + if indices.contains((k - 1) as usize) {
            seq![hand[k - 1]]
        } else {
            Seq::empty()
        }
    }
}

/// Whether `indices` holds the value `i`.
fn contains_index(indices: &[usize], i: usize) -> (r: bool)
    ensures
        r == indices@.contains(i),
{
    let mut j: usize = 0;
    while j < indices.len()
        invariant
            j <= indices@.len(),
            forall|k: int| 0 <= k < j ==> indices@[k] != i,
        decreases indices@.len() - j,
    {
        if indices[j] == i {
            return true;
        }
        j = j + 1;
    }
    false
}

/// The cards of `hand` standing at the positions named in `indices`, in
/// hand order: how a request carrying hand indices names the cards it
/// offers.
pub fn cards_at_indices(hand: &[Card], indices: &[usize]) -> (r: Vec<Card>)
    ensures
        r@ == selected_upto(hand@, indices@, hand@.len() as int),
{
    let mut out: Vec<Card> = Vec::new();
    let mut i: usize = 0;
    while i < hand.len()
        invariant
            i <= hand@.len(),
            out@ == selected_upto(hand@, indices@, i as int),
        decreases hand@.len() - i,
    {
        if contains_index(indices, i) {
            out.push(hand[i]);
            proof {
                assert(out@ =~= selected_upto(hand@, indices@, i + 1));
            }
        }
        i = i + 1;
    }
    out
}

/// The hand positions up to `k` whose position does not occur in
/// `indices`: what a hand keeps after the cards at `indices` leave it.
pub open spec fn kept_upto(hand: Seq<Card>, indices: Seq<usize>, k: int) -> Seq<Card>
    decreases k,
{
    if k <= 0 {
        Seq::empty()
    } else {
        kept_upto(hand, indices, k - 1) + if indices.contains((k - 1) as usize) {
            Seq::empty()
        } else {
            seq![hand[k - 1]]
        }
    }
}

/// Removes from `hand` the cards standing at the positions named in
/// `indices`, keeping the rest in order: what the session layer does to
/// the acting hand once an offered meld is accepted.
pub fn remove_cards_at(hand: &mut Vec<Card>, indices: &[usize]) -> (removed: Vec<Card>)
    ensures
        final(hand)@ == kept_upto(old(hand)@, indices@, old(hand)@.len() as int),
        removed@ == selected_upto(old(hand)@, indices@, old(hand)@.len() as int),
{
    let ghost orig = hand@;
    let mut kept: Vec<Card> = Vec::new();
    let mut removed: Vec<Card> = Vec::new();
    let n = hand.len();
    let mut i: usize = 0;
    while i < n
        invariant
            i <= n,
            n == orig.len(),
            hand@ == orig,
            kept@ == kept_upto(orig, indices@, i as int),
            removed@ == selected_upto(orig, indices@, i as int),
        decreases n - i,
    {
        if contains_index(indices, i) {
            removed.push(hand[i]);
            proof {
                assert(removed@ =~= selected_upto(orig, indices@, i + 1));
            }
        } else {
            kept.push(hand[i]);
            proof {
                assert(kept@ =~= kept_upto(orig, indices@, i + 1));
            }
        }
        i = i + 1;
    }
    core::mem::swap(hand, &mut kept);
    removed
}

} // verus!
