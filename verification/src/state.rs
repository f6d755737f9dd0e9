use vstd::prelude::*;

use crate::deck::{Deck, DeckView};
use crate::partners::{Partners, PartnersView};
use crate::player::{Player, PlayerView};

verus! {

/// The abstract value of the engine-agnostic part of a round: the seated
/// players, the deck, and whose turn it is.
#[verifier::ext_equal]
pub struct GameStateView {
    pub players: Seq<PlayerView>,
    pub deck: DeckView,
    pub turn: int,
}

/// The ordered players, the deck, and the index of the acting player.
pub struct GameState {
    pub players: Vec<Player>,
    pub deck: Deck,
    pub turn: usize,
}

impl View for GameState {
    type V = GameStateView;

    open spec fn view(&self) -> GameStateView {
        GameStateView {
            players: Seq::new(self.players@.len(), |i: int| self.players@[i]@),
            deck: self.deck@,
            turn: self.turn as int,
        }
    }
}

/// The abstract value of a whole round: the base state plus the teams.
#[verifier::ext_equal]
pub struct DDPView {
    pub base: GameStateView,
    pub partners: Seq<PartnersView>,
}

/// The full state of one round: the base game state and the list of
/// two-player teams partitioning the players.
pub struct DDPState {
    pub default_state: GameState,
    pub partners: Vec<Partners>,
}

impl View for DDPState {
    type V = DDPView;

    open spec fn view(&self) -> DDPView {
        DDPView {
            base: self.default_state@,
            partners: Seq::new(self.partners@.len(), |i: int| self.partners@[i]@),
        }
    }
}

/// Whether player `p` sits on team `team`.
pub open spec fn on_team(team: PartnersView, p: int) -> bool {
    team.a == p || team.b == p
}

/// Whether some team of `partners` seats player `p`.
pub open spec fn player_has_team(partners: Seq<PartnersView>, p: int) -> bool {
    exists|j: int| 0 <= j < partners.len() && on_team(#[trigger] partners[j], p)
}

/// Whether `t` is the first team of `partners` that holds player `p`,
/// which is the team every lookup by player index finds.
pub open spec fn is_first_team(partners: Seq<PartnersView>, p: int, t: int) -> bool {
    &&& 0 <= t < partners.len()
    &&& on_team(partners[t], p)
    &&& forall|j: int| 0 <= j < t ==> !on_team(#[trigger] partners[j], p)
}

/// The index of the first team that holds player `p`.
pub open spec fn team_of(partners: Seq<PartnersView>, p: int) -> int {
    choose|t: int| is_first_team(partners, p, t)
}

/// At most one team index can be the first match.
pub proof fn lemma_first_team_unique(partners: Seq<PartnersView>, p: int, t1: int, t2: int)
    requires
        is_first_team(partners, p, t1),
        is_first_team(partners, p, t2),
    ensures
        t1 == t2,
{
}

/// The first match, where there is one, is what [`team_of`] names.
pub proof fn lemma_team_of_first(partners: Seq<PartnersView>, p: int, t: int)
    requires
        is_first_team(partners, p, t),
    ensures
        team_of(partners, p) == t,
{
    lemma_first_team_unique(partners, p, t, team_of(partners, p));
}

impl DDPView {
    /// A well-formed round: the turn indexes a player, every team is
    /// well-formed and seats real players, and every player sits on some
    /// team.
    pub open spec fn wf(self) -> bool {
        &&& 0 <= self.base.turn < self.base.players.len()
        &&& forall|j: int|
            0 <= j < self.partners.len() ==> (#[trigger] self.partners[j]).wf()
                && 0 <= self.partners[j].a < self.base.players.len() && 0 <= self.partners[j].b
                < self.base.players.len()
        &&& forall|p: int|
            0 <= p < self.base.players.len() ==> #[trigger] player_has_team(self.partners, p)
    }
}

impl DDPState {
    /// The index into `partners` of the acting player's team: the first
    /// team that seats the player.
    pub fn get_partners_from_player(&self, player: usize) -> (t: usize)
        requires
            player_has_team(self@.partners, player as int),
        ensures
            is_first_team(self@.partners, player as int, t as int),
            team_of(self@.partners, player as int) == t as int,
    {
        let ghost w: int = choose|j: int|
            0 <= j < self@.partners.len() && on_team(#[trigger] self@.partners[j], player as int);
        let n = self.partners.len();
        let mut t: usize = 0;
        while t < n
            invariant
                t <= n,
                n == self@.partners.len(),
                0 <= w < self@.partners.len(),
                on_team(self@.partners[w], player as int),
                forall|j: int| 0 <= j < t ==> !on_team(#[trigger] self@.partners[j], player as int),
            decreases n - t,
        {
            let team = &self.partners[t];
            if player == team.player_a_index || player == team.player_b_index {
                proof {
                    lemma_team_of_first(self@.partners, player as int, t as int);
                }
                return t;
            }
            t = t + 1;
        }
        // the chosen witness team rules this out
        proof {
            assert(false);
        }
        0
    }
}

} // verus!
