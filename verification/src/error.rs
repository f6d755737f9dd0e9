use vstd::prelude::*;

verus! {

/// Every way a move or a deck request can be rejected. The round state is
/// left unchanged whenever one of these is returned, so the caller may
/// retry with a corrected move.
#[derive(Clone, Copy, Debug, PartialEq, Eq, Structural)]
pub enum DameDePiqueError {
    /// More cards were requested from the draw pile than it holds.
    IncorrectCardNumberRequest,
    /// A draw was attempted with an empty draw pile.
    DeckEmpty,
    /// The candidate meld fails the opening rules; carries the player index.
    InvalidOpeningHand(usize),
    /// The compound discard-pile pickup fails one of its steps; carries the
    /// player index.
    InvalidDiscardOpeningHand(usize),
    /// The player's team has not opened through them; carries the player
    /// index.
    PlayerCantAddPoints(usize),
    /// The candidate add-points set fails the lenient points validator.
    InvalidPoints,
}

} // verus!
