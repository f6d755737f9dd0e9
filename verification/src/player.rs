use vstd::prelude::*;

use crate::deck::Card;

verus! {

/// The abstract value of a player: a display name and the multiset of
/// cards held, in hand order.
#[verifier::ext_equal]
pub struct PlayerView {
    pub name: Seq<char>,
    pub hand: Seq<Card>,
}

/// A seated player: a display name and the cards currently held.
pub struct Player {
    pub name: String,
    pub hand: Vec<Card>,
}

impl View for Player {
    type V = PlayerView;

    open spec fn view(&self) -> PlayerView {
        PlayerView { name: self.name@, hand: self.hand@ }
    }
}

impl Player {
    /// A player with the given name holding the given cards.
    pub fn new(name: &str, hand: Vec<Card>) -> (p: Player)
        ensures
            p@.name == name@,
            p@.hand == hand@,
    {
        Player { name: name.to_owned(), hand }
    }

    /// Puts a card at the end of the hand.
    pub fn add_card_to_hand(&mut self, card: Card)
        ensures
            final(self)@.hand == old(self)@.hand.push(card),
            final(self)@.name == old(self)@.name,
    {
        self.hand.push(card);
    }

    /// Removes and returns the card at `card_index`, closing the gap.
    pub fn play_card_from_hand(&mut self, card_index: usize) -> (card: Card)
        requires
            card_index < old(self)@.hand.len(),
        ensures
            card == old(self)@.hand[card_index as int],
            final(self)@.hand == old(self)@.hand.remove(card_index as int),
            final(self)@.name == old(self)@.name,
    {
        self.hand.remove(card_index)
    }
}

} // verus!
