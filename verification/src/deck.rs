use vstd::prelude::*;

use crate::error::DameDePiqueError;

verus! {

/// The four French suits. A Joker's suit carries no meaning for the rules.
#[derive(Clone, Copy, Debug, PartialEq, Eq, PartialOrd, Ord, Structural)]
pub enum CardSuit {
    Hearts,
    Diamonds,
    Spades,
    Clubs,
}

/// The fourteen ranks of the game: Ace through King plus the Joker.
/// Twos are wild; Jokers never count toward a meld.
#[derive(Clone, Copy, Debug, PartialEq, Eq, PartialOrd, Ord, Structural)]
pub enum CardValue {
    Ace,
    Two,
    Three,
    Four,
    Five,
    Six,
    Seven,
    Eight,
    Nine,
    Ten,
    Jack,
    Queen,
    King,
    Joker,
}

/// An immutable, freely copyable playing card.
#[derive(Clone, Copy, Debug, PartialEq, Eq, PartialOrd, Ord, Structural)]
pub struct Card {
    pub value: CardValue,
    pub suit: CardSuit,
}

/// Whether a fresh deck carries the two Jokers.
#[derive(Clone, Copy, Debug, PartialEq, Eq, Structural)]
pub enum DeckType {
    Normal,
    WithJokers,
}

/// A dense index for the fourteen ranks, used to key per-rank tallies
/// and the team points deck: Ace is 0, Two is 1, ... King is 12, Joker 13.
pub open spec fn rank_index(v: CardValue) -> int {
    match v {
        CardValue::Ace => 0,
        CardValue::Two => 1,
        CardValue::Three => 2,
        CardValue::Four => 3,
        CardValue::Five => 4,
        CardValue::Six => 5,
        CardValue::Seven => 6,
        CardValue::Eight => 7,
        CardValue::Nine => 8,
        CardValue::Ten => 9,
        CardValue::Jack => 10,
        CardValue::Queen => 11,
        CardValue::King => 12,
        CardValue::Joker => 13,
    }
}

/// The number of distinct ranks, and so the number of rank slots.
pub const RANK_COUNT: usize = 14;

/// The slot of the wild rank (Two).
pub open spec fn wild_index() -> int {
    1
}

/// The rank slots that can form a meld: every rank except the wild Two
/// and the Joker.
pub open spec fn is_meld_slot(i: int) -> bool {
    0 <= i < 13 && i != wild_index()
}

/// The fixed per-card score: Ace 15, Two 20, Three through Nine 5,
/// Ten, Jack and King 10, Queen 10 except the Queen of Spades 100,
/// Joker 50.
pub open spec fn card_points(card: Card) -> int {
    match card.value {
        CardValue::Ace => 15,
        CardValue::Two => 20,
        CardValue::Three
        | CardValue::Four
        | CardValue::Five
        | CardValue::Six
        | CardValue::Seven
        | CardValue::Eight
        | CardValue::Nine => 5,
        CardValue::Ten | CardValue::Jack | CardValue::King => 10,
        CardValue::Queen => if card.suit == CardSuit::Spades {
            100
        } else {
            10
        },
        CardValue::Joker => 50,
    }
}

impl Card {
    /// The rank slot of this card's value.
    pub fn slot(&self) -> (i: usize)
        ensures
            i as int == rank_index(self.value),
    {
        match self.value {
            CardValue::Ace => 0,
            CardValue::Two => 1,
            CardValue::Three => 2,
            CardValue::Four => 3,
            CardValue::Five => 4,
            CardValue::Six => 5,
            CardValue::Seven => 6,
            CardValue::Eight => 7,
            CardValue::Nine => 8,
            CardValue::Ten => 9,
            CardValue::Jack => 10,
            CardValue::Queen => 11,
            CardValue::King => 12,
            CardValue::Joker => 13,
        }
    }

    /// The fixed score of this card.
    pub fn point_value(&self) -> (r: u16)
        ensures
            r as int == card_points(*self),
    {
        match self.value {
            CardValue::Ace => 15,
            CardValue::Two => 20,
            CardValue::Three
            | CardValue::Four
            | CardValue::Five
            | CardValue::Six
            | CardValue::Seven
            | CardValue::Eight
            | CardValue::Nine => 5,
            CardValue::Ten | CardValue::Jack | CardValue::King => 10,
            CardValue::Queen => match self.suit {
                CardSuit::Spades => 100,
                _ => 10,
            },
            CardValue::Joker => 50,
        }
    }
}

/// The abstract value of a deck: the face-down draw pile and the face-up
/// discard pile, both ordered bottom to top.
#[verifier::ext_equal]
pub struct DeckView {
    pub draw: Seq<Card>,
    pub discard: Seq<Card>,
}

/// A draw pile and a discard pile. Cards are drawn from and discarded to
/// the top, which is the end of each sequence.
pub struct Deck {
    deck: Vec<Card>,
    discard_pile: Vec<Card>,
}

/// The suit block of position `k` in a fresh deck: thirteen Hearts, then
/// Diamonds, Spades, Clubs.
pub open spec fn fresh_suit(k: int) -> CardSuit {
    if k == 0 {
        CardSuit::Hearts
    } else if k == 1 {
        CardSuit::Diamonds
    } else if k == 2 {
        CardSuit::Spades
    } else {
        CardSuit::Clubs
    }
}

/// The rank at offset `k` within one suit block of a fresh deck,
/// Ace first and King last.
pub open spec fn fresh_value(k: int) -> CardValue {
    if k == 0 {
        CardValue::Ace
    } else if k == 1 {
        CardValue::Two
    } else if k == 2 {
        CardValue::Three
    } else if k == 3 {
        CardValue::Four
    } else if k == 4 {
        CardValue::Five
    } else if k == 5 {
        CardValue::Six
    } else if k == 6 {
        CardValue::Seven
    } else if k == 7 {
        CardValue::Eight
    } else if k == 8 {
        CardValue::Nine
    } else if k == 9 {
        CardValue::Ten
    } else if k == 10 {
        CardValue::Jack
    } else if k == 11 {
        CardValue::Queen
    } else {
        CardValue::King
    }
}

/// The card at position `k` of a fresh, unshuffled deck.
pub open spec fn fresh_card(k: int) -> Card {
    Card { value: fresh_value(k % 13), suit: fresh_suit(k / 13) }
}

/// How many cards a fresh deck of the given type holds.
pub open spec fn fresh_deck_len(deck_type: DeckType) -> int {
    match deck_type {
        DeckType::Normal => 52,
        DeckType::WithJokers => 54,
    }
}

/// The red Joker, dealt second to last in a fresh deck with Jokers.
pub open spec fn red_joker() -> Card {
    Card { value: CardValue::Joker, suit: CardSuit::Hearts }
}

/// The black Joker, dealt last in a fresh deck with Jokers.
pub open spec fn black_joker() -> Card {
    Card { value: CardValue::Joker, suit: CardSuit::Spades }
}

/// Every card of a fresh, unshuffled deck in order: the 52 suit-and-rank
/// combinations, then the two Jokers when they are asked for.
pub open spec fn fresh_deck(deck_type: DeckType) -> Seq<Card> {
    Seq::new(
        fresh_deck_len(deck_type) as nat,
        |k: int|
            if k < 52 {
                fresh_card(k)
            } else if k == 52 {
                red_joker()
            } else {
                black_joker()
            },
    )
}

/// Relies on rand::random: draws a fresh value from the thread-local
/// generator. Nothing can be promised of the value, so no clause is
/// stated; callers must hold for every outcome.
pub assume_specification<T>[ rand::random::<T> ]() -> (r: T)
    where
        rand::distributions::Standard: rand::distributions::Distribution<T>,
;

impl View for Deck {
    type V = DeckView;

    closed spec fn view(&self) -> DeckView {
        DeckView { draw: self.deck@, discard: self.discard_pile@ }
    }
}

impl Deck {
    fn value_of_offset(k: usize) -> (v: CardValue)
        requires
            k < 13,
        ensures
            v == fresh_value(k as int),
    {
        match k {
            0 => CardValue::Ace,
            1 => CardValue::Two,
            2 => CardValue::Three,
            3 => CardValue::Four,
            4 => CardValue::Five,
            5 => CardValue::Six,
            6 => CardValue::Seven,
            7 => CardValue::Eight,
            8 => CardValue::Nine,
            9 => CardValue::Ten,
            10 => CardValue::Jack,
            11 => CardValue::Queen,
            _ => CardValue::King,
        }
    }

    fn suit_of_block(k: usize) -> (s: CardSuit)
        requires
            k < 4,
        ensures
            s == fresh_suit(k as int),
    {
        match k {
            0 => CardSuit::Hearts,
            1 => CardSuit::Diamonds,
            2 => CardSuit::Spades,
            _ => CardSuit::Clubs,
        }
    }

    /// A fresh, unshuffled deck: all 52 suit-and-rank combinations in a
    /// fixed order, followed by the two Jokers when they are asked for,
    /// and an empty discard pile.
    pub fn new(deck_type: DeckType) -> (d: Deck)
        ensures
            d@.draw == fresh_deck(deck_type),
            d@.discard =~= Seq::<Card>::empty(),
    {
        let mut deck: Vec<Card> = Vec::new();
        let mut k: usize = 0;
        while k < 52
            invariant
                k <= 52,
                deck@.len() == k,
                forall|j: int| 0 <= j < k ==> deck@[j] == fresh_card(j),
            decreases 52 - k,
        {
            let value = Self::value_of_offset(k % 13);
            let suit = Self::suit_of_block(k / 13);
            deck.push(Card { value, suit });
            k = k + 1;
        }

        if let DeckType::WithJokers = deck_type {
            deck.push(Card { value: CardValue::Joker, suit: CardSuit::Hearts });
            deck.push(Card { value: CardValue::Joker, suit: CardSuit::Spades });
        }
        assert(deck@ =~= fresh_deck(deck_type));

        Deck { deck, discard_pile: Vec::new() }
    }

    /// Randomly reorders the draw pile in place with a fixed number of
    /// random swaps. The pile keeps exactly the same cards; only their
    /// order changes.
    pub fn shuffle(&mut self)
        requires
            old(self)@.draw.len() > 0,
        ensures
            final(self)@.draw.to_multiset() == old(self)@.draw.to_multiset(),
            final(self)@.draw.len() == old(self)@.draw.len(),
            final(self)@.discard == old(self)@.discard,
    {
        let ghost orig = self@;
        let mut count: usize = 0;
        while count < 1000
            invariant
                self@.draw.to_multiset() == orig.draw.to_multiset(),
                self@.draw.len() == orig.draw.len(),
                self@.draw.len() > 0,
                self@.discard == orig.discard,
            decreases 1000 - count,
        {
            let len = self.deck.len();
            let index_a = rand::random::<usize>() % len;
            let index_b = rand::random::<usize>() % len;
            let ghost before = self.deck@;
            let card_a = self.deck[index_a];
            let card_b = self.deck[index_b];
            self.deck[index_a] = card_b;
            self.deck[index_b] = card_a;
            proof {
                broadcast use vstd::seq_lib::group_to_multiset_ensures;
                broadcast use vstd::multiset::group_multiset_axioms;

                let mid = before.update(index_a as int, card_b);
                let after = mid.update(index_b as int, card_a);
                assert(before.contains(card_a));
                assert(mid.contains(mid[index_b as int]));
                if index_a == index_b {
                    assert(after =~= before);
                } else {
                    assert(mid[index_b as int] == card_b);
                    assert(after.to_multiset() =~= before.to_multiset());
                }
            }
            count = count + 1;
        }
    }

    /// Merges another deck's draw pile under this one's; the other deck's
    /// discard pile is not carried over.
    pub fn extend(&mut self, new_deck: Deck)
        ensures
            final(self)@.draw == old(self)@.draw + new_deck@.draw,
            final(self)@.discard == old(self)@.discard,
    {
        let mut incoming = new_deck.deck;
        self.deck.append(&mut incoming);
    }

    /// Draws the top `amount` cards, top first. Rejects the whole request
    /// when the draw pile holds fewer than `amount` cards, leaving the
    /// deck untouched.
    pub fn draw_cards(&mut self, amount: usize) -> (r: Result<Vec<Card>, DameDePiqueError>)
        ensures
            amount > old(self)@.draw.len() ==> r == Err::<Vec<Card>, DameDePiqueError>(
                DameDePiqueError::IncorrectCardNumberRequest,
            ) && final(self)@ == old(self)@,
            amount <= old(self)@.draw.len() ==> {
                &&& r matches Ok(cards)
                &&& cards@.len() == amount
                &&& forall|i: int|
                    0 <= i < amount ==> cards@[i] == old(self)@.draw[old(self)@.draw.len() - 1 - i]
                &&& final(self)@.draw == old(self)@.draw.take(old(self)@.draw.len() - amount)
                &&& final(self)@.discard == old(self)@.discard
            },
    {
        if amount > self.deck.len() {
            return Err(DameDePiqueError::IncorrectCardNumberRequest);
        }
        let ghost orig = self@.draw;
        let mut cards: Vec<Card> = Vec::new();
        let mut i: usize = 0;
        while i < amount
            invariant
                i <= amount,
                amount <= orig.len(),
                self@.draw == orig.take(orig.len() - i),
                self@.discard == old(self)@.discard,
                cards@.len() == i,
                forall|j: int| 0 <= j < i ==> cards@[j] == orig[orig.len() - 1 - j],
            decreases amount - i,
        {
            assert(self@.draw.len() == orig.len() - i);
            if let Some(card) = self.draw_card() {
                assert(card == orig.take(orig.len() - i)[orig.len() - i - 1]);
                cards.push(card);
            }
            assert(self@.draw =~= orig.take(orig.len() - (i + 1)));
            i = i + 1;
        }
        assert(self@.draw =~= orig.take(orig.len() - amount));
        Ok(cards)
    }

    /// Draws the top card of the draw pile, or nothing when it is empty.
    pub fn draw_card(&mut self) -> (r: Option<Card>)
        ensures
            old(self)@.draw.len() > 0 ==> {
                &&& r == Some(old(self)@.draw.last())
                &&& final(self)@.draw == old(self)@.draw.drop_last()
            },
            old(self)@.draw.len() == 0 ==> r is None && final(self)@.draw == old(self)@.draw,
            final(self)@.discard == old(self)@.discard,
    {
        self.deck.pop()
    }

    /// Places a card on top of the discard pile.
    pub fn discard_card(&mut self, card: Card)
        ensures
            final(self)@.discard == old(self)@.discard.push(card),
            final(self)@.draw == old(self)@.draw,
    {
        self.discard_pile.push(card);
    }

    /// The top card of the discard pile, without removing it.
    pub fn peek_top_discarded_card(&self) -> (r: Option<&Card>)
        ensures
            self@.discard.len() > 0 ==> (r matches Some(card) && *card == self@.discard.last()),
            self@.discard.len() == 0 ==> r is None,
    {
        if self.discard_pile.len() == 0 {
            None
        } else {
            Some(&self.discard_pile[self.discard_pile.len() - 1])
        }
    }

    /// Removes and returns the top card of the discard pile, or nothing
    /// when the pile is empty.
    pub fn pop_top_discarded_card(&mut self) -> (r: Option<Card>)
        ensures
            old(self)@.discard.len() > 0 ==> {
                &&& r == Some(old(self)@.discard.last())
                &&& final(self)@.discard == old(self)@.discard.drop_last()
            },
            old(self)@.discard.len() == 0 ==> r is None && final(self)@.discard == old(self)@.discard,
            final(self)@.draw == old(self)@.draw,
    {
        self.discard_pile.pop()
    }

    /// Removes and returns the whole discard pile, bottom card first,
    /// leaving it empty.
    pub fn take_discard_pile(&mut self) -> (r: Vec<Card>)
        ensures
            r@ == old(self)@.discard,
            final(self)@.discard =~= Seq::<Card>::empty(),
            final(self)@.draw == old(self)@.draw,
    {
        let mut pile: Vec<Card> = Vec::new();
        core::mem::swap(&mut self.discard_pile, &mut pile);
        pile
    }
}


/// The short wire code of a rank: "A", "2" .. "10", "J", "Q", "K",
/// "Joker".
pub open spec fn value_code(v: CardValue) -> Seq<char> {
    match v {
        CardValue::Ace => seq!['A'],
        CardValue::Two => seq!['2'],
        CardValue::Three => seq!['3'],
        CardValue::Four => seq!['4'],
        CardValue::Five => seq!['5'],
        CardValue::Six => seq!['6'],
        CardValue::Seven => seq!['7'],
        CardValue::Eight => seq!['8'],
        CardValue::Nine => seq!['9'],
        CardValue::Ten => seq!['1', '0'],
        CardValue::Jack => seq!['J'],
        CardValue::Queen => seq!['Q'],
        CardValue::King => seq!['K'],
        CardValue::Joker => seq!['J', 'o', 'k', 'e', 'r'],
    }
}

/// The printed name of a suit.
pub open spec fn suit_name(s: CardSuit) -> Seq<char> {
    match s {
        CardSuit::Hearts => seq!['H', 'e', 'a', 'r', 't', 's'],
        CardSuit::Diamonds => seq!['D', 'i', 'a', 'm', 'o', 'n', 'd', 's'],
        CardSuit::Spades => seq!['S', 'p', 'a', 'd', 'e', 's'],
        CardSuit::Clubs => seq!['C', 'l', 'u', 'b', 's'],
    }
}

impl CardValue {
    /// The short wire code of this rank; see [`value_code`].
    pub fn code(&self) -> (r: &'static str)
        ensures
            r@ == value_code(*self),
    {
        match self {
            CardValue::Ace => {
                proof { reveal_strlit("A"); }
                assert("A"@ =~= value_code(CardValue::Ace));
                "A"
            },
            CardValue::Two => {
                proof { reveal_strlit("2"); }
                assert("2"@ =~= value_code(CardValue::Two));
                "2"
            },
            CardValue::Three => {
                proof { reveal_strlit("3"); }
                assert("3"@ =~= value_code(CardValue::Three));
                "3"
            },
            CardValue::Four => {
                proof { reveal_strlit("4"); }
                assert("4"@ =~= value_code(CardValue::Four));
                "4"
            },
            CardValue::Five => {
                proof { reveal_strlit("5"); }
                assert("5"@ =~= value_code(CardValue::Five));
                "5"
            },
            CardValue::Six => {
                proof { reveal_strlit("6"); }
                assert("6"@ =~= value_code(CardValue::Six));
                "6"
            },
            CardValue::Seven => {
                proof { reveal_strlit("7"); }
                assert("7"@ =~= value_code(CardValue::Seven));
                "7"
            },
            CardValue::Eight => {
                proof { reveal_strlit("8"); }
                assert("8"@ =~= value_code(CardValue::Eight));
                "8"
            },
            CardValue::Nine => {
                proof { reveal_strlit("9"); }
                assert("9"@ =~= value_code(CardValue::Nine));
                "9"
            },
            CardValue::Ten => {
                proof { reveal_strlit("10"); }
                assert("10"@ =~= value_code(CardValue::Ten));
                "10"
            },
            CardValue::Jack => {
                proof { reveal_strlit("J"); }
                assert("J"@ =~= value_code(CardValue::Jack));
                "J"
            },
            CardValue::Queen => {
                proof { reveal_strlit("Q"); }
                assert("Q"@ =~= value_code(CardValue::Queen));
                "Q"
            },
            CardValue::King => {
                proof { reveal_strlit("K"); }
                assert("K"@ =~= value_code(CardValue::King));
                "K"
            },
            CardValue::Joker => {
                proof { reveal_strlit("Joker"); }
                assert("Joker"@ =~= value_code(CardValue::Joker));
                "Joker"
            },
        }
    }
}

impl CardSuit {
    /// The printed name of this suit; see [`suit_name`].
    pub fn name(&self) -> (r: &'static str)
        ensures
            r@ == suit_name(*self),
    {
        match self {
            CardSuit::Hearts => {
                proof { reveal_strlit("Hearts"); }
                assert("Hearts"@ =~= suit_name(CardSuit::Hearts));
                "Hearts"
            },
            CardSuit::Diamonds => {
                proof { reveal_strlit("Diamonds"); }
                assert("Diamonds"@ =~= suit_name(CardSuit::Diamonds));
                "Diamonds"
            },
            CardSuit::Spades => {
                proof { reveal_strlit("Spades"); }
                assert("Spades"@ =~= suit_name(CardSuit::Spades));
                "Spades"
            },
            CardSuit::Clubs => {
                proof { reveal_strlit("Clubs"); }
                assert("Clubs"@ =~= suit_name(CardSuit::Clubs));
                "Clubs"
            },
        }
    }
}

} // verus!
