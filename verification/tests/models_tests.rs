use dame_de_pique::deck::{Card, CardSuit, CardValue};
use dame_de_pique::models::{cards_at_indices, remove_cards_at};

fn card(value: CardValue, suit: CardSuit) -> Card {
    Card { value, suit }
}

#[test]
fn cards_at_indices_selects_in_hand_order() {
    let hand = vec![
        card(CardValue::Ace, CardSuit::Clubs),
        card(CardValue::Five, CardSuit::Hearts),
        card(CardValue::Nine, CardSuit::Spades),
        card(CardValue::King, CardSuit::Diamonds),
    ];
    let picked = cards_at_indices(&hand, &[3, 0]);
    assert_eq!(picked, vec![hand[0], hand[3]]);

    // Out-of-range and repeated indices select nothing extra.
    let picked = cards_at_indices(&hand, &[1, 1, 9]);
    assert_eq!(picked, vec![hand[1]]);

    let picked = cards_at_indices(&hand, &[]);
    assert!(picked.is_empty());
}

#[test]
fn remove_cards_at_keeps_the_rest_in_order() {
    let mut hand = vec![
        card(CardValue::Ace, CardSuit::Clubs),
        card(CardValue::Five, CardSuit::Hearts),
        card(CardValue::Nine, CardSuit::Spades),
        card(CardValue::King, CardSuit::Diamonds),
    ];
    let kept_expected = vec![hand[1], hand[3]];
    let removed = remove_cards_at(&mut hand, &[0, 2]);
    assert_eq!(removed.len(), 2);
    assert_eq!(removed[0], card(CardValue::Ace, CardSuit::Clubs));
    assert_eq!(removed[1], card(CardValue::Nine, CardSuit::Spades));
    assert_eq!(hand, kept_expected);
}
