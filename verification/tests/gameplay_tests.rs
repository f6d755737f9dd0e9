use dame_de_pique::deck::{Card, CardSuit, CardValue, Deck, DeckType};
use dame_de_pique::error::DameDePiqueError;
use dame_de_pique::gameplay::{DameDePiqueGameBuilder, GameStatus, PlayerMove};
use dame_de_pique::partners::{Partners, WhoOpened};
use dame_de_pique::player::Player;
use dame_de_pique::state::{DDPState, GameState};

fn card(value: CardValue, suit: CardSuit) -> Card {
    Card { value, suit }
}

#[test]
fn hand_open_before_parner() {
    let mut hand = vec![card(CardValue::Ace, CardSuit::Clubs); 3];

    assert!(!PlayerMove::hand_can_open(WhoOpened::Nobody, &hand));

    hand.extend_from_slice(&vec![card(CardValue::Three, CardSuit::Clubs); 3]);
    hand.extend_from_slice(&vec![card(CardValue::Eight, CardSuit::Clubs); 3]);

    assert!(PlayerMove::hand_can_open(WhoOpened::Nobody, &hand));

    // Remove eights
    hand.pop();
    hand.pop();
    hand.pop();

    // Replace with 3 Two's (both are wild)
    hand.extend_from_slice(&vec![card(CardValue::Two, CardSuit::Spades); 3]);

    // Invalid opening hand, 3 twos must be independently
    assert!(!PlayerMove::hand_can_open(WhoOpened::Nobody, &hand));

    hand.pop();
    hand.pop();
    hand.push(card(CardValue::Five, CardSuit::Spades));
    hand.push(card(CardValue::Jack, CardSuit::Spades));

    // Invalid opening hand including
    assert!(!PlayerMove::hand_can_open(WhoOpened::Nobody, &hand));

    hand.clear();
    hand.extend_from_slice(&vec![card(CardValue::Two, CardSuit::Spades); 6]);
    hand.push(card(CardValue::Three, CardSuit::Spades));
    hand.push(card(CardValue::Five, CardSuit::Spades));
    hand.push(card(CardValue::Seven, CardSuit::Spades));
}

#[test]
fn open_with_wilds_after_partner() {
    let mut hand = vec![
        card(CardValue::Ace, CardSuit::Clubs),
        card(CardValue::Two, CardSuit::Spades),
        card(CardValue::Two, CardSuit::Diamonds),
    ];
    assert!(PlayerMove::hand_can_open(WhoOpened::Partner, &hand));

    hand.clear();
    hand.extend_from_slice(&[
        card(CardValue::Ace, CardSuit::Clubs),
        card(CardValue::Ace, CardSuit::Spades),
        card(CardValue::Two, CardSuit::Diamonds),
    ]);
    assert!(PlayerMove::hand_can_open(WhoOpened::Partner, &hand));

    hand.clear();
    hand.extend_from_slice(&[
        card(CardValue::Two, CardSuit::Clubs),
        card(CardValue::Two, CardSuit::Spades),
        card(CardValue::Two, CardSuit::Diamonds),
    ]);
    assert!(!PlayerMove::hand_can_open(WhoOpened::Partner, &hand));
}

#[test]
fn opening_twice() {
    // valid hand
    let hand = [
        card(CardValue::Four, CardSuit::Clubs),
        card(CardValue::Four, CardSuit::Spades),
        card(CardValue::Four, CardSuit::Diamonds),
        card(CardValue::Three, CardSuit::Clubs),
        card(CardValue::Three, CardSuit::Spades),
        card(CardValue::Three, CardSuit::Diamonds),
        card(CardValue::Eight, CardSuit::Clubs),
        card(CardValue::Eight, CardSuit::Spades),
        card(CardValue::Eight, CardSuit::Diamonds),
    ];

    assert!(PlayerMove::hand_can_open(WhoOpened::Nobody, &hand));

    // A player cannot open twice
    assert!(!PlayerMove::hand_can_open(WhoOpened::Both, &hand));
    assert!(!PlayerMove::hand_can_open(WhoOpened::Me, &hand));
}

#[test]
fn calculate_total() -> Result<(), DameDePiqueError> {
    let mut game_state = DameDePiqueGameBuilder::initialize_game()?;
    game_state.default_state.players[0].hand.clear();
    game_state.default_state.players[0].hand.push(Card {
        suit: CardSuit::Clubs,
        value: CardValue::Ace,
    });
    assert_eq!(
        GameStatus::RoundOver,
        PlayerMove::Discard(0).handle_move(&mut game_state)?
    );
    let player_1_points =
        PlayerMove::calculate_point_total(game_state.default_state.players[0].hand.clone()) as i16;
    let player_2_points =
        PlayerMove::calculate_point_total(game_state.default_state.players[2].hand.clone()) as i16;
    assert_eq!(
        game_state.partners[0].overall_points,
        game_state.partners[0].get_points_total() as i16 - player_1_points - player_2_points
    );
    Ok(())
}

#[test]
fn game_integration_tests_player_b_open() -> Result<(), DameDePiqueError> {
    let deck = Deck::new(DeckType::WithJokers);
    let players = vec![
        Player::new(
            "Player 1",
            vec![
                card(CardValue::Seven, CardSuit::Clubs),
                card(CardValue::Seven, CardSuit::Spades),
                card(CardValue::Seven, CardSuit::Diamonds),
            ],
        ),
        Player::new(
            "Player 2",
            vec![
                card(CardValue::Ace, CardSuit::Clubs),
                card(CardValue::Ace, CardSuit::Spades),
                card(CardValue::Ace, CardSuit::Diamonds),
                card(CardValue::Five, CardSuit::Clubs),
                card(CardValue::Five, CardSuit::Spades),
                card(CardValue::Five, CardSuit::Diamonds),
                card(CardValue::Four, CardSuit::Clubs),
                card(CardValue::Four, CardSuit::Spades),
                card(CardValue::Four, CardSuit::Diamonds),
            ],
        ),
    ];

    let mut game = DDPState {
        default_state: GameState {
            players,
            deck,
            turn: 0,
        },
        partners: vec![Partners::new(0, 1)],
    };

    PlayerMove::Draw.handle_move(&mut game)?;

    let hand = game.default_state.players[0].hand.clone();
    assert!(PlayerMove::Open(hand).handle_move(&mut game).is_err());
    PlayerMove::end_turn(&mut game);

    PlayerMove::Draw.handle_move(&mut game)?;
    let hand = game.default_state.players[1].hand.clone();
    assert!(PlayerMove::Open(hand).handle_move(&mut game).is_ok());

    Ok(())
}
