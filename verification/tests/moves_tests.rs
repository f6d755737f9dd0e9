use dame_de_pique::deck::{Card, CardSuit, CardValue, Deck, DeckType};
use dame_de_pique::error::DameDePiqueError;
use dame_de_pique::gameplay::{DameDePiqueGameBuilder, GameStatus, PlayerMove};
use dame_de_pique::partners::{Partners, TeamOpenStatus, WhoOpened};
use dame_de_pique::player::Player;
use dame_de_pique::state::{DDPState, GameState};

fn card(value: CardValue, suit: CardSuit) -> Card {
    Card { value, suit }
}

/// A two-player round with one team, an empty discard pile, and the
/// given hands; player 0 acts.
fn two_player_state(hand0: Vec<Card>, hand1: Vec<Card>) -> DDPState {
    DDPState {
        default_state: GameState {
            players: vec![Player::new("Player 1", hand0), Player::new("Player 2", hand1)],
            deck: Deck::new(DeckType::Normal),
            turn: 0,
        },
        partners: vec![Partners::new(0, 1)],
    }
}

fn triple(value: CardValue) -> Vec<Card> {
    vec![
        card(value, CardSuit::Clubs),
        card(value, CardSuit::Spades),
        card(value, CardSuit::Diamonds),
    ]
}

#[test]
fn exact_wilds_scenario() {
    // Three Aces, three Threes and three Eights open from scratch.
    let mut hand = triple(CardValue::Ace);
    hand.extend(triple(CardValue::Three));
    hand.extend(triple(CardValue::Eight));
    assert!(PlayerMove::hand_can_open(WhoOpened::Nobody, &hand));

    // With a single Eight left and one wild Two supplied, that lone
    // Eight would need two wilds: one wild supplied, two required.
    let mut short = triple(CardValue::Ace);
    short.extend(triple(CardValue::Three));
    short.push(card(CardValue::Eight, CardSuit::Clubs));
    short.push(card(CardValue::Two, CardSuit::Spades));
    assert!(!PlayerMove::hand_can_open(WhoOpened::Nobody, &short));

    // One extra unused wild on an otherwise complete opening fails too.
    let mut surplus = triple(CardValue::Ace);
    surplus.extend(triple(CardValue::Three));
    surplus.extend(triple(CardValue::Eight));
    surplus.push(card(CardValue::Two, CardSuit::Spades));
    assert!(!PlayerMove::hand_can_open(WhoOpened::Nobody, &surplus));
}

#[test]
fn reduced_threshold_after_partner_opens() {
    // Exactly one completed triple: legal at Partner, illegal at Nobody.
    let hand = triple(CardValue::Ace);
    assert!(PlayerMove::hand_can_open(WhoOpened::Partner, &hand));
    assert!(!PlayerMove::hand_can_open(WhoOpened::Nobody, &hand));
}

#[test]
fn draw_moves_top_card_into_hand() {
    let mut game = two_player_state(vec![], triple(CardValue::Ace));
    let status = PlayerMove::Draw.handle_move(&mut game);
    // Hand emptiness is checked after the move, and the empty hand just
    // received a card, so the round goes on.
    assert_eq!(status, Ok(GameStatus::Active));
    assert_eq!(game.default_state.players[0].hand.len(), 1);
    assert_eq!(
        game.default_state.players[0].hand[0],
        card(CardValue::King, CardSuit::Clubs)
    );
}

#[test]
fn draw_from_empty_deck_is_deck_empty() {
    let mut game = two_player_state(triple(CardValue::Ace), triple(CardValue::Five));
    game.default_state.deck = {
        let mut d = Deck::new(DeckType::Normal);
        let _ = d.draw_cards(52).unwrap();
        d
    };
    let before = game.default_state.players[0].hand.clone();
    assert_eq!(
        PlayerMove::Draw.handle_move(&mut game),
        Err(DameDePiqueError::DeckEmpty)
    );
    assert_eq!(game.default_state.players[0].hand, before);
}

#[test]
fn discard_moves_card_to_pile_and_bad_index_rejects() {
    let mut game = two_player_state(triple(CardValue::Ace), triple(CardValue::Five));
    assert_eq!(
        PlayerMove::Discard(3).handle_move(&mut game),
        Err(DameDePiqueError::IncorrectCardNumberRequest)
    );
    assert_eq!(game.default_state.players[0].hand.len(), 3);

    assert_eq!(
        PlayerMove::Discard(1).handle_move(&mut game),
        Ok(GameStatus::Active)
    );
    assert_eq!(game.default_state.players[0].hand.len(), 2);
    assert_eq!(
        game.default_state.deck.peek_top_discarded_card(),
        Some(&card(CardValue::Ace, CardSuit::Spades))
    );
}

#[test]
fn open_rejects_short_hand_and_leaves_state() {
    let mut game = two_player_state(triple(CardValue::Ace), vec![]);
    // One triple is not enough while neither member has opened... but an
    // empty hand on player 1 would end the round, so give them a card.
    game.default_state.players[1].hand.push(card(CardValue::Five, CardSuit::Clubs));
    let offered = game.default_state.players[0].hand.clone();
    assert_eq!(
        PlayerMove::Open(offered).handle_move(&mut game),
        Err(DameDePiqueError::InvalidOpeningHand(0))
    );
    assert_eq!(game.partners[0].get_status(), TeamOpenStatus::Neither);
    assert_eq!(game.partners[0].get_points_total(), 0);
}

#[test]
fn open_melds_cards_and_advances_status() {
    let mut hand = triple(CardValue::Ace);
    hand.extend(triple(CardValue::Three));
    hand.extend(triple(CardValue::Eight));
    let mut game = two_player_state(hand.clone(), triple(CardValue::Five));
    assert_eq!(
        PlayerMove::Open(hand).handle_move(&mut game),
        Ok(GameStatus::Active)
    );
    assert_eq!(game.partners[0].get_status(), TeamOpenStatus::PlayerA);
    assert_eq!(game.partners[0].who_opened(0), WhoOpened::Me);
    // 3 * 15 + 3 * 5 + 3 * 5 melded.
    assert_eq!(game.partners[0].get_points_total(), 75);
    // The opening does not itself take the cards out of the hand; the
    // session layer owns the hand bookkeeping.
    assert_eq!(game.default_state.players[0].hand.len(), 9);
}

#[test]
fn add_points_rejected_before_opening() {
    // Status Neither: AddPoints is refused outright, whatever the cards.
    let mut game = two_player_state(triple(CardValue::Ace), triple(CardValue::Five));
    assert_eq!(
        PlayerMove::AddPoints(triple(CardValue::Ace)).handle_move(&mut game),
        Err(DameDePiqueError::PlayerCantAddPoints(0))
    );
    // Even a set that would never pass the points validator reports the
    // same rejection first.
    assert_eq!(
        PlayerMove::AddPoints(vec![card(CardValue::King, CardSuit::Clubs)]).handle_move(&mut game),
        Err(DameDePiqueError::PlayerCantAddPoints(0))
    );
    // The partner having opened is still not enough: the team must have
    // opened through this player or through both.
    game.partners[0].update_status(1);
    assert_eq!(
        PlayerMove::AddPoints(triple(CardValue::Ace)).handle_move(&mut game),
        Err(DameDePiqueError::PlayerCantAddPoints(0))
    );
}

#[test]
fn add_points_validates_and_appends() {
    let mut opening = triple(CardValue::Ace);
    opening.extend(triple(CardValue::Three));
    opening.extend(triple(CardValue::Eight));
    let mut game = two_player_state(opening.clone(), triple(CardValue::Five));
    game.default_state.players[0].hand.push(card(CardValue::King, CardSuit::Clubs));
    assert!(PlayerMove::Open(opening).handle_move(&mut game).is_ok());

    // A lone new rank without wilds fails the lenient validator.
    assert_eq!(
        PlayerMove::AddPoints(vec![card(CardValue::King, CardSuit::Clubs)]).handle_move(&mut game),
        Err(DameDePiqueError::InvalidPoints)
    );
    // Extending an established meld is free.
    assert_eq!(
        PlayerMove::AddPoints(vec![card(CardValue::Ace, CardSuit::Hearts)]).handle_move(&mut game),
        Ok(GameStatus::Active)
    );
    assert_eq!(game.partners[0].get_points_total(), 90);
}

#[test]
fn pickup_rejected_when_hand_opens_alone() {
    // The supplied cards already open by themselves, so the pickup is
    // refused even though the top discard is perfectly eligible.
    let mut hand = triple(CardValue::Ace);
    hand.extend(triple(CardValue::Three));
    hand.extend(triple(CardValue::Eight));
    let mut game = two_player_state(hand.clone(), triple(CardValue::Five));
    game.default_state.deck.discard_card(card(CardValue::Nine, CardSuit::Hearts));
    assert_eq!(
        PlayerMove::TakeDiscardPile(hand).handle_move(&mut game),
        Err(DameDePiqueError::InvalidDiscardOpeningHand(0))
    );
    assert_eq!(game.default_state.deck.peek_top_discarded_card(), Some(&card(CardValue::Nine, CardSuit::Hearts)));
}

#[test]
fn pickup_rejects_wilds_jokers_and_empty_pile() {
    let mut hand = triple(CardValue::Ace);
    hand.extend(triple(CardValue::Three));
    hand.push(card(CardValue::Eight, CardSuit::Clubs));
    hand.push(card(CardValue::Eight, CardSuit::Spades));

    // Empty discard pile.
    let mut game = two_player_state(hand.clone(), triple(CardValue::Five));
    assert_eq!(
        PlayerMove::TakeDiscardPile(hand.clone()).handle_move(&mut game),
        Err(DameDePiqueError::InvalidDiscardOpeningHand(0))
    );

    // A wild Two on top may not be picked up.
    game.default_state.deck.discard_card(card(CardValue::Two, CardSuit::Hearts));
    assert_eq!(
        PlayerMove::TakeDiscardPile(hand.clone()).handle_move(&mut game),
        Err(DameDePiqueError::InvalidDiscardOpeningHand(0))
    );

    // A Joker on top may not be picked up either.
    let _ = game.default_state.deck.pop_top_discarded_card();
    game.default_state.deck.discard_card(card(CardValue::Joker, CardSuit::Hearts));
    assert_eq!(
        PlayerMove::TakeDiscardPile(hand).handle_move(&mut game),
        Err(DameDePiqueError::InvalidDiscardOpeningHand(0))
    );
}

#[test]
fn pickup_completes_opening_and_drains_pile() {
    // Two Eights short of a third set: the Eight on top of the pile is
    // needed, so the pickup is legal, melds the combined set, records
    // the opener and hands the rest of the pile over.
    let mut hand = triple(CardValue::Ace);
    hand.extend(triple(CardValue::Three));
    hand.push(card(CardValue::Eight, CardSuit::Clubs));
    hand.push(card(CardValue::Eight, CardSuit::Spades));
    let mut game = two_player_state(hand.clone(), triple(CardValue::Five));
    game.default_state.deck.discard_card(card(CardValue::Four, CardSuit::Hearts));
    game.default_state.deck.discard_card(card(CardValue::Nine, CardSuit::Hearts));
    game.default_state.deck.discard_card(card(CardValue::Eight, CardSuit::Diamonds));

    assert_eq!(
        PlayerMove::TakeDiscardPile(hand).handle_move(&mut game),
        Ok(GameStatus::Active)
    );
    assert_eq!(game.partners[0].get_status(), TeamOpenStatus::PlayerA);
    // 3 Aces + 3 Threes + 3 Eights melded: 45 + 15 + 15.
    assert_eq!(game.partners[0].get_points_total(), 75);
    // The rest of the pile went into the hand, in pile order.
    let hand_after = &game.default_state.players[0].hand;
    assert_eq!(hand_after.len(), 10);
    assert_eq!(hand_after[8], card(CardValue::Four, CardSuit::Hearts));
    assert_eq!(hand_after[9], card(CardValue::Nine, CardSuit::Hearts));
    // And the pile is empty.
    assert!(game.default_state.deck.peek_top_discarded_card().is_none());
}

#[test]
fn pickup_after_own_opening_needs_one_set() {
    // A fully opened player may still take the pile, at the one-set
    // threshold, when the top card's rank is not already melded.
    let mut opening = triple(CardValue::Ace);
    opening.extend(triple(CardValue::Three));
    opening.extend(triple(CardValue::Eight));
    let mut game = two_player_state(opening.clone(), triple(CardValue::Five));
    assert!(PlayerMove::Open(opening).handle_move(&mut game).is_ok());

    game.default_state.deck.discard_card(card(CardValue::Nine, CardSuit::Hearts));
    let offered = vec![
        card(CardValue::Nine, CardSuit::Clubs),
        card(CardValue::Nine, CardSuit::Spades),
    ];
    assert_eq!(
        PlayerMove::TakeDiscardPile(offered).handle_move(&mut game),
        Ok(GameStatus::Active)
    );
    // 75 from the opening plus three Nines.
    assert_eq!(game.partners[0].get_points_total(), 90);
}

#[test]
fn pickup_of_melded_rank_refused_once_open() {
    // The team already melded Nines and has fully opened through this
    // player: the pickup path may not extend that meld.
    let mut opening = triple(CardValue::Ace);
    opening.extend(triple(CardValue::Three));
    opening.extend(triple(CardValue::Nine));
    let mut game = two_player_state(opening.clone(), triple(CardValue::Five));
    assert!(PlayerMove::Open(opening).handle_move(&mut game).is_ok());

    game.default_state.deck.discard_card(card(CardValue::Nine, CardSuit::Hearts));
    let offered = vec![
        card(CardValue::Nine, CardSuit::Diamonds),
        card(CardValue::Two, CardSuit::Hearts),
    ];
    assert_eq!(
        PlayerMove::TakeDiscardPile(offered).handle_move(&mut game),
        Err(DameDePiqueError::InvalidDiscardOpeningHand(0))
    );
}

#[test]
fn round_end_rollup_exact() {
    // Player 1 melds everything and empties their hand by discarding
    // their last card; the rollup then charges player 2's hand.
    let mut opening = triple(CardValue::Ace);
    opening.extend(triple(CardValue::Three));
    opening.extend(triple(CardValue::Eight));
    opening.push(card(CardValue::Queen, CardSuit::Spades));
    let mut game = two_player_state(opening, triple(CardValue::Five));

    let meld: Vec<Card> = game.default_state.players[0].hand[0..9].to_vec();
    assert_eq!(PlayerMove::Open(meld).handle_move(&mut game), Ok(GameStatus::Active));
    game.default_state.players[0].hand.drain(0..9);

    // Hand holds only the Queen of Spades now; discarding it empties the
    // hand and ends the round.
    assert_eq!(
        PlayerMove::Discard(0).handle_move(&mut game),
        Ok(GameStatus::RoundOver)
    );
    // 75 melded, minus 15 penalty for player 2's three Fives.
    assert_eq!(game.partners[0].overall_points, 75 - 15);
    // The melds and the status survive the rollup untouched.
    assert_eq!(game.partners[0].get_points_total(), 75);
    assert_eq!(game.partners[0].get_status(), TeamOpenStatus::PlayerA);
}

#[test]
fn game_over_reported_without_rollup() {
    let mut game = two_player_state(
        vec![card(CardValue::Five, CardSuit::Clubs)],
        triple(CardValue::Five),
    );
    game.partners[0].overall_points = 1000;
    // Discarding the last card empties the hand while the team is at the
    // game total: GameOver, and no rollup touches the score.
    assert_eq!(
        PlayerMove::Discard(0).handle_move(&mut game),
        Ok(GameStatus::GameOver)
    );
    assert_eq!(game.partners[0].overall_points, 1000);
}

#[test]
fn initialize_game_deals_a_full_round() {
    let game = DameDePiqueGameBuilder::initialize_game().unwrap();
    assert_eq!(game.default_state.players.len(), 4);
    for player in game.default_state.players.iter() {
        assert_eq!(player.hand.len(), 13);
    }
    assert_eq!(game.default_state.turn, 0);
    assert!(game.default_state.deck.peek_top_discarded_card().is_some());
    assert_eq!(game.partners.len(), 2);
    assert_eq!(game.partners[0].get_partner(0), Some(2));
    assert_eq!(game.partners[1].get_partner(1), Some(3));
    assert_eq!(game.partners[0].get_status(), TeamOpenStatus::Neither);
    assert_eq!(game.partners[0].overall_points, 0);
    assert_eq!(game.partners[0].get_points_total(), 0);
}

#[test]
fn end_turn_cycles_players() {
    let mut game = two_player_state(triple(CardValue::Ace), triple(CardValue::Five));
    PlayerMove::end_turn(&mut game);
    assert_eq!(game.default_state.turn, 1);
    PlayerMove::end_turn(&mut game);
    assert_eq!(game.default_state.turn, 0);
}

#[test]
fn hand_penalty_uses_the_same_table() {
    let hand = vec![
        card(CardValue::Ace, CardSuit::Clubs),
        card(CardValue::Queen, CardSuit::Spades),
        card(CardValue::Joker, CardSuit::Hearts),
        card(CardValue::Six, CardSuit::Diamonds),
    ];
    assert_eq!(PlayerMove::calculate_point_total(hand), 170);
}

#[test]
fn four_of_a_rank_is_still_one_completed_set() {
    // A rank with more than three cards counts as one completed set;
    // the surplus card is neither a pair nor a single and costs no wild.
    let mut hand = triple(CardValue::Ace);
    hand.push(card(CardValue::Ace, CardSuit::Hearts));
    hand.extend(triple(CardValue::Three));
    hand.extend(triple(CardValue::Eight));
    assert!(PlayerMove::hand_can_open(WhoOpened::Nobody, &hand));

    let mut one_set = triple(CardValue::Ace);
    one_set.push(card(CardValue::Ace, CardSuit::Hearts));
    assert!(PlayerMove::hand_can_open(WhoOpened::Partner, &one_set));
}

#[test]
fn game_over_reads_the_cumulative_score_not_the_melds() {
    // A points deck worth the whole game total does not end the game by
    // itself: the threshold is on the cumulative cross-round score,
    // which only moves at the rollup.
    let mut game = two_player_state(
        vec![card(CardValue::Five, CardSuit::Clubs)],
        triple(CardValue::Five),
    );
    game.partners[0].add_points(vec![card(CardValue::Queen, CardSuit::Spades); 10]);
    assert_eq!(
        PlayerMove::Discard(0).handle_move(&mut game),
        Ok(GameStatus::RoundOver)
    );
    // 1000 melded minus the partner's 15-point hand penalty.
    assert_eq!(game.partners[0].overall_points, 985);
}

#[test]
fn initialize_game_deals_the_whole_pack() {
    // Everything dealt — the four hands, the draw pile and the flipped
    // discard — is exactly the two combined 54-card Joker decks.
    let mut game = DameDePiqueGameBuilder::initialize_game().unwrap();
    let mut in_play: Vec<Card> = Vec::new();
    for player in game.default_state.players.iter() {
        in_play.extend_from_slice(&player.hand);
    }
    while let Some(c) = game.default_state.deck.draw_card() {
        in_play.push(c);
    }
    in_play.extend(game.default_state.deck.take_discard_pile());
    assert_eq!(in_play.len(), 108);

    let mut pack = Deck::new(DeckType::WithJokers);
    let reference = pack.draw_cards(54).unwrap();
    for c in reference.iter() {
        let expected = 2 * reference.iter().filter(|d| *d == c).count();
        let actual = in_play.iter().filter(|d| *d == c).count();
        assert_eq!(actual, expected);
    }
}
