//! Tests of the game engine: wager validation, blinds, the round-over
//! predicate, pot conservation, dealing, the deck, and the showdown.

use holdem_engine::card::{Card, Rank, Suit};
use holdem_engine::dealer::Dealer;
use holdem_engine::player::{
    FundsError, FundsPurpose, Player, PlayerAction, PlayerVersion, Requester,
};
use holdem_engine::poker_game::{GamePhase, PlayHalt, PlayOutcome, PokerGame};

fn card(rank: Rank, suit: Suit) -> Card {
    Card::new(rank, suit)
}

fn auto_player(id: u32, name: &str, coins: u32) -> Player {
    Player::new(PlayerVersion::AutoPlayer, id, String::from(name), coins)
}

#[test]
fn bet_and_raise_validation() {
    // the blind seats are broke, so posting blinds configures the big
    // blind at 10 while the highest bet stays 0
    let players = vec![
        auto_player(1, "Alice", 0),
        auto_player(2, "Bob", 0),
        auto_player(3, "Carol", 100),
        auto_player(4, "Dave", 100),
    ];
    let mut g = PokerGame::new_with_seats(players, Dealer::new(String::from("auto")), 0);
    g.play_with_blinds(true);
    g.post_blinds_current_game(5);
    assert_eq!(g.big_blind, 10);
    assert_eq!(g.highest_bet, 0);
    assert_eq!(g.pot, 0);

    // a bet of 5 is below the minimum of 10
    assert!(!g.bet(2, 5));
    assert_eq!(g.highest_bet, 0);
    // a bet of 10 succeeds and the highest bet becomes 10
    assert!(g.bet(2, 10));
    assert_eq!(g.highest_bet, 10);
    assert_eq!(g.pot, 10);
    assert_eq!(g.players[2].get_coins(), 90);
    assert_eq!(g.players[2].get_current_bet(), 10);
    // a raise of 15 is not strictly above twice the highest bet
    assert!(!g.raise(3, 15));
    assert_eq!(g.highest_bet, 10);
    // a raise of 25 is
    assert!(g.raise(3, 25));
    assert_eq!(g.highest_bet, 35);
    assert_eq!(g.pot, 35);
}

#[test]
fn bet_needs_funds() {
    let players = vec![auto_player(1, "Alice", 5), auto_player(2, "Bob", 5)];
    let mut g = PokerGame::new_with_seats(players, Dealer::new(String::from("auto")), 0);
    // big blind is 0 by default, so the amount alone decides
    assert!(!g.bet(0, 6));
    assert_eq!(g.players[0].get_coins(), 5);
    assert_eq!(g.pot, 0);
    assert!(g.bet(0, 5));
    assert_eq!(g.players[0].get_coins(), 0);
    assert_eq!(g.pot, 5);
}

#[test]
fn call_covers_the_gap_and_keeps_the_target() {
    let players = vec![
        auto_player(1, "Alice", 100),
        auto_player(2, "Bob", 100),
        auto_player(3, "Carol", 3),
    ];
    let mut g = PokerGame::new_with_seats(players, Dealer::new(String::from("auto")), 0);
    // a call with nothing to match fails
    assert!(!g.call(1));
    assert!(g.bet(0, 10));
    // the gap of 10 exceeds Carol's stack
    assert!(!g.call(2));
    // Bob matches the 10; the highest bet stays where it was
    assert!(g.call(1));
    assert_eq!(g.players[1].get_current_bet(), 10);
    assert_eq!(g.players[1].get_coins(), 90);
    assert_eq!(g.highest_bet, 10);
    assert_eq!(g.pot, 20);
}

#[test]
fn fold_keeps_one_active_player() {
    let players = vec![auto_player(1, "Alice", 10), auto_player(2, "Bob", 10)];
    let mut g = PokerGame::new_with_seats(players, Dealer::new(String::from("auto")), 0);
    assert!(g.fold(0));
    assert!(g.players[0].get_folded());
    // the last active player cannot fold
    assert!(!g.fold(1));
    assert!(!g.players[1].get_folded());
}

#[test]
fn round_over_predicate() {
    let players = vec![
        auto_player(1, "Alice", 100),
        auto_player(2, "Bob", 100),
        auto_player(3, "Carol", 100),
    ];
    let mut g = PokerGame::new_with_seats(players, Dealer::new(String::from("auto")), 0);
    // nothing wagered: every active bet matches the highest bet of 0
    assert!(g.check_round_over());
    // one player ahead: not over until all three have matched
    assert!(g.bet(0, 10));
    assert!(!g.check_round_over());
    assert!(g.call(1));
    assert!(!g.check_round_over());
    assert!(g.call(2));
    assert!(g.check_round_over());
    // a raise reopens the round; folding down to one closes it regardless
    assert!(g.raise(1, 25));
    assert!(!g.check_round_over());
    assert!(g.fold(0));
    assert!(!g.check_round_over());
    assert!(g.fold(2));
    assert!(g.check_round_over());
}

#[test]
fn readiness_needs_exactly_two_cards() {
    let mut p1 = auto_player(1, "Alice", 100);
    p1.receive_card(Some(card(Rank::Two, Suit::Spades)));
    p1.receive_card(Some(card(Rank::Three, Suit::Hearts)));
    let mut p2 = auto_player(2, "Bob", 100);
    p2.receive_card(Some(card(Rank::Four, Suit::Diamonds)));
    let mut g = PokerGame::new_with_seats(vec![p1, p2], Dealer::new(String::from("auto")), 0);
    // a single-card player is not ready
    assert!(!g.are_players_ready());
    g.players[1].receive_card(Some(card(Rank::Five, Suit::Clubs)));
    assert!(g.are_players_ready());
}

#[test]
fn blinds_post_once() {
    let players = vec![
        auto_player(1, "Alice", 100),
        auto_player(2, "Bob", 100),
        auto_player(3, "Carol", 100),
    ];
    let mut g = PokerGame::new_with_seats(players, Dealer::new(String::from("auto")), 1);
    g.play_with_blinds(true);
    g.post_blinds_current_game(5);
    // small blind pays 5, big blind pays 10
    assert_eq!(g.players[1].get_coins(), 95);
    assert_eq!(g.players[2].get_coins(), 90);
    assert_eq!(g.pot, 15);
    assert_eq!(g.highest_bet, 10);
    assert_eq!(g.big_blind, 10);
    // blinds do not count towards current-round bets
    assert_eq!(g.players[1].get_current_bet(), 0);
    assert_eq!(g.players[2].get_current_bet(), 0);
    // a second posting changes nothing
    g.post_blinds_current_game(7);
    assert_eq!(g.big_blind, 10);
    assert_eq!(g.pot, 15);
}

#[test]
fn funds_requests_distinguish_their_errors() {
    let mut p = auto_player(1, "Alice", 20);
    assert_eq!(
        p.request_funds(5, FundsPurpose::Bet, Requester::Outsider),
        Err(FundsError::Unauthorized)
    );
    assert_eq!(p.get_coins(), 20);
    assert_eq!(
        p.request_funds(25, FundsPurpose::Bet, Requester::GameDealer),
        Err(FundsError::InsufficientFunds)
    );
    assert_eq!(p.get_coins(), 20);
    assert_eq!(p.request_funds(5, FundsPurpose::Bet, Requester::GameDealer), Ok(5));
    assert_eq!(p.get_coins(), 15);
    assert_eq!(p.get_current_bet(), 5);
    // blinds leave the current-round bet alone
    assert_eq!(p.request_funds(5, FundsPurpose::Blinds, Requester::GameDealer), Ok(5));
    assert_eq!(p.get_coins(), 10);
    assert_eq!(p.get_current_bet(), 5);
}

#[test]
fn hand_cards_are_guarded() {
    let mut p = auto_player(1, "Alice", 20);
    p.receive_card(Some(card(Rank::Two, Suit::Spades)));
    assert!(p.request_hand_cards(Requester::Outsider).is_none());
    let cards = p.request_hand_cards(Requester::GameDealer).expect("dealer may look");
    assert_eq!(cards.len(), 1);
}

#[test]
fn receive_card_caps_at_two() {
    let mut p = auto_player(1, "Alice", 20);
    p.receive_card(Some(card(Rank::Two, Suit::Spades)));
    p.receive_card(None);
    assert_eq!(p.get_hand_length(), 1);
    p.receive_card(Some(card(Rank::Three, Suit::Spades)));
    p.receive_card(Some(card(Rank::Four, Suit::Spades)));
    assert_eq!(p.get_hand_length(), 2);
}

#[test]
fn generated_deck_is_the_static_multiset() {
    let mut dealer = Dealer::new(String::from("auto"));
    assert!(dealer.generate_cards(1));
    let deck = dealer.get_deck().as_ref().expect("deck exists");
    assert_eq!(deck.len(), 52);
    assert_eq!(deck[0], card(Rank::Two, Suit::Spades));
    assert_eq!(deck[12], card(Rank::Ace, Suit::Spades));
    assert_eq!(deck[13], card(Rank::Two, Suit::Hearts));
    assert_eq!(deck[51], card(Rank::Ace, Suit::Clubs));
    // all 52 cards distinct
    for i in 0..52 {
        for j in 0..i {
            assert!(deck[i] != deck[j]);
        }
    }
    // a second generation is refused while a deck exists
    assert!(!dealer.generate_cards(1));
}

#[test]
fn shuffle_keeps_the_cards() {
    let mut dealer = Dealer::new(String::from("auto"));
    assert!(dealer.generate_cards(1));
    let before = dealer.get_deck().as_ref().unwrap().clone();
    dealer.shuffle_cards();
    let after = dealer.get_deck().as_ref().unwrap().clone();
    assert_eq!(after.len(), 52);
    let mut sorted_before: Vec<String> = before.iter().map(|c| format!("{:?}", c)).collect();
    let mut sorted_after: Vec<String> = after.iter().map(|c| format!("{:?}", c)).collect();
    sorted_before.sort();
    sorted_after.sort();
    assert_eq!(sorted_before, sorted_after);
}

#[test]
fn dealing_pops_two_per_seat_off_the_top() {
    let players = vec![auto_player(1, "Alice", 100), auto_player(2, "Bob", 100)];
    let mut g = PokerGame::new_with_seats(players, Dealer::new(String::from("auto")), 0);
    g.request_generate_deck(1);
    g.play_with_blinds(false);
    g.deal_cards();
    // the unshuffled deck ends ... Queen, King, Ace of Clubs
    let alice = g.players[0].request_hand_cards(Requester::GameDealer).unwrap();
    assert_eq!(alice[0], card(Rank::Ace, Suit::Clubs));
    assert_eq!(alice[1], card(Rank::King, Suit::Clubs));
    let bob = g.players[1].request_hand_cards(Requester::GameDealer).unwrap();
    assert_eq!(bob[0], card(Rank::Queen, Suit::Clubs));
    assert_eq!(bob[1], card(Rank::Jack, Suit::Clubs));
    assert_eq!(g.game_dealer.get_deck().as_ref().unwrap().len(), 48);
}

#[test]
fn play_halts_without_a_deck() {
    let players = vec![auto_player(1, "Alice", 100), auto_player(2, "Bob", 100)];
    let mut g = PokerGame::new_with_seats(players, Dealer::new(String::from("auto")), 0);
    match g.play() {
        PlayOutcome::Halted(h) => assert_eq!(h, PlayHalt::DealerNotReady),
        PlayOutcome::Finished(_) => panic!("cannot finish without a deck"),
    }
}

#[test]
fn play_halts_before_the_deal() {
    let players = vec![auto_player(1, "Alice", 100), auto_player(2, "Bob", 100)];
    let mut g = PokerGame::new_with_seats(players, Dealer::new(String::from("auto")), 0);
    g.request_generate_deck(1);
    g.play_with_blinds(false);
    match g.play() {
        PlayOutcome::Halted(h) => assert_eq!(h, PlayHalt::PlayersNotReady),
        PlayOutcome::Finished(_) => panic!("cannot finish before the deal"),
    }
    assert_eq!(g.game_state, GamePhase::Initial);
}

#[test]
fn pot_conserves_the_funds_in_play() {
    // whatever the random policies decide, the pot holds exactly what the
    // stacks lost: blinds plus all successful bets, raises and calls
    let players = vec![
        auto_player(1, "Alice", 100),
        auto_player(2, "Bob", 100),
        auto_player(3, "Carol", 100),
        auto_player(4, "Dave", 100),
        auto_player(5, "Eve", 100),
    ];
    let mut g = PokerGame::new(players, Dealer::new(String::from("auto")));
    g.request_generate_deck(1);
    g.request_dealer_shuffle();
    g.play_with_blinds(true);
    g.post_blinds_current_game(5);
    g.deal_cards();
    let _ = g.play();
    let stacks: u64 = g.players.iter().map(|p| p.get_coins() as u64).sum();
    assert_eq!(g.pot as u64 + stacks, 500);
}

#[test]
fn round_decisions_conserve_funds() {
    let players = vec![
        auto_player(1, "Alice", 50),
        auto_player(2, "Bob", 50),
        auto_player(3, "Carol", 50),
    ];
    let mut g = PokerGame::new_with_seats(players, Dealer::new(String::from("auto")), 0);
    let _ = g.round_decisions(None);
    let stacks: u64 = g.players.iter().map(|p| p.get_coins() as u64).sum();
    assert_eq!(g.pot as u64 + stacks, 150);
}

#[test]
fn showdown_higher_category_wins() {
    // Alice holds one pair, Bob holds two pair: Bob wins, no tie
    let mut alice = auto_player(1, "Alice", 100);
    alice.receive_card(Some(card(Rank::Five, Suit::Spades)));
    alice.receive_card(Some(card(Rank::Five, Suit::Hearts)));
    let mut bob = auto_player(2, "Bob", 100);
    bob.receive_card(Some(card(Rank::Two, Suit::Spades)));
    bob.receive_card(Some(card(Rank::Three, Suit::Clubs)));
    let mut g = PokerGame::new_with_seats(
        vec![alice, bob],
        Dealer::new(String::from("auto")),
        0,
    );
    g.community_deck = vec![
        card(Rank::Two, Suit::Hearts),
        card(Rank::Three, Suit::Diamonds),
        card(Rank::Nine, Suit::Clubs),
        card(Rank::Jack, Suit::Spades),
        card(Rank::King, Suit::Diamonds),
    ];
    let out = g.determine_winner();
    assert_eq!(out.evaluated.len(), 2);
    assert_eq!(out.evaluated[0].hand_rank.as_ref().unwrap().hand_rank, 1);
    assert_eq!(out.evaluated[1].hand_rank.as_ref().unwrap().hand_rank, 2);
    assert_eq!(out.winner, Some(1));
    assert!(!out.tie_winners);
    assert!(out.tie_players.is_empty());
}

#[test]
fn showdown_numeric_tie_collects_both() {
    // equal categories and equal numeric high-card labels: a genuine tie
    let mut alice = auto_player(1, "Alice", 100);
    alice.receive_card(Some(card(Rank::Five, Suit::Spades)));
    alice.receive_card(Some(card(Rank::Five, Suit::Hearts)));
    let mut bob = auto_player(2, "Bob", 100);
    bob.receive_card(Some(card(Rank::Five, Suit::Diamonds)));
    bob.receive_card(Some(card(Rank::Five, Suit::Clubs)));
    let mut g = PokerGame::new_with_seats(
        vec![alice, bob],
        Dealer::new(String::from("auto")),
        0,
    );
    g.community_deck = vec![
        card(Rank::Two, Suit::Clubs),
        card(Rank::Seven, Suit::Diamonds),
        card(Rank::Ten, Suit::Spades),
        card(Rank::Jack, Suit::Hearts),
        card(Rank::Queen, Suit::Diamonds),
    ];
    let out = g.determine_winner();
    assert_eq!(out.winner, Some(0));
    assert!(out.tie_winners);
    assert_eq!(out.tie_players, vec![0, 1]);
}

#[test]
fn showdown_face_card_tie_keeps_the_leader() {
    // equal categories but the high cards wear word labels, which do not
    // parse as numbers: the tie-break is skipped and the leader stays
    let mut alice = auto_player(1, "Alice", 100);
    alice.receive_card(Some(card(Rank::King, Suit::Spades)));
    alice.receive_card(Some(card(Rank::King, Suit::Hearts)));
    let mut bob = auto_player(2, "Bob", 100);
    bob.receive_card(Some(card(Rank::King, Suit::Diamonds)));
    bob.receive_card(Some(card(Rank::King, Suit::Clubs)));
    let mut g = PokerGame::new_with_seats(
        vec![alice, bob],
        Dealer::new(String::from("auto")),
        0,
    );
    g.community_deck = vec![
        card(Rank::Two, Suit::Clubs),
        card(Rank::Seven, Suit::Diamonds),
        card(Rank::Ten, Suit::Spades),
        card(Rank::Jack, Suit::Hearts),
        card(Rank::Queen, Suit::Diamonds),
    ];
    let out = g.determine_winner();
    assert_eq!(out.winner, Some(0));
    assert!(!out.tie_winners);
    assert!(out.tie_players.is_empty());
}

#[test]
fn folded_players_are_not_evaluated() {
    let mut alice = auto_player(1, "Alice", 100);
    alice.receive_card(Some(card(Rank::Five, Suit::Spades)));
    alice.receive_card(Some(card(Rank::Five, Suit::Hearts)));
    let mut bob = auto_player(2, "Bob", 100);
    bob.receive_card(Some(card(Rank::Nine, Suit::Diamonds)));
    bob.receive_card(Some(card(Rank::Nine, Suit::Clubs)));
    bob.set_folded(true);
    let mut g = PokerGame::new_with_seats(
        vec![alice, bob],
        Dealer::new(String::from("auto")),
        0,
    );
    g.community_deck = vec![
        card(Rank::Two, Suit::Clubs),
        card(Rank::Seven, Suit::Diamonds),
        card(Rank::Ten, Suit::Spades),
        card(Rank::Jack, Suit::Hearts),
        card(Rank::Queen, Suit::Diamonds),
    ];
    let shown = g.show_hands();
    assert_eq!(shown.len(), 1);
    assert_eq!(shown[0].get_player_id(), 1);
}

#[test]
fn auto_policy_respects_the_stack() {
    let p = auto_player(1, "Alice", 50);
    for _ in 0..100 {
        let action = p.get_action(10);
        assert!(action.success);
        match action.action {
            PlayerAction::Bet => {
                let a = action.amount.expect("a bet carries an amount");
                assert!(1 <= a && a <= 50);
            }
            PlayerAction::Raise => {
                let a = action.amount.expect("a raise carries an amount");
                assert!(1 <= a && a <= 50);
            }
            _ => assert!(action.amount.is_none()),
        }
    }
    let broke = auto_player(2, "Bob", 0);
    for _ in 0..50 {
        let action = broke.get_action(10);
        assert!(action.success);
        assert!(action.action == PlayerAction::Check || action.action == PlayerAction::Fold);
    }
    let mut folded = auto_player(3, "Carol", 50);
    folded.set_folded(true);
    let action = folded.get_action(10);
    assert!(!action.success);
    assert_eq!(action.action, PlayerAction::Fold);
}

#[test]
fn dealer_readiness() {
    let players = vec![auto_player(1, "Alice", 100), auto_player(2, "Bob", 100)];
    let mut g = PokerGame::new_with_seats(players, Dealer::new(String::from("auto")), 0);
    assert!(!g.is_dealer_ready());
    g.request_generate_deck(1);
    // blinds choice still missing
    assert!(!g.is_dealer_ready());
    g.play_with_blinds(true);
    // blinds enabled but not posted
    assert!(!g.is_dealer_ready());
    g.post_blinds_current_game(5);
    assert!(g.is_dealer_ready());
}

#[test]
fn dealer_identity_labels() {
    let dealer = Dealer::new(String::from("auto"));
    assert!(dealer.get_dealer_id().starts_with("dlr-"));
    assert_eq!(dealer.get_dealer_type(), "auto");
    assert_eq!(dealer.get_deck_id(), "");
    let mut dealer = dealer;
    dealer.generate_cards(1);
    assert!(dealer.get_deck_id().starts_with("deck-"));
    assert!(dealer.get_deck().is_some());
}

#[test]
fn new_places_the_big_blind_after_the_small_blind() {
    for _ in 0..20 {
        let players = vec![
            auto_player(1, "Alice", 10),
            auto_player(2, "Bob", 10),
            auto_player(3, "Carol", 10),
        ];
        let g = PokerGame::new(players, Dealer::new(String::from("auto")));
        assert!(g.small_blind_index < 3);
        assert_eq!(g.big_blind_index, (g.small_blind_index + 1) % 3);
        assert_eq!(g.game_state, GamePhase::Initial);
        assert_eq!(g.pot, 0);
    }
}

#[test]
fn finished_play_reaches_showdown_with_five_community_cards() {
    let mut finished = 0;
    for _ in 0..20 {
        let players = vec![
            auto_player(1, "Alice", 100),
            auto_player(2, "Bob", 100),
            auto_player(3, "Carol", 100),
        ];
        let mut g = PokerGame::new(players, Dealer::new(String::from("auto")));
        g.request_generate_deck(1);
        g.request_dealer_shuffle();
        g.play_with_blinds(true);
        g.post_blinds_current_game(5);
        g.deal_cards();
        if let PlayOutcome::Finished(out) = g.play() {
            finished += 1;
            assert_eq!(g.game_state, GamePhase::Showdown);
            assert_eq!(g.community_deck.len(), 5);
            for p in &out.evaluated {
                let hr = p.hand_rank.as_ref().expect("every evaluated player is ranked");
                assert!(hr.hand_rank <= 9);
            }
            if let Some(w) = out.winner {
                assert!(w < out.evaluated.len());
            }
        }
    }
    // with random folds most hands end early; just exercise both paths
    let _ = finished;
}

#[test]
fn player_ledger_getters() {
    let mut p = auto_player(7, "Grace", 42);
    assert_eq!(p.get_player_id(), 7);
    assert_eq!(p.get_player_username(), "Grace");
    assert_eq!(p.get_coins(), 42);
    assert_eq!(p.get_current_bet(), 0);
    assert!(!p.get_folded());
    assert!(p.get_handrank().is_none());
    p.set_coins(30);
    assert_eq!(p.get_coins(), 30);
    p.increase_bet(4);
    assert_eq!(p.get_current_bet(), 4);
    p.get_current_hand().push(card(Rank::Two, Suit::Spades));
    assert_eq!(p.get_hand_length(), 1);
}
