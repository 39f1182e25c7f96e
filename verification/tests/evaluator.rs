//! Tests of the hand evaluator: category detection, precedence, the wheel
//! straight, the lowest-rank-first tie-break, and the kicker search.

use holdem_engine::card::{Card, Rank, Suit};
use holdem_engine::dealer::Dealer;
use holdem_engine::player::{Player, PlayerVersion};
use holdem_engine::poker_game::PokerGame;

fn card(rank: Rank, suit: Suit) -> Card {
    Card::new(rank, suit)
}

fn game_of(players: Vec<Player>) -> PokerGame {
    let dealer = Dealer::new(String::from("auto"));
    PokerGame::new_with_seats(players, dealer, 0)
}

fn player_with_hole(id: u32, name: &str, coins: u32, hole: Vec<Card>) -> Player {
    let mut p = Player::new(PlayerVersion::AutoPlayer, id, String::from(name), coins);
    for c in hole {
        p.receive_card(Some(c));
    }
    p
}

fn evaluate(hole: Vec<Card>, community: Vec<Card>) -> Player {
    let p = player_with_hole(1, "Alice", 100, hole);
    let q = Player::new(PlayerVersion::AutoPlayer, 2, String::from("Bob"), 100);
    let dealer = Dealer::new(String::from("auto"));
    let g = PokerGame::new_with_seats(vec![p.clone(), q], dealer, 0);
    g.get_hand_rank(p, &Dealer::new(String::from("auto")), &community)
}

#[test]
fn royal_flush_is_detected() {
    let evaluated = evaluate(
        vec![card(Rank::Ten, Suit::Spades), card(Rank::Jack, Suit::Spades)],
        vec![
            card(Rank::Queen, Suit::Spades),
            card(Rank::King, Suit::Spades),
            card(Rank::Ace, Suit::Spades),
        ],
    );
    let hr = evaluated.hand_rank.expect("hand rank set");
    assert_eq!(hr.hand_rank, 9);
    assert_eq!(hr.hand_rank_name, "Royal Flush");
    assert_eq!(hr.winning_cards.len(), 5);
}

#[test]
fn royal_flush_satisfies_flush_and_straight() {
    let cards = vec![
        card(Rank::Ten, Suit::Hearts),
        card(Rank::Jack, Suit::Hearts),
        card(Rank::Queen, Suit::Hearts),
        card(Rank::King, Suit::Hearts),
        card(Rank::Ace, Suit::Hearts),
    ];
    let (is_flush, _) = PokerGame::get_flush(&cards);
    let (is_straight, _) = PokerGame::get_straight(&cards);
    let (is_royal, _) = PokerGame::get_royal_flush(&cards);
    assert!(is_flush);
    assert!(is_straight);
    assert!(is_royal);
}

#[test]
fn wheel_straight_plays_ace_low() {
    let cards = vec![
        card(Rank::Ace, Suit::Hearts),
        card(Rank::Two, Suit::Spades),
        card(Rank::Three, Suit::Diamonds),
        card(Rank::Four, Suit::Clubs),
        card(Rank::Five, Suit::Spades),
    ];
    let (is_straight, winning) = PokerGame::get_straight(&cards);
    assert!(is_straight);
    let lowest = winning
        .iter()
        .map(|c| c.get_rank().numeric_value())
        .min()
        .expect("non-empty winning cards");
    assert_eq!(lowest, 1);
    let last = winning.last().expect("non-empty");
    assert_eq!(last.get_rank(), Rank::LowAce);
    // the synthetic ace wears the suit of the lowest remaining card
    assert_eq!(last.get_suit(), Suit::Spades);
}

#[test]
fn wheel_requires_exactly_the_five_wheel_ranks() {
    // an extra nine spoils the "ranks exactly {2,3,4,5,14}" condition
    let cards = vec![
        card(Rank::Ace, Suit::Hearts),
        card(Rank::Two, Suit::Spades),
        card(Rank::Three, Suit::Diamonds),
        card(Rank::Four, Suit::Clubs),
        card(Rank::Five, Suit::Spades),
        card(Rank::Nine, Suit::Hearts),
    ];
    let (is_straight, _) = PokerGame::get_straight(&cards);
    assert!(!is_straight);
}

#[test]
fn wheel_category_in_full_evaluation() {
    let evaluated = evaluate(
        vec![card(Rank::Ace, Suit::Hearts), card(Rank::Two, Suit::Spades)],
        vec![
            card(Rank::Three, Suit::Diamonds),
            card(Rank::Four, Suit::Clubs),
            card(Rank::Five, Suit::Spades),
        ],
    );
    let hr = evaluated.hand_rank.expect("hand rank set");
    assert_eq!(hr.hand_rank, 4);
    assert_eq!(hr.hand_rank_name, "Straight");
    assert_eq!(hr.winning_cards.len(), 5);
    let lowest = hr
        .winning_cards
        .iter()
        .map(|c| c.get_rank().numeric_value())
        .min()
        .unwrap();
    assert_eq!(lowest, 1);
}

#[test]
fn plain_straight_is_detected() {
    let cards = vec![
        card(Rank::Six, Suit::Hearts),
        card(Rank::Seven, Suit::Spades),
        card(Rank::Eight, Suit::Diamonds),
        card(Rank::Nine, Suit::Clubs),
        card(Rank::Ten, Suit::Spades),
        card(Rank::King, Suit::Hearts),
    ];
    let (is_straight, winning) = PokerGame::get_straight(&cards);
    assert!(is_straight);
    // the sorted hand comes back whole; the category's subset is its prefix
    assert_eq!(winning.len(), 6);
    assert_eq!(winning[0].get_rank(), Rank::Six);
}

#[test]
fn one_pair_prefers_the_lowest_rank() {
    // pairs at both rank 5 and rank 9: ascending-first-match keeps rank 5
    let cards = vec![
        card(Rank::Five, Suit::Hearts),
        card(Rank::Five, Suit::Spades),
        card(Rank::Nine, Suit::Diamonds),
        card(Rank::Nine, Suit::Clubs),
        card(Rank::King, Suit::Spades),
    ];
    let (is_pair, winning) = PokerGame::get_one_pair(&cards);
    assert!(is_pair);
    assert_eq!(winning.len(), 2);
    assert!(winning.iter().all(|c| c.get_rank() == Rank::Five));
}

#[test]
fn two_pairs_collects_ascending() {
    let cards = vec![
        card(Rank::Nine, Suit::Diamonds),
        card(Rank::Five, Suit::Hearts),
        card(Rank::Nine, Suit::Clubs),
        card(Rank::Five, Suit::Spades),
        card(Rank::King, Suit::Spades),
    ];
    let (is_two, winning) = PokerGame::get_two_pairs(&cards);
    assert!(is_two);
    let values: Vec<u32> = winning.iter().map(|c| c.get_rank().numeric_value()).collect();
    assert_eq!(values, vec![5, 5, 9, 9]);
}

#[test]
fn four_of_a_kind_is_detected() {
    let evaluated = evaluate(
        vec![card(Rank::Seven, Suit::Hearts), card(Rank::Seven, Suit::Spades)],
        vec![
            card(Rank::Seven, Suit::Diamonds),
            card(Rank::Seven, Suit::Clubs),
            card(Rank::King, Suit::Spades),
        ],
    );
    let hr = evaluated.hand_rank.expect("hand rank set");
    assert_eq!(hr.hand_rank, 7);
    assert_eq!(hr.hand_rank_name, "Four of a Kind");
    assert_eq!(hr.winning_cards.len(), 4);
    assert!(hr.winning_cards.iter().all(|c| c.get_rank() == Rank::Seven));
}

#[test]
fn full_house_is_trips_then_pair() {
    let cards = vec![
        card(Rank::Queen, Suit::Hearts),
        card(Rank::Three, Suit::Spades),
        card(Rank::Queen, Suit::Diamonds),
        card(Rank::Three, Suit::Clubs),
        card(Rank::Queen, Suit::Spades),
    ];
    let (is_full, winning) = PokerGame::get_full_house(&cards);
    assert!(is_full);
    let values: Vec<u32> = winning.iter().map(|c| c.get_rank().numeric_value()).collect();
    assert_eq!(values, vec![12, 12, 12, 3, 3]);
}

#[test]
fn flush_needs_one_suit_throughout() {
    let flush_cards = vec![
        card(Rank::Two, Suit::Clubs),
        card(Rank::Nine, Suit::Clubs),
        card(Rank::Jack, Suit::Clubs),
        card(Rank::Four, Suit::Clubs),
        card(Rank::King, Suit::Clubs),
    ];
    let (is_flush, sorted) = PokerGame::get_flush(&flush_cards);
    assert!(is_flush);
    let values: Vec<u32> = sorted.iter().map(|c| c.get_rank().numeric_value()).collect();
    assert_eq!(values, vec![2, 4, 9, 11, 13]);

    let mut mixed = flush_cards.clone();
    mixed.push(card(Rank::Five, Suit::Hearts));
    let (is_flush, _) = PokerGame::get_flush(&mixed);
    assert!(!is_flush);
}

#[test]
fn straight_flush_outranks_flush() {
    let evaluated = evaluate(
        vec![card(Rank::Five, Suit::Diamonds), card(Rank::Six, Suit::Diamonds)],
        vec![
            card(Rank::Seven, Suit::Diamonds),
            card(Rank::Eight, Suit::Diamonds),
            card(Rank::Nine, Suit::Diamonds),
        ],
    );
    let hr = evaluated.hand_rank.expect("hand rank set");
    assert_eq!(hr.hand_rank, 8);
    assert_eq!(hr.hand_rank_name, "Straight Flush");
}

#[test]
fn three_of_a_kind_is_detected() {
    let evaluated = evaluate(
        vec![card(Rank::Four, Suit::Hearts), card(Rank::Four, Suit::Spades)],
        vec![
            card(Rank::Four, Suit::Diamonds),
            card(Rank::Nine, Suit::Clubs),
            card(Rank::King, Suit::Spades),
        ],
    );
    let hr = evaluated.hand_rank.expect("hand rank set");
    assert_eq!(hr.hand_rank, 3);
    assert_eq!(hr.hand_rank_name, "Three of a Kind");
    assert_eq!(hr.winning_cards.len(), 3);
}

#[test]
fn high_card_keeps_the_hole_cards() {
    let evaluated = evaluate(
        vec![card(Rank::Two, Suit::Hearts), card(Rank::Nine, Suit::Spades)],
        vec![
            card(Rank::Four, Suit::Diamonds),
            card(Rank::Jack, Suit::Clubs),
            card(Rank::King, Suit::Spades),
        ],
    );
    let hr = evaluated.hand_rank.expect("hand rank set");
    assert_eq!(hr.hand_rank, 0);
    assert_eq!(hr.hand_rank_name, "High Card");
    assert_eq!(hr.winning_cards.len(), 2);
    assert_eq!(hr.high_card.get_rank(), Rank::Two);
}

#[test]
fn kicker_excludes_only_numeric_labels() {
    // top value 10: its label is numeric, so the tens are excluded
    let cards = vec![
        card(Rank::Ten, Suit::Spades),
        card(Rank::Ten, Suit::Hearts),
        card(Rank::Four, Suit::Diamonds),
    ];
    let (value, kicker) = PokerGame::get_kicker(&cards, 10);
    assert_eq!(value, Some(4));
    assert_eq!(kicker.unwrap().get_rank(), Rank::Four);

    // top value 13: "King" does not parse as a number, nothing is excluded
    let cards = vec![card(Rank::King, Suit::Spades), card(Rank::Two, Suit::Diamonds)];
    let (value, kicker) = PokerGame::get_kicker(&cards, 13);
    assert_eq!(value, Some(13));
    assert_eq!(kicker.unwrap().get_rank(), Rank::King);
}

#[test]
fn high_card_rank_finds_the_maximum() {
    let cards = vec![
        card(Rank::Nine, Suit::Spades),
        card(Rank::Ace, Suit::Hearts),
        card(Rank::Four, Suit::Diamonds),
    ];
    let (value, high) = PokerGame::get_high_card_rank(&cards);
    assert_eq!(value, Some(14));
    assert_eq!(high.unwrap().get_rank(), Rank::Ace);
    assert_eq!(PokerGame::get_high_card_rank(&Vec::new()), (None, None));
}

#[test]
fn card_rank_values() {
    assert_eq!(PokerGame::get_card_rank(&card(Rank::Ace, Suit::Spades)), Some(14));
    assert_eq!(PokerGame::get_card_rank(&card(Rank::King, Suit::Spades)), Some(13));
    assert_eq!(PokerGame::get_card_rank(&card(Rank::Queen, Suit::Spades)), Some(12));
    assert_eq!(PokerGame::get_card_rank(&card(Rank::Jack, Suit::Spades)), Some(11));
    assert_eq!(PokerGame::get_card_rank(&card(Rank::Ten, Suit::Spades)), Some(10));
    assert_eq!(PokerGame::get_card_rank(&card(Rank::Two, Suit::Spades)), Some(2));
    assert_eq!(PokerGame::get_card_rank(&card(Rank::LowAce, Suit::Spades)), Some(1));
}

#[test]
fn sorted_cards_ascend_by_value() {
    let g = game_of(vec![
        Player::new(PlayerVersion::AutoPlayer, 1, String::from("Alice"), 100),
        Player::new(PlayerVersion::AutoPlayer, 2, String::from("Bob"), 100),
    ]);
    let mut hand = vec![
        card(Rank::King, Suit::Spades),
        card(Rank::Two, Suit::Hearts),
        card(Rank::Ten, Suit::Diamonds),
        card(Rank::Ace, Suit::Clubs),
    ];
    let sorted = g.get_sorted_cards(&mut hand);
    let values: Vec<u32> = sorted.iter().map(|c| c.get_rank().numeric_value()).collect();
    assert_eq!(values, vec![2, 10, 13, 14]);
    assert_eq!(hand, sorted);
}
