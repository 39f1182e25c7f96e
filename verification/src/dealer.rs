//! The dealer: owns the deck, deals hole cards, opens community cards, and
//! is the one requester players honour for funds and card requests.

use vstd::prelude::*;

use crate::card::{Card, Rank, Suit};
use crate::player::{FundsPurpose, Player, Requester};
use crate::rng::{random_label, shuffle_in_place};

verus! {

/// The card a freshly generated deck holds at position `i`: thirteen ranks
/// (two up to ace) within each of the four suits, repeated per deck.
pub open spec fn nth_deck_card(i: int) -> Card {
    Card { rank: nth_rank(i % 13), suit: nth_suit((i % 52) / 13) }
}

/// The rank at position `j` of the generation order (0 is Two, 12 is Ace).
pub open spec fn nth_rank(j: int) -> Rank {
    if j == 0 {
        Rank::Two
    } else if j == 1 {
        Rank::Three
    } else if j == 2 {
        Rank::Four
    } else if j == 3 {
        Rank::Five
    } else if j == 4 {
        Rank::Six
    } else if j == 5 {
        Rank::Seven
    } else if j == 6 {
        Rank::Eight
    } else if j == 7 {
        Rank::Nine
    } else if j == 8 {
        Rank::Ten
    } else if j == 9 {
        Rank::Jack
    } else if j == 10 {
        Rank::Queen
    } else if j == 11 {
        Rank::King
    } else {
        Rank::Ace
    }
}

/// The suit at position `j` of the generation order.
pub open spec fn nth_suit(j: int) -> Suit {
    if j == 0 {
        Suit::Spades
    } else if j == 1 {
        Suit::Hearts
    } else if j == 2 {
        Suit::Diamonds
    } else {
        Suit::Clubs
    }
}

/// The dealer. The deck's top is the vector's end: dealing pops from the
/// back.
#[derive(Debug)]
pub struct Dealer {
    pub dealer_id: String,
    pub dealer_type: String,
    pub deck_id: Option<String>,
    pub deck: Option<Vec<Card>>,
}

impl Dealer {
    pub fn new(dealer_type: String) -> (d: Dealer)
        ensures
            d.dealer_type == dealer_type,
            d.deck_id is None,
            d.deck is None,
            d.dealer_id@.len() >= "dlr-"@.len(),
            d.dealer_id@.take("dlr-"@.len() as int) == "dlr-"@,
    {
        let dealer_id = random_label("dlr-");
        Dealer { dealer_id, dealer_type, deck_id: None, deck: None }
    }

    pub fn get_dealer_id(&self) -> (r: &str)
        ensures
            r@ == self.dealer_id@,
    {
        self.dealer_id.as_str()
    }

    pub fn get_dealer_type(&self) -> (r: &str)
        ensures
            r@ == self.dealer_type@,
    {
        self.dealer_type.as_str()
    }

    pub fn get_deck_id(&self) -> (r: &str)
        ensures
            match self.deck_id {
                Some(id) => r@ == id@,
                None => r@ == ""@,
            },
    {
        match &self.deck_id {
            Some(id) => id.as_str(),
            None => "",
        }
    }

    /// Pops the top card; `None` when there is no deck or it is empty.
    fn get_a_card(&mut self) -> (r: Option<Card>)
        ensures
            match old(self).deck {
                Some(d) => {
                    if d.len() > 0 {
                        &&& r == Some(d@.last())
                        &&& final (self).deck matches Some(rest) && rest@ == d@.drop_last()
                        &&& *final (self) == (Dealer { deck: final (self).deck, ..*old(self) })
                    } else {
                        r is None && *final (self) == *old(self)
                    }
                },
                None => r is None && *final (self) == *old(self),
            },
    {
        match &mut self.deck {
            Some(deck) => {
                if deck.len() > 0 {
                    deck.pop()
                } else {
                    None
                }
            },
            None => None,
        }
    }

    /// Builds the static deck: `num_decks` copies of the 52 cards, in
    /// generation order, but only when no deck with cards exists yet.
    /// Returns whether a new deck was generated.
    pub fn generate_cards(&mut self, num_decks: usize) -> (r: bool)
        requires
            num_decks * 52 <= usize::MAX,
        ensures
            r == match old(self).deck {
                Some(d) => d.len() == 0,
                None => true,
            },
            r ==> {
                &&& final (self).deck matches Some(d) && d@.len() == num_decks * 52 && (forall|
                    i: int,
                |
                    0 <= i < d@.len() ==> d@[i] == nth_deck_card(i))
                &&& final (self).deck_id is Some
                &&& final (self).dealer_id == old(self).dealer_id
                &&& final (self).dealer_type == old(self).dealer_type
            },
            !r ==> *final (self) == *old(self),
    {
        let fresh = match &self.deck {
            Some(d) => d.len() == 0,
            None => true,
        };
        if !fresh {
            return false;
        }
        let total = num_decks * 52;
        let mut cards: Vec<Card> = Vec::new();
        let mut i: usize = 0;
        while i < total
            invariant
                i <= total,
                total == num_decks * 52,
                cards@.len() == i,
                forall|k: int| 0 <= k < i ==> cards@[k] == nth_deck_card(k),
            decreases total - i,
        {
            let within = i % 52;
            let suit_idx = within / 13;
            let rank_idx = i % 13;
            let suit = if suit_idx == 0 {
                Suit::Spades
            } else if suit_idx == 1 {
                Suit::Hearts
            } else if suit_idx == 2 {
                Suit::Diamonds
            } else {
                Suit::Clubs
            };
            let rank = if rank_idx == 0 {
                Rank::Two
            } else if rank_idx == 1 {
                Rank::Three
            } else if rank_idx == 2 {
                Rank::Four
            } else if rank_idx == 3 {
                Rank::Five
            } else if rank_idx == 4 {
                Rank::Six
            } else if rank_idx == 5 {
                Rank::Seven
            } else if rank_idx == 6 {
                Rank::Eight
            } else if rank_idx == 7 {
                Rank::Nine
            } else if rank_idx == 8 {
                Rank::Ten
            } else if rank_idx == 9 {
                Rank::Jack
            } else if rank_idx == 10 {
                Rank::Queen
            } else if rank_idx == 11 {
                Rank::King
            } else {
                Rank::Ace
            };
            cards.push(Card::new(rank, suit));
            i = i + 1;
        }
        self.deck_id = Some(random_label("deck-"));
        self.deck = Some(cards);
        true
    }

    pub fn get_deck(&self) -> (r: &Option<Vec<Card>>)
        ensures
            r == &self.deck,
    {
        &self.deck
    }

    /// Shuffles the deck in place; without a deck this does nothing.
    pub fn shuffle_cards(&mut self)
        ensures
            match old(self).deck {
                Some(d) => final (self).deck matches Some(p) && p@.to_multiset()
                    == d@.to_multiset() && p@.len() == d@.len() && *final (self) == (Dealer {
                    deck: final (self).deck,
                    ..*old(self)
                }),
                None => *final (self) == *old(self),
            },
    {
        match &mut self.deck {
            Some(deck) => {
                shuffle_in_place(deck);
            },
            None => {},
        }
    }

    /// Deals two cards off the top of the deck into the player's hole
    /// cards. The pops happen even when the player's hand is already full;
    /// a card that cannot land is discarded, and a missing or exhausted
    /// deck deals nothing.
    pub fn deal_player(&mut self, player: &mut Player)
        ensures
            final (self).dealer_id == old(self).dealer_id,
            final (self).dealer_type == old(self).dealer_type,
            final (self).deck_id == old(self).deck_id,
            *final (player) == (Player { hand_cards: final (player).hand_cards, ..*old(player) }),
            match old(self).deck {
                Some(d) => {
                    if d.len() >= 2 {
                        &&& final (self).deck matches Some(rest) && rest@ == d@.take(d@.len() - 2)
                        &&& (old(player).hand_cards.len() == 0 ==> final (player).hand_cards@ == old(
                            player,
                        ).hand_cards@.push(d@.last()).push(d@[d@.len() - 2]))
                        &&& (old(player).hand_cards.len() == 1 ==> final (player).hand_cards@
                            == old(player).hand_cards@.push(d@.last()))
                        &&& (old(player).hand_cards.len() >= 2 ==> final (player).hand_cards == old(
                            player,
                        ).hand_cards)
                    } else if d.len() == 1 {
                        &&& final (self).deck matches Some(rest) && rest@ == d@.drop_last()
                        &&& (old(player).hand_cards.len() < 2 ==> final (player).hand_cards@ == old(
                            player,
                        ).hand_cards@.push(d@.last()))
                        &&& (old(player).hand_cards.len() >= 2 ==> final (player).hand_cards == old(
                            player,
                        ).hand_cards)
                    } else {
                        final (self).deck == old(self).deck && final (player).hand_cards == old(
                            player,
                        ).hand_cards
                    }
                },
                None => final (self).deck == old(self).deck && final (player).hand_cards == old(
                    player,
                ).hand_cards,
            },
    {
        if self.deck.is_some() {
            let first = self.get_a_card();
            player.receive_card(first);
            let second = self.get_a_card();
            player.receive_card(second);
        }
    }

    /// Opens `number_of_cards` cards off the top for the community reveal;
    /// `None` when the dealer holds no deck.
    pub fn open_cards(&mut self, number_of_cards: usize) -> (r: Option<Vec<Card>>)
        requires
            old(self).deck matches Some(d) ==> d.len() >= number_of_cards,
        ensures
            match old(self).deck {
                Some(d) => {
                    &&& r matches Some(opened) && opened@ == d@.subrange(
                        d@.len() - number_of_cards,
                        d@.len() as int,
                    ).reverse()
                    &&& final (self).deck matches Some(rest) && rest@ == d@.take(
                        d@.len() - number_of_cards,
                    )
                    &&& *final (self) == (Dealer { deck: final (self).deck, ..*old(self) })
                },
                None => r is None && *final (self) == *old(self),
            },
    {
        if self.deck.is_none() {
            return None;
        }
        let ghost d = old(self).deck->0@;
        let mut opened: Vec<Card> = Vec::new();
        let mut idx: usize = 0;
        while idx < number_of_cards
            invariant
                idx <= number_of_cards,
                old(self).deck matches Some(od) && od@ == d,
                d.len() >= number_of_cards,
                self.deck matches Some(rest) && rest@ == d.take(d.len() - idx),
                opened@.len() == idx,
                forall|k: int| 0 <= k < idx ==> opened@[k] == d[d.len() - 1 - k],
                self.dealer_id == old(self).dealer_id,
                self.dealer_type == old(self).dealer_type,
                self.deck_id == old(self).deck_id,
            decreases number_of_cards - idx,
        {
            let c = self.get_a_card();
            match c {
                Some(card) => {
                    opened.push(card);
                },
                None => {
                    proof {
                        assert(false);
                    }
                },
            }
            idx = idx + 1;
        }
        proof {
            let tail = d.subrange(d.len() - number_of_cards, d.len() as int).reverse();
            assert(opened@ =~= tail);
        }
        Some(opened)
    }

    /// Hands back a copy of the player's hole cards, obtained through the
    /// dealer's capability.
    pub fn request_player_hand(&self, player: &Player) -> (r: Option<Vec<Card>>)
        ensures
            r matches Some(cards) && cards@ == player.hand_cards@,
    {
        match player.request_hand_cards(Requester::GameDealer) {
            Some(cards) => {
                let copy = cards.clone();
                proof {
                    assert(copy@ =~= player.hand_cards@);
                }
                Some(copy)
            },
            None => None,
        }
    }

    /// Posts a blind: an authorized funds request that does not count
    /// towards the player's current-round bet. Returns the amount actually
    /// transferred, zero when the stack was too small.
    pub fn post_blinds(&self, player: &mut Player, amount: u32) -> (r: u32)
        requires
            old(player).wf(),
        ensures
            final (player).wf(),
            amount <= old(player).coins ==> r == amount && *final (player) == (Player {
                coins: (old(player).coins - amount) as u32,
                ..*old(player)
            }),
            amount > old(player).coins ==> r == 0 && *final (player) == *old(player),
    {
        match player.request_funds(amount, FundsPurpose::Blinds, Requester::GameDealer) {
            Ok(transferred) => transferred,
            Err(_) => 0,
        }
    }

    /// An authorized bet: moves the amount from stack to current-round bet.
    /// Returns the amount actually transferred, zero when the stack was too
    /// small.
    pub fn player_bet(&self, player: &mut Player, amount: u32) -> (r: u32)
        requires
            old(player).wf(),
        ensures
            final (player).wf(),
            amount <= old(player).coins ==> r == amount && *final (player) == (Player {
                coins: (old(player).coins - amount) as u32,
                current_bet: (old(player).current_bet + amount) as u32,
                ..*old(player)
            }),
            amount > old(player).coins ==> r == 0 && *final (player) == *old(player),
    {
        match player.request_funds(amount, FundsPurpose::Bet, Requester::GameDealer) {
            Ok(transferred) => transferred,
            Err(_) => 0,
        }
    }

    /// An authorized raise; same fund movement as a bet.
    pub fn player_raise(&self, player: &mut Player, amount: u32) -> (r: u32)
        requires
            old(player).wf(),
        ensures
            final (player).wf(),
            amount <= old(player).coins ==> r == amount && *final (player) == (Player {
                coins: (old(player).coins - amount) as u32,
                current_bet: (old(player).current_bet + amount) as u32,
                ..*old(player)
            }),
            amount > old(player).coins ==> r == 0 && *final (player) == *old(player),
    {
        match player.request_funds(amount, FundsPurpose::Raise, Requester::GameDealer) {
            Ok(transferred) => transferred,
            Err(_) => 0,
        }
    }

    /// An authorized call; same fund movement as a bet.
    pub fn player_call(&self, player: &mut Player, amount: u32) -> (r: u32)
        requires
            old(player).wf(),
        ensures
            final (player).wf(),
            amount <= old(player).coins ==> r == amount && *final (player) == (Player {
                coins: (old(player).coins - amount) as u32,
                current_bet: (old(player).current_bet + amount) as u32,
                ..*old(player)
            }),
            amount > old(player).coins ==> r == 0 && *final (player) == *old(player),
    {
        match player.request_funds(amount, FundsPurpose::Call, Requester::GameDealer) {
            Ok(transferred) => transferred,
            Err(_) => 0,
        }
    }
}

} // verus!
