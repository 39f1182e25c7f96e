//! The player ledger: per-player stack, current-round bet, folded flag,
//! hole cards and showdown hand rank, together with the wagering action
//! types and the automatic decision policy.

use vstd::prelude::*;

use crate::card::Card;
use crate::hand::HandRank;
use crate::rng::{random_below, random_between};

verus! {

/// The wagering actions a decision policy can choose.
#[derive(Clone, Copy, PartialEq, Eq, Structural, Debug)]
pub enum PlayerAction {
    Check,
    Bet,
    Raise,
    Call,
    Fold,
}

/// What a funds deduction is for. Blinds are forced bets posted before the
/// deal and do not count towards the player's current-round bet.
#[derive(Clone, Copy, PartialEq, Eq, Structural, Debug)]
pub enum FundsPurpose {
    Blinds,
    Bet,
    Raise,
    Call,
}

/// Why a funds request was refused. Callers that only need a
/// zero-on-failure outcome can treat any error as a zero transfer.
#[derive(Clone, Copy, PartialEq, Eq, Structural, Debug)]
pub enum FundsError {
    /// The requester is not the game's dealer.
    Unauthorized,
    /// The amount exceeds the player's stack.
    InsufficientFunds,
}

/// The capability a requester presents when asking a player for funds or
/// cards. Only the game's dealer is honoured.
#[derive(Clone, Copy, PartialEq, Eq, Structural, Debug)]
pub enum Requester {
    GameDealer,
    Outsider,
}

/// What a decision policy hands back: the chosen action, whether choosing
/// succeeded at all, and an amount for the actions that carry one.
#[derive(Clone, Copy, PartialEq, Eq, Structural, Debug)]
pub struct ActionResult {
    pub action: PlayerAction,
    pub success: bool,
    pub amount: Option<u32>,
}

/// The kinds of decision policy a player can run.
#[derive(Clone, Copy, PartialEq, Eq, Structural, Debug)]
pub enum PlayerVersion {
    /// Chooses uniformly among the actions its stack allows.
    AutoPlayer,
}

/// A player's ledger for the lifetime of one hand.
#[derive(Debug)]
pub struct Player {
    pub player_type: PlayerVersion,
    pub id: u32,
    pub username: String,
    pub coins: u32,
    pub folded: bool,
    pub hand_cards: Vec<Card>,
    pub current_bet: u32,
    pub hand_rank: Option<HandRank>,
}

impl Player {
    /// The ledger's arithmetic headroom: what the player has wagered this
    /// round plus what is left in the stack never exceeds the counter's
    /// range. Betting moves funds from one side to the other, so the sum
    /// never grows.
    pub open spec fn wf(self) -> bool {
        self.current_bet + self.coins <= u32::MAX
    }

    pub fn new(player_type: PlayerVersion, id: u32, username: String, coins: u32) -> (p: Player)
        ensures
            p == (Player {
                player_type,
                id,
                username,
                coins,
                folded: false,
                hand_cards: p.hand_cards,
                current_bet: 0,
                hand_rank: None::<HandRank>,
            }),
            p.hand_cards@ == Seq::<Card>::empty(),
            p.wf(),
    {
        Player {
            player_type,
            id,
            username,
            coins,
            folded: false,
            hand_cards: Vec::new(),
            current_bet: 0,
            hand_rank: None,
        }
    }

    pub fn get_player_id(&self) -> (r: u32)
        ensures
            r == self.id,
    {
        self.id
    }

    pub fn get_player_username(&self) -> (r: String)
        ensures
            r == self.username,
    {
        self.username.clone()
    }

    pub fn get_coins(&self) -> (r: u32)
        ensures
            r == self.coins,
    {
        self.coins
    }

    pub fn set_coins(&mut self, coins: u32)
        requires
            old(self).current_bet + coins <= u32::MAX,
        ensures
            *final(self) == (Player { coins, ..*old(self) }),
            final(self).wf(),
    {
        self.coins = coins;
    }

    pub fn increase_bet(&mut self, amount: u32)
        requires
            old(self).current_bet + amount + old(self).coins <= u32::MAX,
        ensures
            *final(self) == (Player {
                current_bet: (old(self).current_bet + amount) as u32,
                ..*old(self)
            }),
            final(self).wf(),
    {
        self.current_bet = self.current_bet + amount;
    }

    pub fn get_current_bet(&self) -> (r: u32)
        ensures
            r == self.current_bet,
    {
        self.current_bet
    }

    pub fn get_folded(&self) -> (r: bool)
        ensures
            r == self.folded,
    {
        self.folded
    }

    /// Synonym of [`Player::get_folded`] kept for the betting engine's
    /// vocabulary.
    pub fn has_player_folded(&self) -> (r: bool)
        ensures
            r == self.folded,
    {
        self.folded
    }

    pub fn set_folded(&mut self, fold: bool)
        ensures
            *final(self) == (Player { folded: fold, ..*old(self) }),
    {
        self.folded = fold;
    }

    /// Marks the player folded for the rest of the hand.
    pub fn fold(&mut self)
        ensures
            *final(self) == (Player { folded: true, ..*old(self) }),
    {
        self.set_folded(true);
    }

    pub fn get_current_hand(&mut self) -> (r: &mut Vec<Card>)
        ensures
            *r == old(self).hand_cards,
            *final(self) == (Player { hand_cards: *final(r), ..*old(self) }),
    {
        &mut self.hand_cards
    }

    pub fn get_hand_length(&self) -> (r: usize)
        ensures
            r == self.hand_cards.len(),
    {
        self.hand_cards.len()
    }

    pub fn set_handrank(&mut self, handrank: HandRank)
        ensures
            *final(self) == (Player { hand_rank: Some(handrank), ..*old(self) }),
    {
        self.hand_rank = Some(handrank);
    }

    pub fn get_handrank(&self) -> (r: &Option<HandRank>)
        ensures
            r == &self.hand_rank,
    {
        &self.hand_rank
    }

    /// Accepts a dealt card into the hole cards. A card only lands while
    /// the hand holds fewer than two; an absent card or a full hand leaves
    /// the ledger unchanged.
    pub fn receive_card(&mut self, card: Option<Card>)
        ensures
            match card {
                Some(c) => {
                    if old(self).hand_cards.len() < 2 {
                        *final(self) == (Player {
                            hand_cards: final (self).hand_cards,
                            ..*old(self)
                        }) && final (self).hand_cards@ == old(self).hand_cards@.push(c)
                    } else {
                        *final(self) == *old(self)
                    }
                },
                None => *final(self) == *old(self),
            },
    {
        if self.hand_cards.len() < 2 {
            if let Some(c) = card {
                self.hand_cards.push(c);
            }
        }
    }

    /// Moves `amount` out of the stack for the given purpose; every purpose
    /// except posting blinds also counts towards the current-round bet. A
    /// stack too small for the amount refuses the whole transfer: there is
    /// no partial application.
    pub fn deduct_funds(&mut self, purpose: FundsPurpose, amount: u32) -> (r: Result<
        u32,
        FundsError,
    >)
        requires
            old(self).wf(),
        ensures
            final (self).wf(),
            amount <= old(self).coins ==> {
                &&& r == Ok::<u32, FundsError>(amount)
                &&& final (self).coins == old(self).coins - amount
                &&& final (self).current_bet == if purpose == FundsPurpose::Blinds {
                    old(self).current_bet as int
                } else {
                    old(self).current_bet + amount
                }
                &&& *final (self) == (Player {
                    coins: final (self).coins,
                    current_bet: final (self).current_bet,
                    ..*old(self)
                })
            },
            amount > old(self).coins ==> r == Err::<u32, FundsError>(
                FundsError::InsufficientFunds,
            ) && *final (self) == *old(self),
    {
        if amount <= self.coins {
            let remaining = self.coins - amount;
            self.set_coins(remaining);
            match purpose {
                FundsPurpose::Blinds => {},
                _ => {
                    self.increase_bet(amount);
                },
            }
            Ok(amount)
        } else {
            Err(FundsError::InsufficientFunds)
        }
    }

    /// A funds request gated by the requester capability: only the game's
    /// dealer may move a player's funds.
    pub fn request_funds(&mut self, amount: u32, purpose: FundsPurpose, requester: Requester) -> (r:
        Result<u32, FundsError>)
        requires
            old(self).wf(),
        ensures
            final (self).wf(),
            requester != Requester::GameDealer ==> r == Err::<u32, FundsError>(
                FundsError::Unauthorized,
            ) && *final (self) == *old(self),
            requester == Requester::GameDealer && amount <= old(self).coins ==> {
                &&& r == Ok::<u32, FundsError>(amount)
                &&& final (self).coins == old(self).coins - amount
                &&& final (self).current_bet == if purpose == FundsPurpose::Blinds {
                    old(self).current_bet as int
                } else {
                    old(self).current_bet + amount
                }
                &&& *final (self) == (Player {
                    coins: final (self).coins,
                    current_bet: final (self).current_bet,
                    ..*old(self)
                })
            },
            requester == Requester::GameDealer && amount > old(self).coins ==> r == Err::<
                u32,
                FundsError,
            >(FundsError::InsufficientFunds) && *final (self) == *old(self),
    {
        match requester {
            Requester::GameDealer => self.deduct_funds(purpose, amount),
            Requester::Outsider => Err(FundsError::Unauthorized),
        }
    }

    /// A card request gated by the same capability: only the game's dealer
    /// may look at a player's hole cards.
    pub fn request_hand_cards(&self, requester: Requester) -> (r: Option<&Vec<Card>>)
        ensures
            requester == Requester::GameDealer ==> r == Some(&self.hand_cards),
            requester != Requester::GameDealer ==> r is None,
    {
        match requester {
            Requester::GameDealer => Some(&self.hand_cards),
            Requester::Outsider => None,
        }
    }

    /// The automatic policy's bet size: the whole stack when the minimum
    /// already exceeds it, otherwise a random amount between one coin and
    /// the stack.
    pub fn get_bet_amount(&self, minimum_bet: u32) -> (r: u32)
        requires
            self.coins > 0 || minimum_bet > 0,
        ensures
            minimum_bet > self.coins ==> r == self.coins,
            minimum_bet <= self.coins ==> 1 <= r <= self.coins,
    {
        if minimum_bet > self.coins {
            self.coins
        } else {
            random_between(1, self.coins)
        }
    }

    /// The automatic policy's raise size: a random amount between one coin
    /// and the smaller of the stack and 100.
    pub fn get_raise_amount(&self) -> (r: u32)
        requires
            self.coins > 0,
        ensures
            1 <= r <= self.coins,
            r <= 100,
    {
        let cap = if self.coins < 100 {
            self.coins
        } else {
            100
        };
        random_between(1, cap)
    }

    /// Asks the player's decision policy for an action given the table's
    /// minimum bet. A folded player cannot act and reports failure; a
    /// player out of coins only checks or folds; otherwise any action can
    /// come back, with an amount attached to bets and raises.
    pub fn get_action(&self, minimum_bet: u32) -> (r: ActionResult)
        ensures
            r.success == !self.folded,
            self.folded ==> r.action == PlayerAction::Fold && r.amount is None,
            !self.folded && self.coins == 0 ==> (r.action == PlayerAction::Check || r.action
                == PlayerAction::Fold) && r.amount is None,
            !self.folded ==> match r.action {
                PlayerAction::Bet => {
                    &&& r.amount is Some
                    &&& (minimum_bet > self.coins ==> r.amount == Some(self.coins))
                    &&& (minimum_bet <= self.coins ==> 1 <= r.amount->0 <= self.coins)
                },
                PlayerAction::Raise => r.amount is Some && 1 <= r.amount->0 <= self.coins
                    && r.amount->0 <= 100,
                _ => r.amount is None,
            },
    {
        match self.player_type {
            PlayerVersion::AutoPlayer => self.auto_action(minimum_bet),
        }
    }

    /// The automatic policy: choose uniformly among the actions the stack
    /// allows, then size the wager for bets and raises.
    fn auto_action(&self, minimum_bet: u32) -> (r: ActionResult)
        ensures
            r.success == !self.folded,
            self.folded ==> r.action == PlayerAction::Fold && r.amount is None,
            !self.folded && self.coins == 0 ==> (r.action == PlayerAction::Check || r.action
                == PlayerAction::Fold) && r.amount is None,
            !self.folded ==> match r.action {
                PlayerAction::Bet => {
                    &&& r.amount is Some
                    &&& (minimum_bet > self.coins ==> r.amount == Some(self.coins))
                    &&& (minimum_bet <= self.coins ==> 1 <= r.amount->0 <= self.coins)
                },
                PlayerAction::Raise => r.amount is Some && 1 <= r.amount->0 <= self.coins
                    && r.amount->0 <= 100,
                _ => r.amount is None,
            },
    {
        if self.folded {
            return ActionResult { action: PlayerAction::Fold, success: false, amount: None };
        }
        if self.coins == 0 {
            let pick = random_below(2);
            let action = if pick == 0 {
                PlayerAction::Check
            } else {
                PlayerAction::Fold
            };
            return ActionResult { action, success: true, amount: None };
        }
        let pick = random_below(5);
        if pick == 0 {
            ActionResult { action: PlayerAction::Check, success: true, amount: None }
        } else if pick == 1 {
            let amount = self.get_bet_amount(minimum_bet);
            ActionResult { action: PlayerAction::Bet, success: true, amount: Some(amount) }
        } else if pick == 2 {
            let amount = self.get_raise_amount();
            ActionResult { action: PlayerAction::Raise, success: true, amount: Some(amount) }
        } else if pick == 3 {
            ActionResult { action: PlayerAction::Call, success: true, amount: None }
        } else {
            ActionResult { action: PlayerAction::Fold, success: true, amount: None }
        }
    }
}

impl Clone for Player {
    /// A copy of the ledger; the hole cards and showdown rank keep their
    /// contents, and all plain fields carry over.
    fn clone(&self) -> (res: Self)
        ensures
            res.player_type == self.player_type,
            res.id == self.id,
            res.username == self.username,
            res.coins == self.coins,
            res.folded == self.folded,
            res.hand_cards@ == self.hand_cards@,
            res.current_bet == self.current_bet,
            res.hand_rank is Some <==> self.hand_rank is Some,
    {
        let hand_cards = self.hand_cards.clone();
        proof {
            assert(hand_cards@ =~= self.hand_cards@);
        }
        let hand_rank = match &self.hand_rank {
            Some(hr) => Some(hr.clone()),
            None => None,
        };
        Player {
            player_type: self.player_type,
            id: self.id,
            username: self.username.clone(),
            coins: self.coins,
            folded: self.folded,
            hand_cards,
            current_bet: self.current_bet,
            hand_rank,
        }
    }
}

} // verus!
