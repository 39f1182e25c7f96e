//! The game controller and betting round engine: blinds, wager validation,
//! pot tracking, turn taking, phase sequencing, and showdown.

use vstd::prelude::*;

use crate::card::Card;
use crate::dealer::Dealer;
use crate::hand::{hand_rank_ok, has_kicker};
use crate::player::{Player, PlayerAction};
use crate::rng::{random_below, random_label};

verus! {

/// The game phases, in their one and only forward order.
#[derive(Clone, Copy, PartialEq, Eq, Structural, Debug)]
pub enum GamePhase {
    Initial,
    PreFlop,
    Flop,
    Turn,
    River,
    Showdown,
}

/// The position of a phase in the forward order.
pub open spec fn phase_rank(p: GamePhase) -> int {
    match p {
        GamePhase::Initial => 0,
        GamePhase::PreFlop => 1,
        GamePhase::Flop => 2,
        GamePhase::Turn => 3,
        GamePhase::River => 4,
        GamePhase::Showdown => 5,
    }
}

/// The total coins sitting in the players' stacks.
pub open spec fn sum_coins(s: Seq<Player>) -> int
    decreases s.len(),
{
    if s.len() == 0 {
        0
    } else {
        sum_coins(s.drop_last()) + s.last().coins
    }
}

/// How many players have not folded.
pub open spec fn active_count(s: Seq<Player>) -> int
    decreases s.len(),
{
    if s.len() == 0 {
        0
    } else {
        active_count(s.drop_last()) + if s.last().folded {
            0int
        } else {
            1int
        }
    }
}

pub proof fn lemma_sum_coins_nonneg(s: Seq<Player>)
    ensures
        sum_coins(s) >= 0,
    decreases s.len(),
{
    if s.len() > 0 {
        lemma_sum_coins_nonneg(s.drop_last());
    }
}

/// Replacing one player changes the stack total by the difference of that
/// player's coins.
pub proof fn lemma_sum_coins_update(s: Seq<Player>, i: int, p: Player)
    requires
        0 <= i < s.len(),
    ensures
        sum_coins(s.update(i, p)) == sum_coins(s) - s[i].coins + p.coins,
    decreases s.len(),
{
    if i == s.len() - 1 {
        assert(s.update(i, p).drop_last() =~= s.drop_last());
    } else {
        lemma_sum_coins_update(s.drop_last(), i, p);
        assert(s.update(i, p).drop_last() =~= s.drop_last().update(i, p));
    }
}

/// No single stack exceeds the total of all stacks.
pub proof fn lemma_coins_le_sum(s: Seq<Player>, i: int)
    requires
        0 <= i < s.len(),
    ensures
        s[i].coins <= sum_coins(s),
    decreases s.len(),
{
    lemma_sum_coins_nonneg(s.drop_last());
    if i < s.len() - 1 {
        lemma_coins_le_sum(s.drop_last(), i);
    }
}

/// Two player rosters of equal length whose stacks agree seat by seat have
/// the same stack total.
pub proof fn lemma_sum_coins_frame(s: Seq<Player>, t: Seq<Player>)
    requires
        s.len() == t.len(),
        forall|i: int| 0 <= i < s.len() ==> (#[trigger] t[i]).coins == s[i].coins,
    ensures
        sum_coins(s) == sum_coins(t),
    decreases s.len(),
{
    if s.len() > 0 {
        lemma_sum_coins_frame(s.drop_last(), t.drop_last());
    }
}


/// How a betting round pass ended: the round-over condition was reached,
/// an invalid or failed action aborted the pass, or the iteration cap ran
/// out with the round still ongoing.
#[derive(Clone, Copy, PartialEq, Eq, Structural, Debug)]
pub enum RoundStatus {
    Over,
    Aborted,
    Ongoing,
}



/// Why phase progression halted without reaching showdown.
#[derive(Clone, Copy, PartialEq, Eq, Structural, Debug)]
pub enum PlayHalt {
    /// No deck, or blinds enabled but not posted, or blinds never chosen.
    DealerNotReady,
    /// Some player still holds no hole cards.
    PlayersNotReady,
    /// A betting pass aborted on a failed or invalid action.
    RoundAborted,
    /// A betting pass ran out of its iteration cap with the round ongoing.
    RoundStalled,
}

/// How a full play of the hand ended.
#[derive(Debug)]
pub enum PlayOutcome {
    Finished(ShowdownOutcome),
    Halted(PlayHalt),
}

/// How many community cards are still to be revealed from a phase onwards.
pub open spec fn pending_reveals(p: GamePhase) -> int {
    match p {
        GamePhase::Initial => 5,
        GamePhase::PreFlop => 5,
        GamePhase::Flop => 5,
        GamePhase::Turn => 2,
        GamePhase::River => 1,
        GamePhase::Showdown => 0,
    }
}


/// Pot conservation: across any stretch of the hand that conserves the
/// funds in play — as every wagering operation and betting pass here
/// promises — the pot grows by exactly what the players' stacks lost, the
/// sum of all successful deductions.
pub proof fn lemma_pot_conservation(pre: PokerGame, post: PokerGame)
    requires
        post.total_money() == pre.total_money(),
    ensures
        post.pot - pre.pot == sum_coins(pre.players@) - sum_coins(post.players@),
{
}

/// A player whose hand is evaluated at showdown: holding at least one hole
/// card and not folded.
pub open spec fn eligible(p: Player) -> bool {
    p.hand_cards.len() > 0 && !p.folded
}

/// The eligible players, in seat order.
pub open spec fn eligible_seq(s: Seq<Player>) -> Seq<Player>
    decreases s.len(),
{
    if s.len() == 0 {
        Seq::empty()
    } else if eligible(s.last()) {
        eligible_seq(s.drop_last()).push(s.last())
    } else {
        eligible_seq(s.drop_last())
    }
}

/// `q` is `p` evaluated against the community cards: the ledger carries
/// over and the hand rank is a correct classification of `p`'s hole cards
/// together with the community cards.
pub open spec fn evaluated_ok(p: Player, community: Seq<Card>, q: Player) -> bool {
    &&& q.player_type == p.player_type
    &&& q.id == p.id
    &&& q.username == p.username
    &&& q.coins == p.coins
    &&& q.folded == p.folded
    &&& q.hand_cards@ == p.hand_cards@
    &&& q.current_bet == p.current_bet
    &&& q.hand_rank matches Some(hr) && hand_rank_ok(
        p.hand_cards@ + community,
        p.hand_cards@,
        hr,
    )
}

/// The category an evaluated player's hand rank carries.
pub open spec fn category_of(p: Player) -> int {
    match p.hand_rank {
        Some(hr) => hr.hand_rank as int,
        None => -1,
    }
}

/// The value the showdown tie-break reads off an evaluated player: the
/// high card's label parsed as a number, which only the ranks with numeric
/// labels (value at most 10) provide. A face-card high card yields nothing
/// and leaves a tie unresolved.
pub open spec fn tie_rank(p: Player) -> Option<int> {
    match p.hand_rank {
        Some(hr) => if hr.high_card.value() <= 10 {
            Some(hr.high_card.value())
        } else {
            None
        },
        None => None,
    }
}

/// One step of the winner scan over the evaluated players: a stronger
/// category takes the lead and clears the tie list; an equal category is
/// broken by the parsed high-card values when both parse, extending the
/// tie list on an exact tie; anything else keeps the standing leader.
pub open spec fn winner_step(
    st: (Option<usize>, bool, Seq<usize>),
    s: Seq<Player>,
    i: usize,
) -> (Option<usize>, bool, Seq<usize>) {
    match st.0 {
        None => (Some(i), false, Seq::empty()),
        Some(wi) => {
            if category_of(s[i as int]) > category_of(s[wi as int]) {
                (Some(i), false, Seq::empty())
            } else if category_of(s[i as int]) == category_of(s[wi as int]) {
                match (tie_rank(s[i as int]), tie_rank(s[wi as int])) {
                    (Some(pr), Some(wr)) => {
                        if pr > wr {
                            (Some(i), false, Seq::empty())
                        } else if pr == wr {
                            (
                                st.0,
                                true,
                                (if st.2.contains(wi) {
                                    st.2
                                } else {
                                    st.2.push(wi)
                                }).push(i),
                            )
                        } else {
                            st
                        }
                    },
                    _ => st,
                }
            } else {
                st
            }
        },
    }
}

/// The winner scan over the first `k` evaluated players.
pub open spec fn winner_fold(s: Seq<Player>, k: int) -> (Option<usize>, bool, Seq<usize>)
    decreases k,
{
    if k <= 0 {
        (None::<usize>, false, Seq::<usize>::empty())
    } else {
        winner_step(winner_fold(s, k - 1), s, (k - 1) as usize)
    }
}

/// The final collapse: a tie list that holds a single seat makes that
/// seat the sole winner.
pub open spec fn showdown_collapse(st: (Option<usize>, bool, Seq<usize>)) -> (
    Option<usize>,
    bool,
    Seq<usize>,
) {
    if st.2.len() == 1 {
        (Some(st.2[0]), false, Seq::<usize>::empty())
    } else {
        st
    }
}


/// The showdown law for two evaluated hands: whenever the scan runs over
/// exactly two evaluated players of different categories, the strictly
/// higher category wins outright and the tie list stays empty.
pub proof fn lemma_two_hand_showdown(s: Seq<Player>)
    requires
        s.len() == 2,
        category_of(s[0]) != category_of(s[1]),
    ensures
        ({
            let st = showdown_collapse(winner_fold(s, 2));
            &&& st.0 == Some(
                if category_of(s[1]) > category_of(s[0]) {
                    1usize
                } else {
                    0usize
                },
            )
            &&& st.1 == false
            &&& st.2 == Seq::<usize>::empty()
        }),
{
    assert(winner_fold(s, 0) == (None::<usize>, false, Seq::<usize>::empty()));
    assert(winner_fold(s, 1) == (Some(0usize), false, Seq::<usize>::empty()));
}

/// What the showdown hands back: the evaluated players in seat order, the
/// winning index into them, and the tie bookkeeping.
#[derive(Debug)]
pub struct ShowdownOutcome {
    pub evaluated: Vec<Player>,
    pub winner: Option<usize>,
    pub tie_winners: bool,
    pub tie_players: Vec<usize>,
}

/// One hand of the game: the table's players, the dealer, the pot and the
/// wagering state, and the shared community cards.
pub struct PokerGame {
    pub game_id: String,
    pub players: Vec<Player>,
    pub game_dealer: Dealer,
    pub pot: u32,
    pub with_blinds: Option<bool>,
    pub small_blind_index: usize,
    pub big_blind_index: usize,
    pub blinds_initialized: bool,
    pub big_blind: u32,
    pub game_state: GamePhase,
    pub highest_bet: u32,
    pub community_deck: Vec<Card>,
}

impl PokerGame {
    /// The funds in play: the pot plus every stack. Wagering only moves
    /// coins from stacks into the pot, so this total is conserved.
    pub open spec fn total_money(self) -> int {
        self.pot + sum_coins(self.players@)
    }

    /// The game's structural invariant: at least two seats, the big blind
    /// seat right after the small blind seat, no player's current-round bet
    /// above the table's highest bet, the highest bet covered by the pot,
    /// and the funds in play within the counter's range.
    pub open spec fn wf(self) -> bool {
        &&& self.players.len() >= 2
        &&& self.small_blind_index < self.players.len()
        &&& self.big_blind_index < self.players.len()
        &&& self.big_blind_index == (self.small_blind_index + 1) % (self.players.len() as int)
        &&& self.highest_bet <= self.pot
        &&& self.total_money() <= u32::MAX
        &&& forall|i: int|
            0 <= i < self.players@.len() ==> (#[trigger] self.players@[i]).current_bet
                <= self.highest_bet
    }

    /// The round-over condition: a single active player remains, or every
    /// active player's current-round bet matches the highest bet.
    pub open spec fn round_over_spec(self) -> bool {
        active_count(self.players@) == 1 || forall|i: int|
            0 <= i < self.players@.len() ==> !(#[trigger] self.players@[i]).folded ==> self.players@[i].current_bet
                == self.highest_bet
    }

    /// The dealer is ready once a deck exists and, when blinds are enabled,
    /// the blind amounts have been posted; a game that never chose whether
    /// to play with blinds is not ready.
    pub open spec fn dealer_ready_spec(self) -> bool {
        &&& self.game_dealer.deck_id is Some
        &&& match self.with_blinds {
            Some(true) => self.blinds_initialized,
            Some(false) => true,
            None => false,
        }
    }

    /// Sets up a hand with the small blind at a chosen seat; the big blind
    /// sits right after it. Players come to the table with nothing wagered
    /// yet.
    pub fn new_with_seats(players: Vec<Player>, game_dealer: Dealer, small_blind_index: usize) -> (g:
        PokerGame)
        requires
            players.len() >= 2,
            small_blind_index < players.len(),
            sum_coins(players@) <= u32::MAX,
            forall|i: int| 0 <= i < players@.len() ==> (#[trigger] players@[i]).current_bet == 0,
        ensures
            g == (PokerGame {
                game_id: g.game_id,
                players,
                game_dealer,
                pot: 0u32,
                with_blinds: None::<bool>,
                small_blind_index,
                big_blind_index: g.big_blind_index,
                blinds_initialized: false,
                big_blind: 0u32,
                game_state: GamePhase::Initial,
                highest_bet: 0u32,
                community_deck: g.community_deck,
            }),
            g.big_blind_index == (small_blind_index + 1) % (players.len() as int),
            g.community_deck@ == Seq::<Card>::empty(),
            g.wf(),
    {
        let game_id = random_label("pkrgme-");
        let big_blind_index = (small_blind_index + 1) % players.len();
        let g = PokerGame {
            game_id,
            players,
            game_dealer,
            pot: 0,
            with_blinds: None,
            small_blind_index,
            big_blind_index,
            blinds_initialized: false,
            big_blind: 0,
            game_state: GamePhase::Initial,
            highest_bet: 0,
            community_deck: Vec::new(),
        };
        proof {
            lemma_sum_coins_nonneg(g.players@);
        }
        g
    }

    /// Sets up a hand with the small blind at a uniformly random seat.
    pub fn new(players: Vec<Player>, game_dealer: Dealer) -> (g: PokerGame)
        requires
            players.len() >= 2,
            sum_coins(players@) <= u32::MAX,
            forall|i: int| 0 <= i < players@.len() ==> (#[trigger] players@[i]).current_bet == 0,
        ensures
            g == (PokerGame {
                game_id: g.game_id,
                players,
                game_dealer,
                pot: 0u32,
                with_blinds: None::<bool>,
                small_blind_index: g.small_blind_index,
                big_blind_index: g.big_blind_index,
                blinds_initialized: false,
                big_blind: 0u32,
                game_state: GamePhase::Initial,
                highest_bet: 0u32,
                community_deck: g.community_deck,
            }),
            g.community_deck@ == Seq::<Card>::empty(),
            g.wf(),
    {
        let seat = random_below(players.len());
        PokerGame::new_with_seats(players, game_dealer, seat)
    }

    /// Chooses whether this hand is played with blinds.
    pub fn play_with_blinds(&mut self, with_blinds: bool)
        ensures
            *final (self) == (PokerGame { with_blinds: Some(with_blinds), ..*old(self) }),
    {
        self.with_blinds = Some(with_blinds);
    }

    /// Every player holds exactly two hole cards: the condition on which
    /// the hand may leave its initial phase.
    pub fn are_players_ready(&self) -> (r: bool)
        ensures
            r == forall|i: int|
                0 <= i < self.players@.len() ==> (#[trigger] self.players@[i]).hand_cards.len()
                    == 2,
    {
        let mut i: usize = 0;
        while i < self.players.len()
            invariant
                i <= self.players.len(),
                forall|k: int| 0 <= k < i ==> (#[trigger] self.players@[k]).hand_cards.len() == 2,
            decreases self.players.len() - i,
        {
            if self.players[i].get_hand_length() != 2 {
                return false;
            }
            i = i + 1;
        }
        true
    }

    /// Executable form of [`PokerGame::dealer_ready_spec`].
    pub fn is_dealer_ready(&self) -> (r: bool)
        ensures
            r == self.dealer_ready_spec(),
    {
        if self.game_dealer.deck_id.is_none() {
            return false;
        }
        match self.with_blinds {
            Some(true) => self.blinds_initialized,
            Some(false) => true,
            None => false,
        }
    }

    /// Adds to the pot; the pot only ever grows.
    pub fn add_to_pot(&mut self, amount: u32)
        requires
            old(self).pot + amount <= u32::MAX,
        ensures
            *final (self) == (PokerGame {
                pot: (old(self).pot + amount) as u32,
                ..*old(self)
            }),
    {
        self.pot = self.pot + amount;
    }

    /// Moves the phase marker.
    pub fn set_game_state(&mut self, new_game_state: GamePhase)
        ensures
            *final (self) == (PokerGame { game_state: new_game_state, ..*old(self) }),
    {
        self.game_state = new_game_state;
    }

    /// Executable form of [`PokerGame::round_over_spec`]: the betting round
    /// is over once one active player remains or all active players have
    /// matched the highest bet.
    pub fn check_round_over(&self) -> (r: bool)
        ensures
            r == self.round_over_spec(),
    {
        let mut remaining: usize = 0;
        let mut all_matched = true;
        let mut i: usize = 0;
        while i < self.players.len()
            invariant
                i <= self.players.len(),
                remaining == active_count(self.players@.take(i as int)),
                remaining <= i,
                all_matched == forall|k: int|
                    0 <= k < i ==> !(#[trigger] self.players@[k]).folded ==> self.players@[k].current_bet
                        == self.highest_bet,
            decreases self.players.len() - i,
        {
            proof {
                assert(self.players@.take(i + 1).drop_last() =~= self.players@.take(i as int));
            }
            if !self.players[i].has_player_folded() {
                remaining = remaining + 1;
                if self.players[i].get_current_bet() != self.highest_bet {
                    all_matched = false;
                }
            }
            i = i + 1;
        }
        proof {
            assert(self.players@.take(self.players@.len() as int) =~= self.players@);
        }
        remaining == 1 || all_matched
    }

    /// Folds the seat, unless folding would leave the table without a
    /// single active player to win the hand.
    pub fn fold(&mut self, player_index: usize) -> (r: bool)
        requires
            player_index < old(self).players.len(),
        ensures
            r == (active_count(old(self).players@) != 1),
            r ==> *final (self) == (PokerGame { players: final (self).players, ..*old(self) })
                && final (self).players@ == old(self).players@.update(
                player_index as int,
                Player { folded: true, ..old(self).players@[player_index as int] },
            ),
            !r ==> *final (self) == *old(self),
            old(self).wf() ==> final (self).wf(),
            final (self).total_money() == old(self).total_money(),
    {
        let mut remaining: usize = 0;
        let mut i: usize = 0;
        while i < self.players.len()
            invariant
                i <= self.players.len(),
                remaining == active_count(self.players@.take(i as int)),
                remaining <= i,
            decreases self.players.len() - i,
        {
            proof {
                assert(self.players@.take(i + 1).drop_last() =~= self.players@.take(i as int));
            }
            if !self.players[i].has_player_folded() {
                remaining = remaining + 1;
            }
            i = i + 1;
        }
        proof {
            assert(self.players@.take(self.players@.len() as int) =~= self.players@);
        }
        if remaining != 1 {
            let ghost before = self.players@;
            let p = &mut self.players[player_index];
            p.fold();
            proof {
                assert(self.players@ =~= before.update(
                    player_index as int,
                    Player { folded: true, ..before[player_index as int] },
                ));
                lemma_sum_coins_update(
                    before,
                    player_index as int,
                    self.players@[player_index as int],
                );
            }
            true
        } else {
            false
        }
    }

    /// A check: no fund movement, always accepted.
    pub fn check(&mut self, player_index: usize) -> (r: bool)
        ensures
            r == true,
            *final (self) == *old(self),
    {
        let _ = player_index;
        true
    }

    /// A bet: valid only when the amount reaches the table's minimum (the
    /// big blind), is positive, and fits the player's stack. On success the
    /// amount moves from the stack into the player's current-round bet and
    /// the pot, and the highest bet grows by the amount; a refused bet
    /// changes nothing.
    pub fn bet(&mut self, player_index: usize, bet_amount: u32) -> (r: bool)
        requires
            old(self).wf(),
            player_index < old(self).players.len(),
        ensures
            final (self).wf(),
            final (self).total_money() == old(self).total_money(),
            *final (self) == (PokerGame {
                players: final (self).players,
                pot: final (self).pot,
                highest_bet: final (self).highest_bet,
                ..*old(self)
            }),
            r == (bet_amount >= old(self).big_blind && 0 < bet_amount <= old(
                self,
            ).players@[player_index as int].coins),
            r ==> final (self).pot == old(self).pot + bet_amount && final (self).highest_bet == old(
                self,
            ).highest_bet + bet_amount && final (self).players@ == old(self).players@.update(
                player_index as int,
                Player {
                    coins: (old(self).players@[player_index as int].coins - bet_amount) as u32,
                    current_bet: (old(self).players@[player_index as int].current_bet
                        + bet_amount) as u32,
                    ..old(self).players@[player_index as int]
                },
            ),
            !r ==> final (self).pot == old(self).pot && final (self).highest_bet == old(
                self,
            ).highest_bet && final (self).players@ == old(self).players@,
    {
        let ghost before = *self;
        let min_bet = self.big_blind;
        if bet_amount < min_bet {
            return false;
        }
        proof {
            lemma_coins_le_sum(self.players@, player_index as int);
        }
        let requested = self.game_dealer.player_bet(&mut self.players[player_index], bet_amount);
        proof {
            lemma_sum_coins_update(
                before.players@,
                player_index as int,
                self.players@[player_index as int],
            );
        }
        if requested > 0 {
            self.highest_bet = self.highest_bet + requested;
            self.add_to_pot(requested);
            true
        } else {
            proof {
                assert(self.players@ =~= before.players@);
            }
            false
        }
    }

    /// A raise: valid only when the amount strictly exceeds twice the
    /// current highest bet and fits the player's stack; the fund movement
    /// is the same as a bet's.
    pub fn raise(&mut self, player_index: usize, raise_amount: u32) -> (r: bool)
        requires
            old(self).wf(),
            player_index < old(self).players.len(),
        ensures
            final (self).wf(),
            final (self).total_money() == old(self).total_money(),
            *final (self) == (PokerGame {
                players: final (self).players,
                pot: final (self).pot,
                highest_bet: final (self).highest_bet,
                ..*old(self)
            }),
            r == (raise_amount > 2 * old(self).highest_bet && raise_amount <= old(
                self,
            ).players@[player_index as int].coins),
            r ==> final (self).pot == old(self).pot + raise_amount && final (self).highest_bet
                == old(self).highest_bet + raise_amount && final (self).players@ == old(
                self,
            ).players@.update(
                player_index as int,
                Player {
                    coins: (old(self).players@[player_index as int].coins - raise_amount) as u32,
                    current_bet: (old(self).players@[player_index as int].current_bet
                        + raise_amount) as u32,
                    ..old(self).players@[player_index as int]
                },
            ),
            !r ==> final (self).pot == old(self).pot && final (self).highest_bet == old(
                self,
            ).highest_bet && final (self).players@ == old(self).players@,
    {
        let ghost before = *self;
        let min_raise = (self.highest_bet as u64) * 2;
        if (raise_amount as u64) <= min_raise {
            return false;
        }
        proof {
            lemma_coins_le_sum(self.players@, player_index as int);
        }
        let requested = self.game_dealer.player_raise(
            &mut self.players[player_index],
            raise_amount,
        );
        proof {
            lemma_sum_coins_update(
                before.players@,
                player_index as int,
                self.players@[player_index as int],
            );
        }
        if requested > 0 {
            self.highest_bet = self.highest_bet + requested;
            self.add_to_pot(requested);
            true
        } else {
            proof {
                assert(self.players@ =~= before.players@);
            }
            false
        }
    }

    /// A call: transfers exactly what the player lacks to match the highest
    /// bet, valid only when the stack covers it and there is something to
    /// match. The highest bet itself is untouched: calling matches the
    /// target, it does not move it.
    pub fn call(&mut self, player_index: usize) -> (r: bool)
        requires
            old(self).wf(),
            player_index < old(self).players.len(),
        ensures
            final (self).wf(),
            final (self).total_money() == old(self).total_money(),
            *final (self) == (PokerGame {
                players: final (self).players,
                pot: final (self).pot,
                highest_bet: final (self).highest_bet,
                ..*old(self)
            }),
            r == {
                let gap = old(self).highest_bet - old(
                    self,
                ).players@[player_index as int].current_bet;
                0 < gap <= old(self).players@[player_index as int].coins
            },
            r ==> {
                let gap = (old(self).highest_bet - old(
                    self,
                ).players@[player_index as int].current_bet) as u32;
                &&& final (self).pot == old(self).pot + gap
                &&& final (self).highest_bet == old(self).highest_bet
                &&& final (self).players@ == old(self).players@.update(
                    player_index as int,
                    Player {
                        coins: (old(self).players@[player_index as int].coins - gap) as u32,
                        current_bet: old(self).highest_bet,
                        ..old(self).players@[player_index as int]
                    },
                )
            },
            !r ==> final (self).pot == old(self).pot && final (self).highest_bet == old(
                self,
            ).highest_bet && final (self).players@ == old(self).players@,
    {
        let ghost before = *self;
        let current_player_bet = self.players[player_index].get_current_bet();
        let current_player_coins = self.players[player_index].get_coins();
        let amount_to_call = self.highest_bet - current_player_bet;
        if amount_to_call > current_player_coins {
            return false;
        }
        proof {
            lemma_coins_le_sum(self.players@, player_index as int);
        }
        let requested = self.game_dealer.player_call(
            &mut self.players[player_index],
            amount_to_call,
        );
        proof {
            lemma_sum_coins_update(
                before.players@,
                player_index as int,
                self.players@[player_index as int],
            );
        }
        if requested > 0 {
            self.add_to_pot(requested);
            true
        } else {
            proof {
                assert(self.players@ =~= before.players@);
            }
            false
        }
    }

    /// The big blind seat differs from the small blind seat whenever the
    /// table has at least two players.
    pub proof fn lemma_blind_seats_distinct(self)
        requires
            self.wf(),
        ensures
            self.big_blind_index != self.small_blind_index,
    {
        let sb = self.small_blind_index as int;
        let len = self.players.len() as int;
        if sb + 1 < len {
            vstd::arithmetic::div_mod::lemma_small_mod((sb + 1) as nat, len as nat);
        } else {
            assert((sb + 1) % len == 0) by {
                vstd::arithmetic::div_mod::lemma_mod_self_0(len);
            }
        }
    }

    /// Posts the blinds, once per game and only when blinds are enabled:
    /// the small blind pays the configured amount, the big blind pays twice
    /// that, both into the pot through the dealer's authorized path, and
    /// the highest bet starts at what the big blind actually paid. A stack
    /// too small for its blind pays nothing.
    pub fn post_blinds_current_game(&mut self, amount: u32)
        requires
            old(self).wf(),
            old(self).with_blinds == Some(true) && !old(self).blinds_initialized ==> {
                &&& 2 * amount <= u32::MAX
                &&& forall|i: int|
                    0 <= i < old(self).players@.len() ==> (#[trigger] old(
                        self,
                    ).players@[i]).current_bet == 0
            },
        ensures
            final (self).wf(),
            final (self).total_money() == old(self).total_money(),
            !(old(self).with_blinds == Some(true) && !old(self).blinds_initialized)
                ==> *final (self) == *old(self),
            old(self).with_blinds == Some(true) && !old(self).blinds_initialized ==> {
                let sb = old(self).small_blind_index as int;
                let bb = old(self).big_blind_index as int;
                let small_paid: int = if amount <= old(self).players@[sb].coins {
                    amount as int
                } else {
                    0
                };
                let big_paid: int = if 2 * amount <= old(self).players@[bb].coins {
                    2 * amount
                } else {
                    0
                };
                &&& *final (self) == (PokerGame {
                    players: final (self).players,
                    pot: final (self).pot,
                    highest_bet: final (self).highest_bet,
                    big_blind: (2 * amount) as u32,
                    blinds_initialized: true,
                    ..*old(self)
                })
                &&& final (self).players@ == old(self).players@.update(
                    sb,
                    Player {
                        coins: (old(self).players@[sb].coins - small_paid) as u32,
                        ..old(self).players@[sb]
                    },
                ).update(
                    bb,
                    Player {
                        coins: (old(self).players@[bb].coins - big_paid) as u32,
                        ..old(self).players@[bb]
                    },
                )
                &&& final (self).pot == old(self).pot + small_paid + big_paid
                &&& final (self).highest_bet == big_paid
            },
    {
        proof {
            self.lemma_blind_seats_distinct();
        }
        let enabled = match self.with_blinds {
            Some(w) => w,
            None => false,
        };
        if !(enabled && !self.blinds_initialized) {
            return ;
        }
        let ghost before = *self;
        let small_blind: u32 = amount;
        let big_blind: u32 = amount * 2;
        self.big_blind = big_blind;
        let sbi = self.small_blind_index;
        proof {
            lemma_coins_le_sum(self.players@, sbi as int);
        }
        let requested_small = self.game_dealer.post_blinds(&mut self.players[sbi], small_blind);
        proof {
            lemma_sum_coins_update(before.players@, sbi as int, self.players@[sbi as int]);
        }
        self.add_to_pot(requested_small);
        let bbi = self.big_blind_index;
        proof {
            lemma_coins_le_sum(self.players@, bbi as int);
        }
        let ghost mid_players = self.players@;
        let requested_big = self.game_dealer.post_blinds(&mut self.players[bbi], big_blind);
        proof {
            lemma_sum_coins_update(mid_players, bbi as int, self.players@[bbi as int]);
        }
        self.add_to_pot(requested_big);
        self.highest_bet = requested_big;
        self.blinds_initialized = true;
    }

    /// Asks the dealer to open cards and appends them to the community
    /// deck; without a deck nothing changes.
    pub fn request_dealer_open_cards(&mut self, card_amount_to_open: usize)
        requires
            old(self).game_dealer.deck matches Some(d) ==> d.len() >= card_amount_to_open,
        ensures
            *final (self) == (PokerGame {
                game_dealer: final (self).game_dealer,
                community_deck: final (self).community_deck,
                ..*old(self)
            }),
            match old(self).game_dealer.deck {
                Some(d) => {
                    &&& final (self).community_deck@ == old(self).community_deck@ + d@.subrange(
                        d@.len() - card_amount_to_open,
                        d@.len() as int,
                    ).reverse()
                    &&& final (self).game_dealer.deck matches Some(rest) && rest@ == d@.take(
                        d@.len() - card_amount_to_open,
                    )
                    &&& final (self).game_dealer == (Dealer {
                        deck: final (self).game_dealer.deck,
                        ..old(self).game_dealer
                    })
                },
                None => final (self).game_dealer == old(self).game_dealer
                    && final (self).community_deck == old(self).community_deck,
            },
    {
        let opened = self.game_dealer.open_cards(card_amount_to_open);
        match opened {
            Some(mut retrieved) => {
                self.community_deck.append(&mut retrieved);
            },
            None => {},
        }
    }

    /// Drives one betting pass from the given seat (seat 0 when none is
    /// given): folded seats are skipped, every other seat's decision policy
    /// is asked for an action which is then validated and applied, and the
    /// pass ends as soon as the round-over condition holds after an action.
    /// A failed or invalid action aborts the whole pass at once. An
    /// explicit cap on the number of seat steps bounds the pass, since
    /// matching a moving highest bet need not converge.
    pub fn round_decisions(&mut self, current_player_index: Option<usize>) -> (r: RoundStatus)
        requires
            old(self).wf(),
            old(self).players.len() <= usize::MAX / 16,
            current_player_index matches Some(i) ==> i < old(self).players.len(),
        ensures
            final (self).wf(),
            final (self).total_money() == old(self).total_money(),
            *final (self) == (PokerGame {
                players: final (self).players,
                pot: final (self).pot,
                highest_bet: final (self).highest_bet,
                ..*old(self)
            }),
            final (self).players@.len() == old(self).players@.len(),
            forall|i: int|
                0 <= i < old(self).players@.len() ==> {
                    &&& (#[trigger] final (self).players@[i]).hand_cards
                        == old(self).players@[i].hand_cards
                    &&& final (self).players@[i].id == old(self).players@[i].id
                    &&& final (self).players@[i].username == old(self).players@[i].username
                    &&& final (self).players@[i].hand_rank == old(self).players@[i].hand_rank
                    &&& final (self).players@[i].player_type == old(self).players@[i].player_type
                },
            final (self).pot >= old(self).pot,
            forall|i: int|
                0 <= i < old(self).players@.len() ==> (#[trigger] final (self).players@[i]).coins
                    <= old(self).players@[i].coins,
            forall|i: int|
                0 <= i < old(self).players@.len() && (#[trigger] old(self).players@[i]).folded
                    ==> final (self).players@[i] == old(self).players@[i],
            r == RoundStatus::Over ==> final (self).round_over_spec(),
    {
        let n = self.players.len();
        let cap = n * 16;
        let mut idx: usize = match current_player_index {
            Some(i) => i,
            None => 0,
        };
        let mut steps: usize = 0;
        while steps < cap
            invariant
                self.wf(),
                n == self.players.len(),
                n == old(self).players@.len(),
                cap == n * 16,
                idx < n,
                steps <= cap,
                self.total_money() == old(self).total_money(),
                *self == (PokerGame {
                    players: self.players,
                    pot: self.pot,
                    highest_bet: self.highest_bet,
                    ..*old(self)
                }),
                forall|i: int|
                    0 <= i < old(self).players@.len() ==> (#[trigger] self.players@[i]).hand_cards
                        == old(self).players@[i].hand_cards && self.players@[i].id == old(
                        self,
                    ).players@[i].id && self.players@[i].username == old(self).players@[i].username
                        && self.players@[i].hand_rank == old(self).players@[i].hand_rank
                        && self.players@[i].player_type == old(self).players@[i].player_type,
                self.pot >= old(self).pot,
                forall|i: int|
                    0 <= i < old(self).players@.len() ==> (#[trigger] self.players@[i]).coins
                        <= old(self).players@[i].coins,
                forall|i: int|
                    0 <= i < old(self).players@.len() && (#[trigger] old(self).players@[i]).folded
                        ==> self.players@[i] == old(self).players@[i],
            decreases cap - steps,
        {
            let folded = self.players[idx].has_player_folded();
            if !folded {
                proof {
                    assert(!old(self).players@[idx as int].folded);
                }
                let decision = self.players[idx].get_action(self.big_blind);
                if !decision.success {
                    return RoundStatus::Aborted;
                }
                let amount = match decision.amount {
                    Some(a) => a,
                    None => 0,
                };
                let applied = match decision.action {
                    PlayerAction::Bet => self.bet(idx, amount),
                    PlayerAction::Raise => self.raise(idx, amount),
                    PlayerAction::Call => self.call(idx),
                    PlayerAction::Check => self.check(idx),
                    PlayerAction::Fold => self.fold(idx),
                };
                if !applied {
                    return RoundStatus::Aborted;
                }
            }
            idx = if idx + 1 < n {
                idx + 1
            } else {
                0
            };
            if self.check_round_over() {
                return RoundStatus::Over;
            }
            steps = steps + 1;
        }
        RoundStatus::Ongoing
    }

    /// The showdown's precondition: every player whose hand would be
    /// evaluated has a kicker candidate among their hole cards and the
    /// community cards.
    pub open spec fn kicker_available(self) -> bool {
        forall|i: int|
            0 <= i < self.players@.len() && eligible(#[trigger] self.players@[i]) ==> has_kicker(
                self.players@[i].hand_cards@ + self.community_deck@,
            )
    }

    /// What a showdown outcome must satisfy for this game state.
    pub open spec fn showdown_ok(self, out: ShowdownOutcome) -> bool {
        &&& out.evaluated@.len() == eligible_seq(self.players@).len()
        &&& forall|j: int|
            0 <= j < out.evaluated@.len() ==> evaluated_ok(
                eligible_seq(self.players@)[j],
                self.community_deck@,
                #[trigger] out.evaluated@[j],
            )
        &&& {
            let st = showdown_collapse(
                winner_fold(out.evaluated@, out.evaluated@.len() as int),
            );
            &&& out.winner == st.0
            &&& out.tie_winners == st.1
            &&& out.tie_players@ == st.2
        }
    }

    /// Evaluates every eligible player's hand against the community cards
    /// and hands back the evaluated players in seat order.
    pub fn show_hands(&self) -> (r: Vec<Player>)
        requires
            self.kicker_available(),
        ensures
            r@.len() == eligible_seq(self.players@).len(),
            forall|j: int|
                0 <= j < r@.len() ==> evaluated_ok(
                    eligible_seq(self.players@)[j],
                    self.community_deck@,
                    #[trigger] r@[j],
                ),
    {
        let mut result: Vec<Player> = Vec::new();
        let mut i: usize = 0;
        while i < self.players.len()
            invariant
                i <= self.players.len(),
                self.kicker_available(),
                result@.len() == eligible_seq(self.players@.take(i as int)).len(),
                forall|j: int|
                    0 <= j < result@.len() ==> evaluated_ok(
                        eligible_seq(self.players@.take(i as int))[j],
                        self.community_deck@,
                        #[trigger] result@[j],
                    ),
            decreases self.players.len() - i,
        {
            proof {
                assert(self.players@.take(i + 1).drop_last() =~= self.players@.take(i as int));
            }
            let p = &self.players[i];
            if p.get_hand_length() > 0 && !p.has_player_folded() {
                let copy = p.clone();
                let evaluated = self.get_hand_rank(copy, &self.game_dealer, &self.community_deck);
                result.push(evaluated);
                proof {
                    let taken = self.players@.take(i + 1);
                    assert(eligible_seq(taken) == eligible_seq(self.players@.take(i as int)).push(
                        self.players@[i as int],
                    ));
                }
            }
            i = i + 1;
        }
        proof {
            assert(self.players@.take(self.players@.len() as int) =~= self.players@);
        }
        result
    }

    /// Whether a seat index is already in the tie list.
    fn tie_list_contains(list: &Vec<usize>, x: usize) -> (r: bool)
        ensures
            r == list@.contains(x),
    {
        let mut i: usize = 0;
        while i < list.len()
            invariant
                i <= list.len(),
                forall|k: int| 0 <= k < i ==> list@[k] != x,
            decreases list.len() - i,
        {
            if list[i] == x {
                return true;
            }
            i = i + 1;
        }
        false
    }

    /// Runs the showdown: evaluates every eligible hand, scans for the
    /// strongest category with the label-parsing tie-break, and collapses
    /// a single-entry tie list to a sole winner.
    pub fn determine_winner(&self) -> (r: ShowdownOutcome)
        requires
            self.kicker_available(),
        ensures
            self.showdown_ok(r),
    {
        let players_evald = self.show_hands();
        let n = players_evald.len();
        let mut winner: Option<usize> = None;
        let mut tie_winners = false;
        let mut tie_players: Vec<usize> = Vec::new();
        let mut i: usize = 0;
        while i < n
            invariant
                i <= n,
                n == players_evald@.len(),
                forall|j: int|
                    0 <= j < players_evald@.len() ==> (#[trigger] players_evald@[j]).hand_rank
                        is Some,
                (winner, tie_winners, tie_players@) == winner_fold(players_evald@, i as int),
                winner matches Some(w) ==> w < n,
            decreases n - i,
        {
            match winner {
                None => {
                    winner = Some(i);
                    tie_winners = false;
                    tie_players = Vec::new();
                    proof {
                        assert(tie_players@ =~= Seq::<usize>::empty());
                    }
                },
                Some(wi) => {
                    let pc = match &players_evald[i].hand_rank {
                        Some(hr) => hr.hand_rank,
                        None => 0,
                    };
                    let wc = match &players_evald[wi].hand_rank {
                        Some(hr) => hr.hand_rank,
                        None => 0,
                    };
                    if pc > wc {
                        winner = Some(i);
                        tie_winners = false;
                        tie_players = Vec::new();
                        proof {
                            assert(tie_players@ =~= Seq::<usize>::empty());
                        }
                    } else if pc == wc {
                        let pv = match &players_evald[i].hand_rank {
                            Some(hr) => hr.high_card.get_rank().numeric_value(),
                            None => 0,
                        };
                        let wv = match &players_evald[wi].hand_rank {
                            Some(hr) => hr.high_card.get_rank().numeric_value(),
                            None => 0,
                        };
                        if pv <= 10 && wv <= 10 {
                            if pv > wv {
                                winner = Some(i);
                                tie_winners = false;
                                tie_players = Vec::new();
                                proof {
                                    assert(tie_players@ =~= Seq::<usize>::empty());
                                }
                            } else if pv == wv {
                                if !Self::tie_list_contains(&tie_players, wi) {
                                    tie_players.push(wi);
                                }
                                tie_players.push(i);
                                tie_winners = true;
                            }
                        }
                    }
                },
            }
            i = i + 1;
        }
        if tie_players.len() == 1 {
            winner = Some(tie_players[0]);
            tie_winners = false;
            tie_players = Vec::new();
            proof {
                assert(tie_players@ =~= Seq::<usize>::empty());
            }
        }
        ShowdownOutcome { evaluated: players_evald, winner, tie_winners, tie_players }
    }

    /// The community cards the remaining reveals will add, in reveal order.
    pub open spec fn upcoming_community(self) -> Seq<Card> {
        match self.game_dealer.deck {
            Some(d) => d@.subrange(
                d@.len() - pending_reveals(self.game_state),
                d@.len() as int,
            ).reverse(),
            None => Seq::empty(),
        }
    }

    /// The community cards the hand will have on the table at showdown.
    pub open spec fn final_community(self) -> Seq<Card> {
        self.community_deck@ + self.upcoming_community()
    }

    /// Generates the dealer's deck.
    pub fn request_generate_deck(&mut self, deck_count: usize)
        requires
            deck_count * 52 <= usize::MAX,
        ensures
            *final (self) == (PokerGame { game_dealer: final (self).game_dealer, ..*old(self) }),
            (match old(self).game_dealer.deck {
                Some(d) => d.len() == 0,
                None => true,
            }) ==> {
                &&& final (self).game_dealer.deck matches Some(d) && d@.len() == deck_count * 52
                    && (forall|i: int| 0 <= i < d@.len() ==> d@[i] == crate::dealer::nth_deck_card(i))
                &&& final (self).game_dealer.deck_id is Some
            },
            !(match old(self).game_dealer.deck {
                Some(d) => d.len() == 0,
                None => true,
            }) ==> final (self).game_dealer == old(self).game_dealer,
    {
        let _ = self.game_dealer.generate_cards(deck_count);
    }

    /// Shuffles the dealer's deck.
    pub fn request_dealer_shuffle(&mut self)
        ensures
            *final (self) == (PokerGame { game_dealer: final (self).game_dealer, ..*old(self) }),
            match old(self).game_dealer.deck {
                Some(d) => final (self).game_dealer.deck matches Some(p) && p@.to_multiset()
                    == d@.to_multiset() && p@.len() == d@.len() && final (self).game_dealer
                    == (Dealer { deck: final (self).game_dealer.deck, ..old(self).game_dealer }),
                None => final (self).game_dealer == old(self).game_dealer,
            },
    {
        self.game_dealer.shuffle_cards();
    }

    /// Deals two hole cards to every seat in order, once the dealer is
    /// ready. With a full deck and empty hands every seat ends up with the
    /// two cards popped off the deck top for it.
    pub fn deal_cards(&mut self)
        ensures
            *final (self) == (PokerGame {
                players: final (self).players,
                game_dealer: final (self).game_dealer,
                ..*old(self)
            }),
            final (self).players@.len() == old(self).players@.len(),
            forall|i: int|
                0 <= i < old(self).players@.len() ==> (#[trigger] final (self).players@[i])
                    == (Player {
                    hand_cards: final (self).players@[i].hand_cards,
                    ..old(self).players@[i]
                }),
            final (self).game_dealer == (Dealer {
                deck: final (self).game_dealer.deck,
                ..old(self).game_dealer
            }),
            final (self).total_money() == old(self).total_money(),
            old(self).wf() ==> final (self).wf(),
            !old(self).dealer_ready_spec() ==> final (self).players@ == old(self).players@
                && final (self).game_dealer == old(self).game_dealer,
            ({
                &&& old(self).dealer_ready_spec()
                &&& old(self).game_dealer.deck matches Some(d) && d.len() >= 2 * old(
                    self,
                ).players@.len()
                &&& forall|i: int|
                    0 <= i < old(self).players@.len() ==> (#[trigger] old(
                        self,
                    ).players@[i]).hand_cards.len() == 0
            }) ==> {
                &&& final (self).game_dealer.deck matches Some(rest) && rest@ == old(
                    self,
                ).game_dealer.deck->0@.take(
                    old(self).game_dealer.deck->0@.len() - 2 * old(self).players@.len(),
                )
                &&& forall|i: int|
                    0 <= i < old(self).players@.len()
                        ==> (#[trigger] final (self).players@[i]).hand_cards@ == seq![
                        old(self).game_dealer.deck->0@[old(self).game_dealer.deck->0@.len() - 1 - 2
                            * i],
                        old(self).game_dealer.deck->0@[old(self).game_dealer.deck->0@.len() - 2 - 2
                            * i],
                    ]
            },
    {
        let ghost before = *self;
        if !self.is_dealer_ready() {
            return ;
        }
        let ghost d0 = self.game_dealer.deck->0@;
        let ghost clean = self.game_dealer.deck is Some && d0.len() >= 2 * self.players@.len()
            && (forall|i: int|
            0 <= i < self.players@.len() ==> (#[trigger] self.players@[i]).hand_cards.len() == 0);
        let n = self.players.len();
        let mut i: usize = 0;
        while i < n
            invariant
                i <= n,
                n == self.players@.len(),
                n == before.players@.len(),
                clean == (before.game_dealer.deck is Some && d0.len() >= 2 * n && (forall|j: int|
                    0 <= j < n ==> (#[trigger] before.players@[j]).hand_cards.len() == 0)),
                before.game_dealer.deck is Some ==> d0 == before.game_dealer.deck->0@,
                *self == (PokerGame {
                    players: self.players,
                    game_dealer: self.game_dealer,
                    ..before
                }),
                self.game_dealer == (Dealer { deck: self.game_dealer.deck, ..before.game_dealer }),
                forall|j: int|
                    0 <= j < n ==> (#[trigger] self.players@[j]) == (Player {
                        hand_cards: self.players@[j].hand_cards,
                        ..before.players@[j]
                    }),
                forall|j: int|
                    i <= j < n ==> (#[trigger] self.players@[j]).hand_cards
                        == before.players@[j].hand_cards,
                clean ==> (self.game_dealer.deck matches Some(rest) && rest@ == d0.take(
                    d0.len() - 2 * i,
                )),
                clean ==> forall|j: int|
                    0 <= j < i ==> (#[trigger] self.players@[j]).hand_cards@ == seq![
                        d0[d0.len() - 1 - 2 * j],
                        d0[d0.len() - 2 - 2 * j],
                    ],
            decreases n - i,
        {
            let ghost players_mid = self.players@;
            self.game_dealer.deal_player(&mut self.players[i]);
            proof {
                lemma_sum_coins_update(players_mid, i as int, self.players@[i as int]);
                if clean {
                    assert(self.players@[i as int].hand_cards@ =~= seq![
                        d0[d0.len() - 1 - 2 * i],
                        d0[d0.len() - 2 - 2 * i],
                    ]);
                    assert(self.game_dealer.deck->0@ =~= d0.take(d0.len() - 2 * (i + 1)));
                }
            }
            i = i + 1;
        }
        proof {
            assert(sum_coins(self.players@) == sum_coins(before.players@)) by {
                lemma_sum_coins_frame(before.players@, self.players@);
            }
        }
    }

    /// Drives the hand through its phases: checks readiness, waits for the
    /// deal, then runs one betting pass per street with the community
    /// reveals between them, and finishes with the showdown. A failed
    /// betting pass halts progression on its street, to be resumed by the
    /// caller; phases only ever move forward. A street opens its community
    /// cards before its betting pass, so re-entering a halted street runs
    /// its reveal again; only a finished hand promises the final five-card
    /// community.
    pub fn play(&mut self) -> (r: PlayOutcome)
        requires
            old(self).wf(),
            old(self).players.len() <= usize::MAX / 16,
            old(self).game_dealer.deck matches Some(d) ==> d.len() >= pending_reveals(
                old(self).game_state,
            ),
            forall|i: int|
                0 <= i < old(self).players@.len() && (#[trigger] old(
                    self,
                ).players@[i]).hand_cards.len() > 0 ==> has_kicker(
                    old(self).players@[i].hand_cards@ + old(self).final_community(),
                ),
        ensures
            final (self).wf(),
            final (self).total_money() == old(self).total_money(),
            *final (self) == (PokerGame {
                players: final (self).players,
                pot: final (self).pot,
                highest_bet: final (self).highest_bet,
                game_state: final (self).game_state,
                game_dealer: final (self).game_dealer,
                community_deck: final (self).community_deck,
                ..*old(self)
            }),
            final (self).players@.len() == old(self).players@.len(),
            forall|i: int|
                0 <= i < old(self).players@.len()
                    ==> (#[trigger] final (self).players@[i]).hand_cards == old(
                    self,
                ).players@[i].hand_cards,
            final (self).pot >= old(self).pot,
            forall|i: int|
                0 <= i < old(self).players@.len() ==> (#[trigger] final (self).players@[i]).coins
                    <= old(self).players@[i].coins,
            phase_rank(final (self).game_state) >= phase_rank(old(self).game_state),
            r matches PlayOutcome::Finished(out) ==> final (self).game_state == GamePhase::Showdown
                && final (self).showdown_ok(out) && final (self).community_deck@ == old(
                self,
            ).final_community(),
            !old(self).dealer_ready_spec() <==> r == PlayOutcome::Halted(PlayHalt::DealerNotReady),
            r == PlayOutcome::Halted(PlayHalt::DealerNotReady) ==> *final (self) == *old(self),
            old(self).dealer_ready_spec() && old(self).game_state == GamePhase::Initial && !(forall|
                i: int,
            |
                0 <= i < old(self).players@.len() ==> (#[trigger] old(
                    self,
                ).players@[i]).hand_cards.len() == 2) ==> r == PlayOutcome::Halted(
                PlayHalt::PlayersNotReady,
            ) && *final (self) == *old(self),
            r == PlayOutcome::Halted(PlayHalt::PlayersNotReady) ==> final (self).game_state
                == GamePhase::Initial,
            r == PlayOutcome::Halted(PlayHalt::RoundAborted) || r == PlayOutcome::Halted(
                PlayHalt::RoundStalled,
            ) ==> 1 <= phase_rank(final (self).game_state) <= 4,
    {
        if !self.is_dealer_ready() {
            return PlayOutcome::Halted(PlayHalt::DealerNotReady);
        }
        let ghost target = old(self).final_community();
        loop
            invariant
                old(self).dealer_ready_spec(),
                self.game_state == GamePhase::Initial ==> *self == *old(self),
                old(self).game_state == GamePhase::Initial && self.game_state != GamePhase::Initial
                    ==> (forall|i: int|
                    0 <= i < old(self).players@.len() ==> (#[trigger] old(
                        self,
                    ).players@[i]).hand_cards.len() == 2),
                self.wf(),
                self.players.len() <= usize::MAX / 16,
                self.total_money() == old(self).total_money(),
                *self == (PokerGame {
                    players: self.players,
                    pot: self.pot,
                    highest_bet: self.highest_bet,
                    game_state: self.game_state,
                    game_dealer: self.game_dealer,
                    community_deck: self.community_deck,
                    ..*old(self)
                }),
                self.game_dealer == (Dealer {
                    deck: self.game_dealer.deck,
                    ..old(self).game_dealer
                }),
                self.players@.len() == old(self).players@.len(),
                forall|i: int|
                    0 <= i < old(self).players@.len() ==> (#[trigger] self.players@[i]).hand_cards
                        == old(self).players@[i].hand_cards,
                self.pot >= old(self).pot,
                forall|i: int|
                    0 <= i < old(self).players@.len() ==> (#[trigger] self.players@[i]).coins
                        <= old(self).players@[i].coins,
                self.game_dealer.deck matches Some(d) ==> d.len() >= pending_reveals(
                    self.game_state,
                ),
                target == old(self).final_community(),
                self.final_community() == target,
                forall|i: int|
                    0 <= i < old(self).players@.len() && (#[trigger] old(
                        self,
                    ).players@[i]).hand_cards.len() > 0 ==> has_kicker(
                        old(self).players@[i].hand_cards@ + target,
                    ),
                phase_rank(self.game_state) >= phase_rank(old(self).game_state),
            decreases 5 - phase_rank(self.game_state),
        {
            match self.game_state {
                GamePhase::Initial => {
                    if self.are_players_ready() {
                        self.set_game_state(GamePhase::PreFlop);
                    } else {
                        return PlayOutcome::Halted(PlayHalt::PlayersNotReady);
                    }
                },
                GamePhase::PreFlop => {
                    match self.round_decisions(None) {
                        RoundStatus::Over => {
                            self.set_game_state(GamePhase::Flop);
                        },
                        RoundStatus::Aborted => {
                            return PlayOutcome::Halted(PlayHalt::RoundAborted);
                        },
                        RoundStatus::Ongoing => {
                            return PlayOutcome::Halted(PlayHalt::RoundStalled);
                        },
                    }
                },
                GamePhase::Flop => {
                    let ghost pre = *self;
                    self.request_dealer_open_cards(3);
                    let ghost opened = *self;
                    match self.round_decisions(None) {
                        RoundStatus::Over => {
                            self.set_game_state(GamePhase::Turn);
                            proof {
                                if pre.game_dealer.deck is Some {
                                    Self::lemma_reveal_chunk(pre, opened, 3);
                                }
                                assert(self.final_community() == target);
                            }
                        },
                        RoundStatus::Aborted => {
                            return PlayOutcome::Halted(PlayHalt::RoundAborted);
                        },
                        RoundStatus::Ongoing => {
                            return PlayOutcome::Halted(PlayHalt::RoundStalled);
                        },
                    }
                },
                GamePhase::Turn => {
                    let ghost pre = *self;
                    self.request_dealer_open_cards(1);
                    let ghost opened = *self;
                    match self.round_decisions(None) {
                        RoundStatus::Over => {
                            self.set_game_state(GamePhase::River);
                            proof {
                                if pre.game_dealer.deck is Some {
                                    Self::lemma_reveal_chunk(pre, opened, 1);
                                }
                                assert(self.final_community() == target);
                            }
                        },
                        RoundStatus::Aborted => {
                            return PlayOutcome::Halted(PlayHalt::RoundAborted);
                        },
                        RoundStatus::Ongoing => {
                            return PlayOutcome::Halted(PlayHalt::RoundStalled);
                        },
                    }
                },
                GamePhase::River => {
                    let ghost pre = *self;
                    self.request_dealer_open_cards(1);
                    let ghost opened = *self;
                    match self.round_decisions(None) {
                        RoundStatus::Over => {
                            self.set_game_state(GamePhase::Showdown);
                            proof {
                                if pre.game_dealer.deck is Some {
                                    Self::lemma_reveal_chunk(pre, opened, 1);
                                }
                                assert(self.final_community() == target);
                            }
                        },
                        RoundStatus::Aborted => {
                            return PlayOutcome::Halted(PlayHalt::RoundAborted);
                        },
                        RoundStatus::Ongoing => {
                            return PlayOutcome::Halted(PlayHalt::RoundStalled);
                        },
                    }
                },
                GamePhase::Showdown => {
                    proof {
                        assert(self.community_deck@ =~= target);
                        assert(self.kicker_available()) by {
                            assert forall|i: int|
                                0 <= i < self.players@.len() && eligible(
                                    #[trigger] self.players@[i],
                                ) implies has_kicker(
                                self.players@[i].hand_cards@ + self.community_deck@,
                            ) by {
                                assert(self.players@[i].hand_cards == old(
                                    self,
                                ).players@[i].hand_cards);
                            }
                        }
                    }
                    let out = self.determine_winner();
                    return PlayOutcome::Finished(out);
                },
            }
        }
    }

    /// Opening a chunk of reveals leaves the showdown community unchanged:
    /// what moved from the deck to the table is exactly the front of what
    /// was still to come.
    proof fn lemma_reveal_chunk(pre: PokerGame, post: PokerGame, k: int)
        requires
            pre.game_dealer.deck matches Some(d) && d.len() >= pending_reveals(pre.game_state),
            0 <= k <= pending_reveals(pre.game_state),
            pre.game_state == post.game_state,
            post.community_deck@ == pre.community_deck@ + pre.game_dealer.deck->0@.subrange(
                pre.game_dealer.deck->0@.len() - k,
                pre.game_dealer.deck->0@.len() as int,
            ).reverse(),
            post.game_dealer.deck matches Some(rest) && rest@ == pre.game_dealer.deck->0@.take(
                pre.game_dealer.deck->0@.len() - k,
            ),
            pending_reveals(post.game_state) >= 0,
        ensures
            post.community_deck@ + (match post.game_dealer.deck {
                Some(rest) => rest@.subrange(
                    rest@.len() - (pending_reveals(pre.game_state) - k),
                    rest@.len() as int,
                ).reverse(),
                None => Seq::empty(),
            }) == pre.final_community(),
    {
        let d = pre.game_dealer.deck->0@;
        let p = pending_reveals(pre.game_state);
        let rest = post.game_dealer.deck->0@;
        assert(d.subrange(d.len() - k, d.len() as int).reverse() + rest.subrange(
            rest.len() - (p - k),
            rest.len() as int,
        ).reverse() =~= d.subrange(d.len() - p, d.len() as int).reverse());
        assert(post.community_deck@ + rest.subrange(rest.len() - (p - k), rest.len() as int).reverse()
            =~= pre.final_community());
    }
}

} // verus!






