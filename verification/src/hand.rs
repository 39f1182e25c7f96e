//! The mathematical model of hand classification: counting ranks, flush,
//! straight and wheel detection, category precedence, and the `HandRank`
//! record a showdown attaches to a player.

use vstd::prelude::*;

use crate::card::{Card, Rank};

verus! {

/// The cards of `s` whose rank value is `v`, in their original order.
pub open spec fn cards_of_value(s: Seq<Card>, v: int) -> Seq<Card>
    decreases s.len(),
{
    if s.len() == 0 {
        Seq::empty()
    } else if s.last().value() == v {
        cards_of_value(s.drop_last(), v).push(s.last())
    } else {
        cards_of_value(s.drop_last(), v)
    }
}

/// How many cards of `s` have rank value `v`.
pub open spec fn count_value(s: Seq<Card>, v: int) -> nat {
    cards_of_value(s, v).len()
}

/// Some card of `s` has rank value `v`.
pub open spec fn contains_value(s: Seq<Card>, v: int) -> bool {
    exists|i: int| 0 <= i < s.len() && s[i].value() == v
}

/// Every card of `s` shares one suit. Flush detection runs over the whole
/// candidate set, not a best-five subset: an accepted simplification of
/// this engine.
pub open spec fn is_flush(s: Seq<Card>) -> bool {
    forall|i: int, j: int|
        0 <= i < s.len() && 0 <= j < s.len() ==> s[i].suit == s[j].suit
}

/// All five rank values `lo ..= lo + 4` occur in `s`.
pub open spec fn run_from(s: Seq<Card>, lo: int) -> bool {
    forall|k: int| lo <= k < lo + 5 ==> contains_value(s, k)
}

/// Five consecutive rank values occur in `s` (ace high only).
pub open spec fn is_plain_straight(s: Seq<Card>) -> bool {
    exists|lo: int| 2 <= lo <= 10 && run_from(s, lo)
}

/// The distinct rank values of `s` are exactly {2, 3, 4, 5, 14}: the wheel,
/// in which the ace plays low.
pub open spec fn is_wheel(s: Seq<Card>) -> bool {
    &&& forall|i: int|
        0 <= i < s.len() ==> (#[trigger] s[i].value() == 2 || s[i].value() == 3
            || s[i].value() == 4 || s[i].value() == 5 || s[i].value() == 14)
    &&& contains_value(s, 2)
    &&& contains_value(s, 3)
    &&& contains_value(s, 4)
    &&& contains_value(s, 5)
    &&& contains_value(s, 14)
}

/// A straight: five consecutive ranks, or the wheel.
pub open spec fn is_straight(s: Seq<Card>) -> bool {
    is_plain_straight(s) || is_wheel(s)
}

/// A royal flush: one suit throughout, and the distinct rank values are
/// exactly {10, Jack, Queen, King, Ace}.
pub open spec fn is_royal(s: Seq<Card>) -> bool {
    &&& is_flush(s)
    &&& forall|i: int| 0 <= i < s.len() ==> 10 <= #[trigger] s[i].value() <= 14
    &&& contains_value(s, 10)
    &&& contains_value(s, 11)
    &&& contains_value(s, 12)
    &&& contains_value(s, 13)
    &&& contains_value(s, 14)
}

/// Some rank value has exactly `m` cards in `s`.
pub open spec fn has_rank_count(s: Seq<Card>, m: nat) -> bool {
    exists|v: int| 0 <= v < 15 && count_value(s, v) == m
}

/// One rank with exactly three cards and another with exactly two.
pub open spec fn is_full_house(s: Seq<Card>) -> bool {
    has_rank_count(s, 3) && has_rank_count(s, 2)
}

/// Two distinct rank values of 2 or more, each with exactly two cards.
pub open spec fn has_two_pairs(s: Seq<Card>) -> bool {
    exists|v1: int, v2: int|
        2 <= v1 < v2 < 15 && count_value(s, v1) == 2 && count_value(s, v2) == 2
}

/// The least rank value in `v ..= 14` whose card count is exactly `m`,
/// or 15 if there is none. Picking the lowest such rank is this engine's
/// deliberate tie-break when several ranks share a multiplicity.
pub open spec fn first_count_from(s: Seq<Card>, m: nat, v: int) -> int
    decreases 15 - v,
{
    if v >= 15 {
        15
    } else if count_value(s, v) == m {
        v
    } else {
        first_count_from(s, m, v + 1)
    }
}

/// The least rank value with exactly `m` cards, or 15 if there is none.
pub open spec fn first_rank_with_count(s: Seq<Card>, m: nat) -> int {
    first_count_from(s, m, 0)
}

/// The greatest rank value in `s` (0 for an empty sequence).
pub open spec fn max_value(s: Seq<Card>) -> int
    decreases s.len(),
{
    if s.len() == 0 {
        0
    } else if s.len() == 1 {
        s[0].value()
    } else if s.last().value() > max_value(s.drop_last()) {
        s.last().value()
    } else {
        max_value(s.drop_last())
    }
}

/// Whether a card is shut out of the kicker search for a hand whose top
/// rank value is `top`. The engine excludes by printed label: only the
/// ranks with numeric labels (value at most 10) can match the top value's
/// decimal label, so a face-card top excludes nothing.
pub open spec fn label_excluded(c: Card, top: int) -> bool {
    top <= 10 && c.value() == top
}

/// Some card survives the kicker exclusion.
pub open spec fn has_kicker(s: Seq<Card>) -> bool {
    exists|i: int| 0 <= i < s.len() && !label_excluded(s[i], max_value(s))
}

/// `k` is a valid kicker for `s`: a card of `s` that survives the label
/// exclusion and whose rank value is greatest among the survivors.
pub open spec fn is_kicker(s: Seq<Card>, k: Card) -> bool {
    &&& s.contains(k)
    &&& !label_excluded(k, max_value(s))
    &&& forall|i: int|
        0 <= i < s.len() && !label_excluded(s[i], max_value(s)) ==> s[i].value() <= k.value()
}

/// The category of a candidate set, 0 (high card) through 9 (royal flush),
/// by precedence from strongest to weakest with the first match winning.
pub open spec fn classify(s: Seq<Card>) -> int {
    if is_royal(s) {
        9
    } else if is_straight(s) && is_flush(s) {
        8
    } else if has_rank_count(s, 4) {
        7
    } else if is_full_house(s) {
        6
    } else if is_flush(s) {
        5
    } else if is_straight(s) {
        4
    } else if has_rank_count(s, 3) {
        3
    } else if has_two_pairs(s) {
        2
    } else if has_rank_count(s, 2) {
        1
    } else {
        0
    }
}

/// The display label of each category value.
pub open spec fn category_label(c: int) -> Seq<char> {
    if c == 9 {
        "Royal Flush"@
    } else if c == 8 {
        "Straight Flush"@
    } else if c == 7 {
        "Four of a Kind"@
    } else if c == 6 {
        "Full House"@
    } else if c == 5 {
        "Flush"@
    } else if c == 4 {
        "Straight"@
    } else if c == 3 {
        "Three of a Kind"@
    } else if c == 2 {
        "Two Pairs"@
    } else if c == 1 {
        "One Pair"@
    } else {
        "High Card"@
    }
}

/// Non-strictly ascending by rank value.
pub open spec fn sorted_by_value(s: Seq<Card>) -> bool {
    forall|i: int, j: int| 0 <= i <= j < s.len() ==> s[i].value() <= s[j].value()
}


/// The cards of `s` whose rank value is not `v`, in their original order.
pub open spec fn cards_without_value(s: Seq<Card>, v: int) -> Seq<Card>
    decreases s.len(),
{
    if s.len() == 0 {
        Seq::empty()
    } else if s.last().value() != v {
        cards_without_value(s.drop_last(), v).push(s.last())
    } else {
        cards_without_value(s.drop_last(), v)
    }
}

/// The cards of every rank value below `v` (and at least 2) that has
/// exactly two cards in `s`, grouped by ascending rank value.
pub open spec fn pair_cards_below(s: Seq<Card>, v: int) -> Seq<Card>
    decreases v,
{
    if v <= 2 {
        Seq::empty()
    } else {
        pair_cards_below(s, v - 1) + if count_value(s, v - 1) == 2 {
            cards_of_value(s, v - 1)
        } else {
            Seq::empty()
        }
    }
}

/// How many rank values below `v` (and at least 2) have exactly two cards
/// in `s`.
pub open spec fn pair_rank_count_below(s: Seq<Card>, v: int) -> int
    decreases v,
{
    if v <= 2 {
        0
    } else {
        pair_rank_count_below(s, v - 1) + if count_value(s, v - 1) == 2 {
            1int
        } else {
            0int
        }
    }
}

/// The shape of the winning cards of a wheel straight: the non-ace cards
/// sorted ascending, followed by a synthetic low ace wearing the suit of
/// the lowest non-ace card.
pub open spec fn wheel_cards_ok(s: Seq<Card>, w: Seq<Card>) -> bool {
    &&& w.len() >= 2
    &&& sorted_by_value(w.drop_last())
    &&& w.drop_last().to_multiset() == cards_without_value(s, 14).to_multiset()
    &&& w.last() == (Card { rank: Rank::LowAce, suit: w.drop_last()[0].suit })
}

/// The shape of a straight's winning cards: the whole candidate set sorted
/// ascending for an ace-high straight, the wheel shape otherwise.
pub open spec fn straight_cards_ok(s: Seq<Card>, w: Seq<Card>) -> bool {
    if is_plain_straight(s) {
        &&& sorted_by_value(w)
        &&& w.to_multiset() == s.to_multiset()
        &&& w.len() == s.len()
    } else {
        wheel_cards_ok(s, w)
    }
}

/// What the evaluator promises of the `HandRank` it produces for the
/// candidate set `s` (hole cards `hole` plus the community cards): the
/// category follows the precedence order, the name matches the category,
/// the winning cards are the category's constituting cards, the high card
/// leads them (the player's first hole card for a bare high card), and the
/// kicker is the best card outside the top rank label's exclusion.
pub open spec fn hand_rank_ok(s: Seq<Card>, hole: Seq<Card>, hr: HandRank) -> bool {
    let c = classify(s);
    &&& hr.hand_rank == c
    &&& hr.hand_rank_name@ == category_label(c)
    &&& is_kicker(s, hr.kicker)
    &&& if c == 9 || c == 5 {
        &&& sorted_by_value(hr.winning_cards@)
        &&& hr.winning_cards@.to_multiset() == s.to_multiset()
        &&& hr.winning_cards@.len() == s.len()
        &&& hr.winning_cards@.len() >= 1
        &&& hr.high_card == hr.winning_cards@[0]
    } else if c == 8 {
        &&& straight_cards_ok(s, hr.winning_cards@)
        &&& hr.winning_cards@.len() >= 1
        &&& hr.high_card == hr.winning_cards@[0]
    } else if c == 4 {
        &&& (exists|w: Seq<Card>|
            straight_cards_ok(s, w) && w.len() >= 5 && hr.winning_cards@ == #[trigger] w.take(5))
        &&& hr.winning_cards@.len() == 5
        &&& hr.high_card == hr.winning_cards@[0]
    } else if c == 7 {
        &&& hr.winning_cards@ == cards_of_value(s, first_rank_with_count(s, 4))
        &&& hr.winning_cards@.len() == 4
        &&& hr.high_card == hr.winning_cards@[0]
    } else if c == 6 {
        &&& hr.winning_cards@ == cards_of_value(s, first_rank_with_count(s, 3)) + cards_of_value(
            s,
            first_rank_with_count(s, 2),
        )
        &&& hr.winning_cards@.len() == 5
        &&& hr.high_card == hr.winning_cards@[0]
    } else if c == 3 {
        &&& hr.winning_cards@ == cards_of_value(s, first_rank_with_count(s, 3))
        &&& hr.winning_cards@.len() == 3
        &&& hr.high_card == hr.winning_cards@[0]
    } else if c == 2 {
        &&& hr.winning_cards@ == pair_cards_below(s, 15)
        &&& hr.winning_cards@.len() >= 4
        &&& hr.high_card == hr.winning_cards@[0]
    } else if c == 1 {
        &&& hr.winning_cards@ == cards_of_value(s, first_rank_with_count(s, 2))
        &&& hr.winning_cards@.len() == 2
        &&& hr.high_card == hr.winning_cards@[0]
    } else {
        &&& hr.winning_cards@ == hole
        &&& hole.len() >= 1
        &&& hr.high_card == hole[0]
    }
}


/// Category precedence at the top of the order: a candidate set that is a
/// royal flush also satisfies flush and straight on the same set, so the
/// first-match walk from strongest to weakest is coherent there.
pub proof fn lemma_royal_is_flush_and_straight(s: Seq<Card>)
    requires
        is_royal(s),
    ensures
        is_flush(s),
        is_straight(s),
        classify(s) == 9,
{
    assert(run_from(s, 10)) by {
        assert forall|k: int| 10 <= k < 15 implies contains_value(s, k) by {
            assert(k == 10 || k == 11 || k == 12 || k == 13 || k == 14);
        }
    }
}

/// The wheel straight law: a candidate set whose distinct ranks are
/// exactly {ace, 2, 3, 4, 5} is a straight, and in any winning subset of
/// the wheel shape the final synthetic ace is the lowest card, with
/// numeric rank 1.
pub proof fn lemma_wheel_straight(s: Seq<Card>, w: Seq<Card>)
    requires
        is_wheel(s),
        wheel_cards_ok(s, w),
    ensures
        is_straight(s),
        w.len() >= 1,
        w[w.len() - 1].value() == 1,
        forall|k: int| 0 <= k < w.len() ==> w[w.len() - 1].value() <= (#[trigger] w[k]).value(),
{
}

/// The hand classification attached to a player at showdown: the category,
/// its display name, the cards that constitute the category, the category's
/// leading card, and the kicker that breaks ties outside the category.
#[derive(Clone, Debug)]
pub struct HandRank {
    /// Category strength, 0 (high card) through 9 (royal flush).
    pub hand_rank: u8,
    /// The category's display name.
    pub hand_rank_name: String,
    /// The cards constituting the category.
    pub winning_cards: Vec<Card>,
    /// The leading card of the winning subset.
    pub high_card: Card,
    /// The highest card outside the exclusion of the hand's top rank label.
    pub kicker: Card,
}

} // verus!
