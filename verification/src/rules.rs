//! The hand evaluator: executable detection of each category, the kicker
//! and high-card searches, and the classification that attaches a
//! `HandRank` to a player at showdown.

use vstd::multiset::Multiset;
use vstd::prelude::*;

use crate::card::{Card, Rank};
use crate::hand::{
    cards_of_value, cards_without_value, count_value, contains_value, first_count_from,
    first_rank_with_count, has_rank_count, has_two_pairs, is_flush, is_full_house, is_plain_straight,
    is_royal, is_straight, is_wheel, label_excluded, max_value, pair_cards_below,
    pair_rank_count_below, run_from, sorted_by_value, wheel_cards_ok,
};
use crate::dealer::Dealer;
use crate::hand::{classify, has_kicker, hand_rank_ok, is_kicker, straight_cards_ok, HandRank};
use crate::player::Player;
use crate::poker_game::PokerGame;

verus! {

broadcast use vstd::seq_lib::group_to_multiset_ensures;

/// Every card of `cards_of_value(s, v)` has rank value `v`, and the
/// sequence is exactly as long as the count.
pub proof fn lemma_cards_of_value_values(s: Seq<Card>, v: int)
    ensures
        forall|k: int|
            0 <= k < cards_of_value(s, v).len() ==> (#[trigger] cards_of_value(s, v)[k]).value()
                == v,
    decreases s.len(),
{
    if s.len() > 0 {
        let dl = s.drop_last();
        lemma_cards_of_value_values(dl, v);
        assert forall|k: int| 0 <= k < cards_of_value(s, v).len() implies (#[trigger] cards_of_value(
            s,
            v,
        )[k]).value() == v by {
            if s.last().value() == v {
                assert(cards_of_value(s, v) == cards_of_value(dl, v).push(s.last()));
                if k < cards_of_value(dl, v).len() {
                    assert(cards_of_value(s, v)[k] == cards_of_value(dl, v)[k]);
                }
            } else {
                assert(cards_of_value(s, v) == cards_of_value(dl, v));
            }
        }
    }
}

/// The step a forward scan takes: filtering one more element appends it
/// exactly when it matches.
proof fn lemma_take_step(s: Seq<Card>, i: int)
    requires
        0 <= i < s.len(),
    ensures
        s.take(i + 1).drop_last() =~= s.take(i),
        s.take(i + 1).last() == s[i],
{
}

/// Properties of the first-rank-with-count search from `v`: the result
/// stays in `v ..= 15`, hits a rank with the exact count when below 15,
/// and skips no qualifying rank.
pub proof fn lemma_first_count_props(s: Seq<Card>, m: nat, v: int)
    requires
        0 <= v <= 15,
    ensures
        v <= first_count_from(s, m, v) <= 15,
        first_count_from(s, m, v) < 15 ==> count_value(s, first_count_from(s, m, v)) == m,
        forall|k: int| v <= k < first_count_from(s, m, v) ==> count_value(s, k) != m,
    decreases 15 - v,
{
    if v < 15 && count_value(s, v) != m {
        lemma_first_count_props(s, m, v + 1);
    }
}

/// A scan that found no qualifying rank before `v` agrees with the search
/// started at 0.
pub proof fn lemma_first_count_resume(s: Seq<Card>, m: nat, v: int)
    requires
        0 <= v <= 15,
        forall|k: int| 0 <= k < v ==> count_value(s, k) != m,
    ensures
        first_rank_with_count(s, m) == first_count_from(s, m, v),
    decreases v,
{
    if v > 0 {
        lemma_first_count_resume(s, m, v - 1);
    }
}


/// The pair collection holds exactly two cards per qualifying rank.
proof fn lemma_pair_cards_len(s: Seq<Card>, v: int)
    ensures
        pair_cards_below(s, v).len() == 2 * pair_rank_count_below(s, v),
        pair_rank_count_below(s, v) >= 0,
    decreases v,
{
    if v > 2 {
        lemma_pair_cards_len(s, v - 1);
    }
}

/// The pair collection is sorted ascending: ranks are visited in
/// ascending order and each group's cards share one value below `v`.
proof fn lemma_pair_cards_sorted(s: Seq<Card>, v: int)
    ensures
        sorted_by_value(pair_cards_below(s, v)),
        forall|k: int|
            0 <= k < pair_cards_below(s, v).len() ==> 2 <= (#[trigger] pair_cards_below(
                s,
                v,
            )[k]).value() < v,
    decreases v,
{
    if v > 2 {
        lemma_pair_cards_sorted(s, v - 1);
        lemma_cards_of_value_values(s, v - 1);
    }
}

/// At least one (or two) qualifying ranks exist below `v` when the count
/// says so.
proof fn lemma_pair_count_exists(s: Seq<Card>, v: int)
    ensures
        pair_rank_count_below(s, v) >= 1 ==> exists|v1: int|
            2 <= v1 < v && count_value(s, v1) == 2,
        pair_rank_count_below(s, v) >= 2 ==> exists|v1: int, v2: int|
            2 <= v1 < v2 < v && count_value(s, v1) == 2 && count_value(s, v2) == 2,
    decreases v,
{
    if v > 2 {
        lemma_pair_count_exists(s, v - 1);
        lemma_pair_cards_len(s, v - 1);
    }
}

/// The qualifying-rank count below `v` only grows with `v`.
proof fn lemma_pair_count_mono(s: Seq<Card>, u: int, v: int)
    requires
        u <= v,
    ensures
        pair_rank_count_below(s, u) <= pair_rank_count_below(s, v),
    decreases v - u,
{
    if u < v {
        lemma_pair_count_mono(s, u, v - 1);
        lemma_pair_cards_len(s, v - 1);
    }
}

/// Two distinct qualifying ranks force the count below 15 to reach two.
proof fn lemma_pair_count_from_pairs(s: Seq<Card>, v1: int, v2: int)
    requires
        2 <= v1 < v2 < 15,
        count_value(s, v1) == 2,
        count_value(s, v2) == 2,
    ensures
        pair_rank_count_below(s, 15) >= 2,
{
    lemma_pair_cards_len(s, v1);
    lemma_pair_count_mono(s, v1 + 1, v2);
    lemma_pair_count_mono(s, v2 + 1, 15);
}



/// The ascending-first-match law of pair selection: when pairs exist at
/// both rank 5 and rank 9, one-pair detection settles on a rank no higher
/// than 5 and never on rank 9 — the lowest qualifying rank wins.
pub proof fn lemma_one_pair_prefers_lowest(s: Seq<Card>)
    requires
        count_value(s, 5) == 2,
        count_value(s, 9) == 2,
    ensures
        has_rank_count(s, 2),
        first_rank_with_count(s, 2) <= 5,
        first_rank_with_count(s, 2) != 9,
{
    lemma_first_count_props(s, 2, 0);
}

/// The predicate a wheel's winning-card filter keeps: not the given value.
spec fn not_value(v: int) -> spec_fn(Card) -> bool {
    |c: Card| c.value() != v
}

/// Filtering a sequence by rank value acts on its multiset alone.
proof fn lemma_cwv_filter(s: Seq<Card>, v: int)
    ensures
        cards_without_value(s, v).to_multiset() == s.to_multiset().filter(not_value(v)),
    decreases s.len(),
{
    if s.len() == 0 {
        assert(cards_without_value(s, v).to_multiset() =~= s.to_multiset().filter(not_value(v)));
    } else {
        let dl = s.drop_last();
        lemma_cwv_filter(dl, v);
        assert(dl.push(s.last()) =~= s);
        assert(s.to_multiset() == dl.to_multiset().insert(s.last()));
        if s.last().value() != v {
            assert(cards_without_value(s, v).to_multiset() == cards_without_value(
                dl,
                v,
            ).to_multiset().insert(s.last()));
        }
        assert(cards_without_value(s, v).to_multiset() =~= s.to_multiset().filter(not_value(v)));
    }
}

/// A card of another value survives the filter.
proof fn lemma_cwv_keeps(s: Seq<Card>, v: int, w: int)
    requires
        contains_value(s, w),
        w != v,
    ensures
        contains_value(cards_without_value(s, v), w),
    decreases s.len(),
{
    let i = choose|i: int| 0 <= i < s.len() && s[i].value() == w;
    let dl = s.drop_last();
    if i == s.len() - 1 {
        assert(cards_without_value(s, v) == cards_without_value(dl, v).push(s.last()));
        let n = cards_without_value(s, v).len();
        assert(cards_without_value(s, v)[n - 1].value() == w);
    } else {
        assert(contains_value(dl, w)) by {
            assert(dl[i].value() == w);
        }
        lemma_cwv_keeps(dl, v, w);
        let j = choose|j: int|
            0 <= j < cards_without_value(dl, v).len() && cards_without_value(dl, v)[j].value()
                == w;
        assert(cards_without_value(s, v)[j].value() == w);
    }
}


/// A straight involves at least five cards: its five distinct rank values
/// need five distinct positions. A wheel additionally keeps at least four
/// cards once the aces are filtered away.
proof fn lemma_straight_len(s: Seq<Card>)
    requires
        is_straight(s),
    ensures
        s.len() >= 5,
        !is_plain_straight(s) ==> cards_without_value(s, 14).len() >= 4,
{
    if is_plain_straight(s) {
        let lo = choose|lo: int| 2 <= lo <= 10 && run_from(s, lo);
        assert(contains_value(s, lo));
        assert(contains_value(s, lo + 1));
        assert(contains_value(s, lo + 2));
        assert(contains_value(s, lo + 3));
        assert(contains_value(s, lo + 4));
        let i0 = choose|i: int| 0 <= i < s.len() && s[i].value() == lo;
        let i1 = choose|i: int| 0 <= i < s.len() && s[i].value() == lo + 1;
        let i2 = choose|i: int| 0 <= i < s.len() && s[i].value() == lo + 2;
        let i3 = choose|i: int| 0 <= i < s.len() && s[i].value() == lo + 3;
        let i4 = choose|i: int| 0 <= i < s.len() && s[i].value() == lo + 4;
        assert(s.len() >= 5);
    } else {
        let w = cards_without_value(s, 14);
        lemma_cwv_keeps(s, 14, 2);
        lemma_cwv_keeps(s, 14, 3);
        lemma_cwv_keeps(s, 14, 4);
        lemma_cwv_keeps(s, 14, 5);
        let j0 = choose|i: int| 0 <= i < w.len() && w[i].value() == 2;
        let j1 = choose|i: int| 0 <= i < w.len() && w[i].value() == 3;
        let j2 = choose|i: int| 0 <= i < w.len() && w[i].value() == 4;
        let j3 = choose|i: int| 0 <= i < w.len() && w[i].value() == 5;
        assert(w.len() >= 4);
        let i0 = choose|i: int| 0 <= i < s.len() && s[i].value() == 2;
        let i1 = choose|i: int| 0 <= i < s.len() && s[i].value() == 3;
        let i2 = choose|i: int| 0 <= i < s.len() && s[i].value() == 4;
        let i3 = choose|i: int| 0 <= i < s.len() && s[i].value() == 5;
        let i4 = choose|i: int| 0 <= i < s.len() && s[i].value() == 14;
        assert(s.len() >= 5);
    }
}

impl PokerGame {
    /// The numeric rank value of a card; every rank has one.
    pub fn get_card_rank(card: &Card) -> (r: Option<u32>)
        ensures
            r == Some(card.value() as u32),
    {
        Some(card.get_rank().numeric_value())
    }

    /// The cards of `hand` with rank value `v`, in hand order.
    fn cards_with_value(hand: &Vec<Card>, v: u32) -> (r: Vec<Card>)
        ensures
            r@ == cards_of_value(hand@, v as int),
            r@.len() == count_value(hand@, v as int),
    {
        let mut r: Vec<Card> = Vec::new();
        let mut i: usize = 0;
        while i < hand.len()
            invariant
                i <= hand.len(),
                r@ == cards_of_value(hand@.take(i as int), v as int),
            decreases hand.len() - i,
        {
            proof {
                lemma_take_step(hand@, i as int);
            }
            if hand[i].get_rank().numeric_value() == v {
                r.push(hand[i]);
            }
            i = i + 1;
        }
        proof {
            assert(hand@.take(hand@.len() as int) =~= hand@);
        }
        r
    }

    /// How many cards of `hand` have rank value `v`.
    fn count_with_value(hand: &Vec<Card>, v: u32) -> (r: usize)
        ensures
            r == count_value(hand@, v as int),
    {
        let cards = Self::cards_with_value(hand, v);
        cards.len()
    }

    /// Whether some card of `hand` has rank value `v`.
    fn contains_rank_value(hand: &Vec<Card>, v: u32) -> (r: bool)
        ensures
            r == contains_value(hand@, v as int),
    {
        let mut i: usize = 0;
        while i < hand.len()
            invariant
                i <= hand.len(),
                forall|k: int| 0 <= k < i ==> (#[trigger] hand@[k]).value() != v,
            decreases hand.len() - i,
        {
            if hand[i].get_rank().numeric_value() == v {
                return true;
            }
            i = i + 1;
        }
        false
    }

    /// The least rank value whose card count is exactly `m`, if any.
    fn find_first_with_count(hand: &Vec<Card>, m: usize) -> (r: Option<u32>)
        ensures
            match r {
                Some(v) => v == first_rank_with_count(hand@, m as nat) && v < 15,
                None => first_rank_with_count(hand@, m as nat) == 15,
            },
    {
        let mut v: u32 = 0;
        while v < 15
            invariant
                v <= 15,
                forall|k: int| 0 <= k < v ==> count_value(hand@, k) != m,
            decreases 15 - v,
        {
            if Self::count_with_value(hand, v) == m {
                proof {
                    lemma_first_count_resume(hand@, m as nat, v as int);
                }
                return Some(v);
            }
            v = v + 1;
        }
        proof {
            lemma_first_count_resume(hand@, m as nat, 15);
        }
        None
    }

    /// A copy of the hand sorted ascending by rank value, by selection of
    /// the least remaining card.
    fn sorted_copy(hand: &Vec<Card>) -> (r: Vec<Card>)
        ensures
            sorted_by_value(r@),
            r@.to_multiset() == hand@.to_multiset(),
            r@.len() == hand@.len(),
    {
        let mut rest: Vec<Card> = hand.clone();
        proof {
            assert(rest@ =~= hand@);
        }
        let mut out: Vec<Card> = Vec::new();
        while rest.len() > 0
            invariant
                out@.to_multiset().add(rest@.to_multiset()) == hand@.to_multiset(),
                out@.len() + rest@.len() == hand@.len(),
                sorted_by_value(out@),
                forall|a: int, b: int|
                    0 <= a < out@.len() && 0 <= b < rest@.len() ==> (#[trigger] out@[a]).value()
                        <= (#[trigger] rest@[b]).value(),
            decreases rest.len(),
        {
            let mut mi: usize = 0;
            let mut k: usize = 1;
            while k < rest.len()
                invariant
                    mi < rest@.len(),
                    k <= rest@.len(),
                    forall|t: int| 0 <= t < k ==> rest@[mi as int].value() <= (#[trigger] rest@[t]).value(),
                decreases rest.len() - k,
            {
                if rest[k].get_rank().numeric_value() < rest[mi].get_rank().numeric_value() {
                    mi = k;
                }
                k = k + 1;
            }
            let ghost rest_before = rest@;
            let c = rest.remove(mi);
            out.push(c);
            proof {
                assert(out@.to_multiset().add(rest@.to_multiset()) =~= hand@.to_multiset());
            }
        }
        proof {
            assert(rest@.to_multiset() =~= Multiset::<Card>::empty());
            assert(out@.to_multiset() =~= hand@.to_multiset());
        }
        out
    }

    /// Sorts the hand ascending by rank value in place and hands back a
    /// copy of it.
    pub fn get_sorted_cards(&self, hand: &mut Vec<Card>) -> (r: Vec<Card>)
        ensures
            sorted_by_value(final (hand)@),
            final (hand)@.to_multiset() == old(hand)@.to_multiset(),
            final (hand)@.len() == old(hand)@.len(),
            r@ == final (hand)@,
    {
        let sorted = Self::sorted_copy(hand);
        let copy = sorted.clone();
        proof {
            assert(copy@ =~= sorted@);
        }
        *hand = sorted;
        copy
    }

    /// Whether the whole hand shares one suit, together with the hand
    /// sorted ascending by rank value.
    pub fn get_flush(hand: &Vec<Card>) -> (r: (bool, Vec<Card>))
        requires
            hand.len() >= 1,
        ensures
            r.0 == is_flush(hand@),
            sorted_by_value(r.1@),
            r.1@.to_multiset() == hand@.to_multiset(),
            r.1@.len() == hand@.len(),
    {
        let sorted = Self::sorted_copy(hand);
        let first_suit = hand[0].get_suit();
        let mut same = true;
        let mut i: usize = 0;
        while i < hand.len()
            invariant
                i <= hand.len(),
                hand.len() >= 1,
                first_suit == hand@[0].suit,
                same == forall|k: int| 0 <= k < i ==> (#[trigger] hand@[k]).suit == first_suit,
            decreases hand.len() - i,
        {
            if !(hand[i].get_suit() == first_suit) {
                same = false;
            }
            i = i + 1;
        }
        (same, sorted)
    }

    /// The highest-ranked card of the hand, with its rank value; absent
    /// only for an empty hand.
    pub fn get_high_card_rank(cards: &Vec<Card>) -> (r: (Option<u32>, Option<Card>))
        ensures
            cards@.len() == 0 ==> r == (None::<u32>, None::<Card>),
            cards@.len() > 0 ==> {
                &&& r.1 matches Some(c) && cards@.contains(c) && c.value() == max_value(cards@)
                &&& r.0 == Some(max_value(cards@) as u32)
            },
    {
        if cards.len() == 0 {
            return (None, None);
        }
        let mut best = cards[0];
        let mut i: usize = 1;
        while i < cards.len()
            invariant
                1 <= i <= cards.len(),
                cards@.contains(best),
                best.value() == max_value(cards@.take(i as int)),
            decreases cards.len() - i,
        {
            proof {
                lemma_take_step(cards@, i as int);
                assert(cards@.take(i + 1).len() == i + 1);
            }
            if cards[i].get_rank().numeric_value() > best.get_rank().numeric_value() {
                best = cards[i];
                proof {
                    assert(cards@[i as int] == cards@.take(i + 1).last());
                }
            }
            i = i + 1;
        }
        proof {
            assert(cards@.take(cards@.len() as int) =~= cards@);
        }
        (Some(best.get_rank().numeric_value()), Some(best))
    }

    /// The kicker search: the highest-ranked card whose printed label does
    /// not match the decimal label of `exclude_value`. Only ranks with
    /// numeric labels (value at most 10) can match, so excluding a
    /// face-card value excludes nothing.
    pub fn get_kicker(hand: &Vec<Card>, exclude_value: u32) -> (r: (Option<u32>, Option<Card>))
        ensures
            (exists|i: int|
                0 <= i < hand@.len() && !label_excluded(hand@[i], exclude_value as int)) <==> r.1
                is Some,
            r.1 matches Some(k) ==> {
                &&& hand@.contains(k)
                &&& !label_excluded(k, exclude_value as int)
                &&& forall|i: int|
                    0 <= i < hand@.len() && !label_excluded(hand@[i], exclude_value as int)
                        ==> (#[trigger] hand@[i]).value() <= k.value()
                &&& r.0 == Some(k.value() as u32)
            },
            r.1 is None ==> r.0 is None,
    {
        let mut best: Option<Card> = None;
        let mut i: usize = 0;
        while i < hand.len()
            invariant
                i <= hand.len(),
                match best {
                    Some(b) => {
                        &&& hand@.contains(b)
                        &&& !label_excluded(b, exclude_value as int)
                        &&& forall|k: int|
                            0 <= k < i && !label_excluded(hand@[k], exclude_value as int)
                                ==> (#[trigger] hand@[k]).value() <= b.value()
                    },
                    None => forall|k: int|
                        0 <= k < i ==> label_excluded(#[trigger] hand@[k], exclude_value as int),
                },
            decreases hand.len() - i,
        {
            let c = hand[i];
            let v = c.get_rank().numeric_value();
            let excluded = exclude_value <= 10 && v == exclude_value;
            if !excluded {
                proof {
                    assert(hand@[i as int] == c);
                }
                match best {
                    Some(b) => {
                        if v > b.get_rank().numeric_value() {
                            best = Some(c);
                        }
                    },
                    None => {
                        best = Some(c);
                    },
                }
            }
            i = i + 1;
        }
        match best {
            Some(b) => (Some(b.get_rank().numeric_value()), Some(b)),
            None => (None, None),
        }
    }

    /// Four of a kind: the lowest rank value with exactly four cards, when
    /// one exists; its four cards are the winning cards. Otherwise the
    /// sorted hand comes back.
    pub fn get_four_of_a_kind(hand: &Vec<Card>) -> (r: (bool, Vec<Card>))
        ensures
            r.0 == has_rank_count(hand@, 4),
            r.0 ==> r.1@ == cards_of_value(hand@, first_rank_with_count(hand@, 4)) && r.1@.len()
                == 4,
            !r.0 ==> sorted_by_value(r.1@) && r.1@.to_multiset() == hand@.to_multiset(),
    {
        match Self::find_first_with_count(hand, 4) {
            Some(v) => {
                proof {
                    lemma_first_count_props(hand@, 4, 0);
                }
                (true, Self::cards_with_value(hand, v))
            },
            None => {
                proof {
                    lemma_first_count_props(hand@, 4, 0);
                }
                (false, Self::sorted_copy(hand))
            },
        }
    }

    /// Three of a kind, by the same lowest-rank-first search.
    pub fn get_three_of_a_kind(hand: &Vec<Card>) -> (r: (bool, Vec<Card>))
        ensures
            r.0 == has_rank_count(hand@, 3),
            r.0 ==> r.1@ == cards_of_value(hand@, first_rank_with_count(hand@, 3)) && r.1@.len()
                == 3,
            !r.0 ==> sorted_by_value(r.1@) && r.1@.to_multiset() == hand@.to_multiset(),
    {
        match Self::find_first_with_count(hand, 3) {
            Some(v) => {
                proof {
                    lemma_first_count_props(hand@, 3, 0);
                }
                (true, Self::cards_with_value(hand, v))
            },
            None => {
                proof {
                    lemma_first_count_props(hand@, 3, 0);
                }
                (false, Self::sorted_copy(hand))
            },
        }
    }

    /// One pair, by the same lowest-rank-first search: when pairs of
    /// several ranks exist, the lowest rank's pair is the one reported.
    pub fn get_one_pair(hand: &Vec<Card>) -> (r: (bool, Vec<Card>))
        ensures
            r.0 == has_rank_count(hand@, 2),
            r.0 ==> r.1@ == cards_of_value(hand@, first_rank_with_count(hand@, 2)) && r.1@.len()
                == 2,
            !r.0 ==> sorted_by_value(r.1@) && r.1@.to_multiset() == hand@.to_multiset(),
    {
        match Self::find_first_with_count(hand, 2) {
            Some(v) => {
                proof {
                    lemma_first_count_props(hand@, 2, 0);
                }
                (true, Self::cards_with_value(hand, v))
            },
            None => {
                proof {
                    lemma_first_count_props(hand@, 2, 0);
                }
                (false, Self::sorted_copy(hand))
            },
        }
    }

    /// A full house: a rank with exactly three cards and a rank with
    /// exactly two, each found lowest-first; the winning cards are the
    /// trips followed by the pair.
    pub fn get_full_house(hand: &Vec<Card>) -> (r: (bool, Vec<Card>))
        ensures
            r.0 == is_full_house(hand@),
            r.0 ==> r.1@ == cards_of_value(hand@, first_rank_with_count(hand@, 3))
                + cards_of_value(hand@, first_rank_with_count(hand@, 2)) && r.1@.len() == 5,
            !r.0 ==> sorted_by_value(r.1@) && r.1@.to_multiset() == hand@.to_multiset(),
    {
        proof {
            lemma_first_count_props(hand@, 3, 0);
            lemma_first_count_props(hand@, 2, 0);
        }
        let three = Self::find_first_with_count(hand, 3);
        let two = Self::find_first_with_count(hand, 2);
        match (three, two) {
            (Some(v3), Some(v2)) => {
                let mut cards = Self::cards_with_value(hand, v3);
                let mut pair = Self::cards_with_value(hand, v2);
                cards.append(&mut pair);
                (true, cards)
            },
            _ => (false, Self::sorted_copy(hand)),
        }
    }

    /// Two pair: every rank of value 2 or more with exactly two cards
    /// contributes its pair, in ascending rank order; the category holds
    /// once at least two such ranks (four cards) are collected.
    pub fn get_two_pairs(hand: &Vec<Card>) -> (r: (bool, Vec<Card>))
        ensures
            r.0 == has_two_pairs(hand@),
            r.0 ==> r.1@ == pair_cards_below(hand@, 15) && r.1@.len() >= 4 && sorted_by_value(
                r.1@,
            ),
            !r.0 ==> sorted_by_value(r.1@) && r.1@.to_multiset() == hand@.to_multiset(),
    {
        let mut pairs: Vec<Card> = Vec::new();
        let mut v: u32 = 2;
        while v < 15
            invariant
                2 <= v <= 15,
                pairs@ == pair_cards_below(hand@, v as int),
            decreases 15 - v,
        {
            if Self::count_with_value(hand, v) == 2 {
                let mut group = Self::cards_with_value(hand, v);
                pairs.append(&mut group);
            } else {
                proof {
                    assert(pairs@ =~= pair_cards_below(hand@, v as int + 1));
                }
            }
            v = v + 1;
        }
        proof {
            lemma_pair_cards_len(hand@, 15);
            lemma_pair_cards_sorted(hand@, 15);
            lemma_pair_count_exists(hand@, 15);
            if has_two_pairs(hand@) {
                let (v1, v2) = choose|v1: int, v2: int|
                    2 <= v1 < v2 < 15 && count_value(hand@, v1) == 2 && count_value(hand@, v2)
                        == 2;
                lemma_pair_count_from_pairs(hand@, v1, v2);
            }
        }
        if pairs.len() >= 4 {
            (true, pairs)
        } else {
            (false, Self::sorted_copy(hand))
        }
    }

    /// Whether all five rank values of the run starting at `lo` occur.
    fn has_run(hand: &Vec<Card>, lo: u32) -> (r: bool)
        requires
            2 <= lo <= 10,
        ensures
            r == run_from(hand@, lo as int),
    {
        let c0 = Self::contains_rank_value(hand, lo);
        let c1 = Self::contains_rank_value(hand, lo + 1);
        let c2 = Self::contains_rank_value(hand, lo + 2);
        let c3 = Self::contains_rank_value(hand, lo + 3);
        let c4 = Self::contains_rank_value(hand, lo + 4);
        let r = c0 && c1 && c2 && c3 && c4;
        proof {
            if r {
                assert forall|k: int| lo <= k < lo + 5 implies contains_value(hand@, k) by {
                    assert(k == lo || k == lo + 1 || k == lo + 2 || k == lo + 3 || k == lo + 4);
                }
            }
        }
        r
    }

    /// The lowest starting value of a five-rank run, if any.
    fn find_run(hand: &Vec<Card>) -> (r: Option<u32>)
        ensures
            r is Some ==> is_plain_straight(hand@),
            r is None ==> !is_plain_straight(hand@),
    {
        let mut lo: u32 = 2;
        while lo <= 10
            invariant
                2 <= lo <= 11,
                forall|l: int| 2 <= l < lo ==> !(#[trigger] run_from(hand@, l)),
            decreases 11 - lo,
        {
            if Self::has_run(hand, lo) {
                return Some(lo);
            }
            lo = lo + 1;
        }
        None
    }

    /// Whether the hand's distinct rank values are exactly the wheel's.
    fn check_wheel(hand: &Vec<Card>) -> (r: bool)
        ensures
            r == is_wheel(hand@),
    {
        let mut in_set = true;
        let mut i: usize = 0;
        while i < hand.len()
            invariant
                i <= hand.len(),
                in_set == forall|k: int|
                    0 <= k < i ==> ((#[trigger] hand@[k]).value() == 2 || hand@[k].value() == 3
                        || hand@[k].value() == 4 || hand@[k].value() == 5 || hand@[k].value()
                        == 14),
            decreases hand.len() - i,
        {
            let v = hand[i].get_rank().numeric_value();
            if !(v == 2 || v == 3 || v == 4 || v == 5 || v == 14) {
                in_set = false;
            }
            i = i + 1;
        }
        in_set && Self::contains_rank_value(hand, 2) && Self::contains_rank_value(hand, 3)
            && Self::contains_rank_value(hand, 4) && Self::contains_rank_value(hand, 5)
            && Self::contains_rank_value(hand, 14)
    }

    /// Straight detection: five consecutive rank values, or the wheel. For
    /// an ace-high straight the whole hand comes back sorted; for a wheel
    /// the aces are replaced by a synthetic low ace wearing the suit of
    /// the lowest remaining card, appended after the sorted non-ace cards.
    pub fn get_straight(hand: &Vec<Card>) -> (r: (bool, Vec<Card>))
        ensures
            r.0 == is_straight(hand@),
            is_plain_straight(hand@) || !is_straight(hand@) ==> sorted_by_value(r.1@)
                && r.1@.to_multiset() == hand@.to_multiset() && r.1@.len() == hand@.len(),
            !is_plain_straight(hand@) && is_wheel(hand@) ==> wheel_cards_ok(hand@, r.1@),
    {
        let sorted = Self::sorted_copy(hand);
        match Self::find_run(hand) {
            Some(_) => (true, sorted),
            None => {
                if Self::check_wheel(hand) {
                    let mut body: Vec<Card> = Vec::new();
                    let mut i: usize = 0;
                    while i < sorted.len()
                        invariant
                            i <= sorted.len(),
                            sorted_by_value(sorted@),
                            body@ == cards_without_value(sorted@.take(i as int), 14),
                            sorted_by_value(body@),
                            i == 0 ==> body@.len() == 0,
                            forall|k: int|
                                0 <= k < body@.len() ==> i > 0 && (#[trigger] body@[k]).value()
                                    <= sorted@[i - 1].value(),
                        decreases sorted.len() - i,
                    {
                        proof {
                            lemma_take_step(sorted@, i as int);
                        }
                        let c = sorted[i];
                        if c.get_rank().numeric_value() != 14 {
                            body.push(c);
                        }
                        i = i + 1;
                    }
                    proof {
                        assert(sorted@.take(sorted@.len() as int) =~= sorted@);
                        lemma_cwv_filter(sorted@, 14);
                        lemma_cwv_filter(hand@, 14);
                        lemma_cwv_keeps(hand@, 14, 2);
                        let w = cards_without_value(hand@, 14);
                        assert(w.to_multiset().len() == w.len());
                        assert(body@.to_multiset().len() == body@.len());
                        assert(body@.len() > 0);
                    }
                    let low_suit = body[0].get_suit();
                    let ghost body_before = body@;
                    body.push(Card::new(Rank::LowAce, low_suit));
                    proof {
                        assert(body@.drop_last() =~= body_before);
                    }
                    (true, body)
                } else {
                    (false, sorted)
                }
            },
        }
    }

    /// Royal flush: one suit throughout and the distinct rank values are
    /// exactly ten through ace.
    pub fn get_royal_flush(hand: &Vec<Card>) -> (r: (bool, Vec<Card>))
        requires
            hand.len() >= 1,
        ensures
            r.0 == is_royal(hand@),
            sorted_by_value(r.1@),
            r.1@.to_multiset() == hand@.to_multiset(),
            r.1@.len() == hand@.len(),
    {
        let (flush, sorted) = Self::get_flush(hand);
        if !flush {
            return (false, sorted);
        }
        let mut in_range = true;
        let mut i: usize = 0;
        while i < hand.len()
            invariant
                i <= hand.len(),
                in_range == forall|k: int|
                    0 <= k < i ==> 10 <= (#[trigger] hand@[k]).value() <= 14,
            decreases hand.len() - i,
        {
            let v = hand[i].get_rank().numeric_value();
            if !(10 <= v && v <= 14) {
                in_range = false;
            }
            i = i + 1;
        }
        let royal = in_range && Self::contains_rank_value(hand, 10) && Self::contains_rank_value(
            hand,
            11,
        ) && Self::contains_rank_value(hand, 12) && Self::contains_rank_value(hand, 13)
            && Self::contains_rank_value(hand, 14);
        (royal, sorted)
    }

    /// The first five cards of a straight's winning sequence.
    fn five_prefix(cards: &Vec<Card>) -> (r: Vec<Card>)
        requires
            cards.len() >= 5,
        ensures
            r@ == cards@.take(5),
    {
        let mut r: Vec<Card> = Vec::new();
        let mut i: usize = 0;
        while i < 5
            invariant
                i <= 5,
                cards@.len() >= 5,
                r@ == cards@.take(i as int),
            decreases 5 - i,
        {
            r.push(cards[i]);
            proof {
                assert(r@ =~= cards@.take(i + 1));
            }
            i = i + 1;
        }
        r
    }

    /// Classifies the player's hole cards together with the community
    /// cards, walking the categories from strongest to weakest, and
    /// attaches the resulting `HandRank` to the player.
    pub fn get_hand_rank(&self, player: Player, dealer: &Dealer, community_deck: &Vec<Card>) -> (r:
        Player)
        requires
            player.hand_cards.len() >= 1,
            has_kicker(player.hand_cards@ + community_deck@),
        ensures
            r == (Player { hand_rank: r.hand_rank, ..player }),
            r.hand_rank matches Some(hr) && hand_rank_ok(
                player.hand_cards@ + community_deck@,
                player.hand_cards@,
                hr,
            ),
    {
        let mut current_player = player;
        let player_cards = match dealer.request_player_hand(&current_player) {
            Some(cards) => cards,
            None => Vec::new(),
        };
        let mut collected = player_cards.clone();
        proof {
            assert(collected@ =~= player_cards@);
        }
        let mut community = community_deck.clone();
        proof {
            assert(community@ =~= community_deck@);
        }
        collected.append(&mut community);
        let ghost s = current_player.hand_cards@ + community_deck@;
        proof {
            assert(collected@ == s);
        }
        let (is_royal_flush, royal_cards) = Self::get_royal_flush(&collected);
        let (is_full, full_cards) = Self::get_full_house(&collected);
        let (is_four, four_cards) = Self::get_four_of_a_kind(&collected);
        let (is_fl, flush_cards) = Self::get_flush(&collected);
        let (is_st, straight_cards) = Self::get_straight(&collected);
        let (is_three, three_cards) = Self::get_three_of_a_kind(&collected);
        let (is_two, two_cards) = Self::get_two_pairs(&collected);
        let (is_one, one_cards) = Self::get_one_pair(&collected);
        let high = Self::get_high_card_rank(&collected);
        let top_value = match high.0 {
            Some(v) => v,
            None => 0,
        };
        let kicker_card = match Self::get_kicker(&collected, top_value).1 {
            Some(k) => k,
            None => {
                proof {
                    assert(false);
                }
                collected[0]
            },
        };
        proof {
            assert(is_kicker(s, kicker_card));
        }
        if is_royal_flush {
            let high_card = royal_cards[0];
            current_player.set_handrank(
                HandRank {
                    hand_rank: 9,
                    hand_rank_name: "Royal Flush".to_owned(),
                    winning_cards: royal_cards,
                    high_card,
                    kicker: kicker_card,
                },
            );
            return current_player;
        }
        if is_st && is_fl {
            proof {
                lemma_straight_len(s);
            }
            let high_card = straight_cards[0];
            current_player.set_handrank(
                HandRank {
                    hand_rank: 8,
                    hand_rank_name: "Straight Flush".to_owned(),
                    winning_cards: straight_cards,
                    high_card,
                    kicker: kicker_card,
                },
            );
            return current_player;
        }
        if is_four {
            let high_card = four_cards[0];
            current_player.set_handrank(
                HandRank {
                    hand_rank: 7,
                    hand_rank_name: "Four of a Kind".to_owned(),
                    winning_cards: four_cards,
                    high_card,
                    kicker: kicker_card,
                },
            );
            return current_player;
        }
        if is_full {
            let high_card = full_cards[0];
            current_player.set_handrank(
                HandRank {
                    hand_rank: 6,
                    hand_rank_name: "Full House".to_owned(),
                    winning_cards: full_cards,
                    high_card,
                    kicker: kicker_card,
                },
            );
            return current_player;
        }
        if is_fl {
            let high_card = flush_cards[0];
            current_player.set_handrank(
                HandRank {
                    hand_rank: 5,
                    hand_rank_name: "Flush".to_owned(),
                    winning_cards: flush_cards,
                    high_card,
                    kicker: kicker_card,
                },
            );
            return current_player;
        }
        if is_st {
            proof {
                lemma_straight_len(s);
                if !is_plain_straight(s) {
                    let body = straight_cards@.drop_last();
                    assert(body.to_multiset().len() == body.len());
                    assert(cards_without_value(s, 14).to_multiset().len() == cards_without_value(
                        s,
                        14,
                    ).len());
                }
                assert(straight_cards@.len() >= 5);
            }
            let winning = Self::five_prefix(&straight_cards);
            let high_card = winning[0];
            proof {
                assert(straight_cards_ok(s, straight_cards@));
                assert(winning@ == straight_cards@.take(5));
            }
            current_player.set_handrank(
                HandRank {
                    hand_rank: 4,
                    hand_rank_name: "Straight".to_owned(),
                    winning_cards: winning,
                    high_card,
                    kicker: kicker_card,
                },
            );
            return current_player;
        }
        if is_three {
            let high_card = three_cards[0];
            current_player.set_handrank(
                HandRank {
                    hand_rank: 3,
                    hand_rank_name: "Three of a Kind".to_owned(),
                    winning_cards: three_cards,
                    high_card,
                    kicker: kicker_card,
                },
            );
            return current_player;
        }
        if is_two {
            let high_card = two_cards[0];
            current_player.set_handrank(
                HandRank {
                    hand_rank: 2,
                    hand_rank_name: "Two Pairs".to_owned(),
                    winning_cards: two_cards,
                    high_card,
                    kicker: kicker_card,
                },
            );
            return current_player;
        }
        if is_one {
            let high_card = one_cards[0];
            current_player.set_handrank(
                HandRank {
                    hand_rank: 1,
                    hand_rank_name: "One Pair".to_owned(),
                    winning_cards: one_cards,
                    high_card,
                    kicker: kicker_card,
                },
            );
            return current_player;
        }
        let high_card = player_cards[0];
        current_player.set_handrank(
            HandRank {
                hand_rank: 0,
                hand_rank_name: "High Card".to_owned(),
                winning_cards: player_cards,
                high_card,
                kicker: kicker_card,
            },
        );
        current_player
    }
}

} // verus!






