use crate::card::Card;
use crate::hand::Show;
use itertools::Itertools;
use vstd::prelude::*;

verus! {

/// Every increasing sequence of `k` positions drawn from `lo..n`, in
/// lexicographic order.
pub open spec fn combos(lo: int, n: int, k: int) -> Seq<Seq<int>>
    decreases n - lo,
{
    if k <= 0 {
        seq![Seq::empty()]
    } else if lo >= n {
        Seq::empty()
    } else {
        combos(lo + 1, n, k - 1).map_values(|c: Seq<int>| seq![lo] + c) + combos(lo + 1, n, k)
    }
}

/// Number of ways to pick `k` of `m` things.
pub open spec fn binomial(m: int, k: int) -> nat
    decreases m,
{
    if k <= 0 {
        1
    } else if m <= 0 {
        0
    } else {
        binomial(m - 1, k - 1) + binomial(m - 1, k)
    }
}

/// The cards at the given positions.
pub open spec fn picked(cards: Seq<Card>, pos: Seq<int>) -> Seq<Card> {
    pos.map_values(|i: int| cards[i])
}

/// Sum of the pip values of the cards.
pub open spec fn value_sum(cards: Seq<Card>) -> int
    decreases cards.len(),
{
    if cards.len() == 0 {
        0
    } else {
        value_sum(cards.drop_last()) + cards.last().value
    }
}

/// How many of the position sets `sets` pick cards whose values sum to fifteen.
pub open spec fn count_fifteens(cards: Seq<Card>, sets: Seq<Seq<int>>) -> nat
    decreases sets.len(),
{
    if sets.len() == 0 {
        0
    } else {
        count_fifteens(cards, sets.drop_last()) + if value_sum(picked(cards, sets.last())) == 15 {
            1nat
        } else {
            0nat
        }
    }
}

/// How many sets of `k` positions of `cards` hold values that sum to fifteen.
pub open spec fn fifteens_of_size(cards: Seq<Card>, k: int) -> nat {
    count_fifteens(cards, combos(0, cards.len() as int, k))
}

/// The fifteens score: two points for each set of two, three or four
/// positions whose cards' values sum to fifteen.
pub open spec fn fifteens_score(cards: Seq<Card>) -> int {
    2 * (fifteens_of_size(cards, 2) + fifteens_of_size(cards, 3) + fifteens_of_size(cards, 4)) as int
}

/// The largest score that `n` cards could make fits in an `i32`.
pub open spec fn score_fits(n: int) -> bool {
    2 * (binomial(n, 2) + binomial(n, 3) + binomial(n, 4)) <= i32::MAX
}

/// Every card of the sequence is well formed.
pub open spec fn all_wf(cards: Seq<Card>) -> bool {
    forall|i: int| 0 <= i < cards.len() ==> (#[trigger] cards[i]).wf()
}

/// Whether the values of the cards sum to exactly fifteen.
pub fn isfifteen(cs: &[Card]) -> (r: bool)
    requires
        all_wf(cs@),
    ensures
        r == (value_sum(cs@) == 15),
{
    let mut t: i32 = 0;
    let mut i: usize = 0;
    while i < cs.len()
        invariant
            all_wf(cs@),
            i <= cs@.len(),
            t == value_sum(cs@.subrange(0, i as int)),
            0 <= t <= 15,
        decreases cs@.len() - i,
    {
        proof {
            assert(cs@.subrange(0, i + 1).drop_last() =~= cs@.subrange(0, i as int));
            assert(cs@[i as int].wf());
        }
        t = t + cs[i].value;
        i = i + 1;
        if t > 15 {
            proof { lemma_prefix_sum_le(cs@, i as int); }
            return false;
        }
    }
    assert(cs@.subrange(0, i as int) =~= cs@);
    t == 15
}

/// Whether the two cards have the same rank, whatever their suits.
pub fn ispair(c1: &Card, c2: &Card) -> (r: bool)
    ensures
        r == (c1.rank == c2.rank),
{
    c1.rank == c2.rank
}

/// Relies on itertools' `Itertools::combinations` over the range `0..n`:
/// every `k`-element combination of the positions, each an increasing `Vec`,
/// in lexicographic order (none when `k > n`, one empty one when `k == 0`).
#[verifier::external_body]
fn position_combinations(n: usize, k: usize) -> (r: Vec<Vec<usize>>)
    ensures
        r@.len() == combos(0, n as int, k as int).len(),
        forall|i: int| 0 <= i < r@.len() ==> (#[trigger] r@[i])@.map_values(|j: usize| j as int) == combos(0, n as int, k as int)[i],
{
    (0..n).combinations(k).collect()
}

/// How many sets of `k` positions of `cards` hold values that sum to fifteen.
pub fn count_of_size(cards: &Vec<Card>, k: usize) -> (r: u64)
    requires
        all_wf(cards@),
    ensures
        r == fifteens_of_size(cards@, k as int),
        r <= binomial(cards@.len() as int, k as int),
{
    let ghost n = cards@.len() as int;
    let sets = position_combinations(cards.len(), k);
    proof {
        lemma_combos_len(0, n, k as int);
        lemma_combos_in_range(0, n, k as int);
    }
    let ghost all = combos(0, n, k as int);
    let mut t: u64 = 0;
    let mut i: usize = 0;
    while i < sets.len()
        invariant
            all_wf(cards@),
            n == cards@.len(),
            all == combos(0, n, k as int),
            sets@.len() == all.len(),
            all.len() == binomial(n, k as int),
            forall|q: int| 0 <= q < sets@.len() ==> (#[trigger] sets@[q])@.map_values(|j: usize| j as int) == all[q],
            forall|q: int, j: int| 0 <= q < all.len() && 0 <= j < all[q].len() ==> 0 <= #[trigger] all[q][j] < n,
            i <= sets@.len(),
            t <= i,
            t == count_fifteens(cards@, all.take(i as int)),
        decreases sets@.len() - i,
    {
        let set = &sets[i];
        let ghost pos = all[i as int];
        assert(set@.map_values(|j: usize| j as int) == pos);
        let mut xs: Vec<Card> = Vec::new();
        let mut j: usize = 0;
        while j < set.len()
            invariant
                all_wf(cards@),
                n == cards@.len(),
                set@.map_values(|j: usize| j as int) == pos,
                forall|q: int| 0 <= q < pos.len() ==> 0 <= #[trigger] pos[q] < n,
                j <= set@.len(),
                xs@ == picked(cards@, pos.take(j as int)),
            decreases set@.len() - j,
        {
            assert(pos[j as int] == set@[j as int] as int);
            let c = cards[set[j]];
            proof {
                assert(pos.take(j + 1) =~= pos.take(j as int).push(pos[j as int]));
            }
            xs.push(c);
            j = j + 1;
            assert(xs@ =~= picked(cards@, pos.take(j as int)));
        }
        assert(pos.take(j as int) =~= pos);
        assert(all_wf(xs@)) by {
            assert forall|q: int| 0 <= q < xs@.len() implies (#[trigger] xs@[q]).wf() by {
                assert(xs@[q] == cards@[pos[q]]);
            }
        }
        let hit = isfifteen(xs.as_slice());
        proof {
            assert(all.take(i + 1).drop_last() =~= all.take(i as int));
            assert(all.take(i + 1).last() == pos);
        }
        if hit {
            t = t + 1;
        }
        i = i + 1;
    }
    assert(all.take(i as int) =~= all);
    t
}

/// The fifteens score of any sequence of cards.
pub fn score_cards(cards: &Vec<Card>) -> (r: i32)
    requires
        all_wf(cards@),
        score_fits(cards@.len() as int),
    ensures
        r == fifteens_score(cards@),
{
    let two = count_of_size(cards, 2);
    let three = count_of_size(cards, 3);
    let four = count_of_size(cards, 4);
    (2 * (two + three + four)) as i32
}

/// A source of cards that the fifteens rule scores.
pub trait Fifteen {
    spec fn cards_view(&self) -> Seq<Card>;

    /// Every card that takes part in scoring, in a fixed order.
    fn all_cards(&self) -> (r: Vec<Card>)
        ensures
            r@ == self.cards_view(),
    ;

    /// Two points for each set of two, three or four of the cards whose
    /// values sum to fifteen.
    fn score_fifteens(&self) -> (r: i32)
        requires
            all_wf(self.cards_view()),
            score_fits(self.cards_view().len() as int),
        ensures
            r == fifteens_score(self.cards_view()),
    {
        score_cards(&self.all_cards())
    }
}

impl Fifteen for Show {
    open spec fn cards_view(&self) -> Seq<Card> {
        self.cards()
    }

    fn all_cards(&self) -> (r: Vec<Card>) {
        let mut cs: Vec<Card> = Vec::new();
        let mut i: usize = 0;
        while i < 4
            invariant
                i <= 4,
                cs@ == self.hand.hand@.take(i as int),
            decreases 4 - i,
        {
            cs.push(self.hand.hand[i]);
            i = i + 1;
            assert(cs@ =~= self.hand.hand@.take(i as int));
        }
        assert(self.hand.hand@.take(4) =~= self.hand.hand@);
        cs.push(self.cut);
        cs
    }
}

/// Every five-card show can be scored: its largest possible score fits.
pub proof fn lemma_show_score_fits()
    ensures
        score_fits(5),
{
    reveal_with_fuel(binomial, 6);
}

/// Values of cards are never negative, so a prefix never sums to more than
/// the whole.
proof fn lemma_prefix_sum_le(cards: Seq<Card>, i: int)
    requires
        all_wf(cards),
        0 <= i <= cards.len(),
    ensures
        value_sum(cards.subrange(0, i)) <= value_sum(cards),
    decreases cards.len() - i,
{
    if i < cards.len() {
        let next = cards.subrange(0, i + 1);
        assert(next.drop_last() =~= cards.subrange(0, i));
        assert(cards[i].wf());
        lemma_prefix_sum_le(cards, i + 1);
    } else {
        assert(cards.subrange(0, i) =~= cards);
    }
}

/// Each combination lists `k` positions of `lo..n` in increasing order, and
/// no combination appears twice: the combinations are the `k`-element sets
/// of positions, each counted once.
pub proof fn lemma_combos_are_sets(lo: int, n: int, k: int)
    requires
        0 <= lo,
        0 <= k,
    ensures
        combos(lo, n, k).no_duplicates(),
        forall|q: int| 0 <= q < combos(lo, n, k).len() ==> (#[trigger] combos(lo, n, k)[q]).len() == k,
        forall|q: int, a: int, b: int| 0 <= q < combos(lo, n, k).len() && 0 <= a < b < k
            ==> #[trigger] combos(lo, n, k)[q][a] < #[trigger] combos(lo, n, k)[q][b],
    decreases n - lo,
{
    lemma_combos_in_range(lo, n, k);
    if k > 0 && lo < n {
        lemma_combos_are_sets(lo + 1, n, k - 1);
        lemma_combos_are_sets(lo + 1, n, k);
        lemma_combos_in_range(lo + 1, n, k - 1);
        lemma_combos_in_range(lo + 1, n, k);
        let inner = combos(lo + 1, n, k - 1);
        let left = inner.map_values(|c: Seq<int>| seq![lo] + c);
        let right = combos(lo + 1, n, k);
        let all = combos(lo, n, k);
        assert(all == left + right);
        assert forall|q: int| 0 <= q < all.len() implies (#[trigger] all[q]).len() == k by {
            if q < left.len() {
                assert(all[q] == seq![lo] + inner[q]);
            } else {
                assert(all[q] == right[q - left.len()]);
            }
        }
        assert forall|q: int, a: int, b: int| 0 <= q < all.len() && 0 <= a < b < k
            implies #[trigger] all[q][a] < #[trigger] all[q][b] by {
            if q < left.len() {
                let c = inner[q];
                assert(all[q] == seq![lo] + c);
                assert(all[q][b] == c[b - 1]);
                if a > 0 {
                    assert(all[q][a] == c[a - 1]);
                } else {
                    assert(lo + 1 <= c[b - 1]);
                }
            } else {
                assert(all[q] == right[q - left.len()]);
            }
        }
        assert forall|p: int, q: int| 0 <= p < all.len() && 0 <= q < all.len() && p != q
            implies all[p] != all[q] by {
            if p < left.len() && q < left.len() {
                assert(all[p] == seq![lo] + inner[p]);
                assert(all[q] == seq![lo] + inner[q]);
                assert(inner[p] != inner[q]);
                if all[p] == all[q] {
                    assert(inner[p] =~= all[p].drop_first());
                    assert(inner[q] =~= all[q].drop_first());
                }
            } else if p >= left.len() && q >= left.len() {
                assert(all[p] == right[p - left.len()]);
                assert(all[q] == right[q - left.len()]);
            } else {
                let (l, r) = if p < left.len() { (p, q) } else { (q, p) };
                assert(all[l] == seq![lo] + inner[l]);
                assert(all[l][0] == lo);
                assert(all[r] == right[r - left.len()]);
                assert(lo + 1 <= right[r - left.len()][0]);
            }
        }
    } else if k == 0 {
        assert(combos(lo, n, k).len() == 1);
    }
}

/// Every set of `k` positions of `lo..n`, listed in increasing order, is one
/// of the combinations.
pub proof fn lemma_combos_complete(lo: int, n: int, k: int, c: Seq<int>)
    requires
        c.len() == k,
        forall|j: int| 0 <= j < k ==> lo <= #[trigger] c[j] < n,
        forall|a: int, b: int| 0 <= a < b < k ==> #[trigger] c[a] < #[trigger] c[b],
    ensures
        combos(lo, n, k).contains(c),
    decreases n - lo,
{
    if k <= 0 {
        assert(c =~= Seq::<int>::empty());
        assert(combos(lo, n, k)[0] == c);
    } else {
        assert(lo <= c[0] < n);
        let inner = combos(lo + 1, n, k - 1);
        let left = inner.map_values(|x: Seq<int>| seq![lo] + x);
        let right = combos(lo + 1, n, k);
        assert(combos(lo, n, k) == left + right);
        if c[0] == lo {
            let rest = c.drop_first();
            assert forall|a: int, b: int| 0 <= a < b < k - 1 implies #[trigger] rest[a] < #[trigger] rest[b] by {
                assert(c[a + 1] < c[b + 1]);
            }
            assert forall|j: int| 0 <= j < k - 1 implies lo + 1 <= #[trigger] rest[j] < n by {
                assert(c[0] < c[j + 1]);
            }
            lemma_combos_complete(lo + 1, n, k - 1, rest);
            let q = choose|q: int| 0 <= q < inner.len() && inner[q] == rest;
            assert(left[q] =~= c);
            assert((left + right)[q] == c);
        } else {
            assert forall|j: int| 0 <= j < k implies lo + 1 <= #[trigger] c[j] < n by {
                if j > 0 {
                    assert(c[0] < c[j]);
                }
            }
            lemma_combos_complete(lo + 1, n, k, c);
            let q = choose|q: int| 0 <= q < right.len() && right[q] == c;
            assert((left + right)[left.len() + q] == c);
        }
    }
}

/// `c` lists positions of `0..n` in increasing order: a set of positions.
pub open spec fn is_position_set(c: Seq<int>, n: int) -> bool {
    &&& forall|j: int| 0 <= j < c.len() ==> 0 <= #[trigger] c[j] < n
    &&& forall|a: int, b: int| 0 <= a < b < c.len() ==> #[trigger] c[a] < #[trigger] c[b]
}

/// The cards at the positions `c` have values that sum to fifteen.
pub open spec fn sums_to_fifteen(cards: Seq<Card>, c: Seq<int>) -> bool {
    value_sum(picked(cards, c)) == 15
}

/// When exactly one set of two, three or four positions holds cards whose
/// values sum to fifteen, the fifteens score is 2.
pub proof fn lemma_single_fifteen_scores_two(cards: Seq<Card>, c: Seq<int>)
    requires
        is_position_set(c, cards.len() as int),
        2 <= c.len() <= 4,
        sums_to_fifteen(cards, c),
        forall|d: Seq<int>|
            is_position_set(d, cards.len() as int) && 2 <= d.len() <= 4 && d != c
                ==> !sums_to_fifteen(cards, d),
    ensures
        fifteens_score(cards) == 2,
{
    lemma_size_count(cards, c, 2);
    lemma_size_count(cards, c, 3);
    lemma_size_count(cards, c, 4);
}

/// Under the same hypotheses, the qualifying sets of each size number one
/// for the size of `c` and none for any other size.
proof fn lemma_size_count(cards: Seq<Card>, c: Seq<int>, k: int)
    requires
        is_position_set(c, cards.len() as int),
        2 <= c.len() <= 4,
        2 <= k <= 4,
        sums_to_fifteen(cards, c),
        forall|d: Seq<int>|
            is_position_set(d, cards.len() as int) && 2 <= d.len() <= 4 && d != c
                ==> !sums_to_fifteen(cards, d),
    ensures
        fifteens_of_size(cards, k) == if k == c.len() { 1nat } else { 0nat },
{
    let n = cards.len() as int;
    lemma_combos_complete(0, n, c.len() as int, c);
    lemma_combos_are_sets(0, n, k);
    lemma_combos_in_range(0, n, k);
    let sets = combos(0, n, k);
    assert forall|i: int| 0 <= i < sets.len() && sets[i] != c implies !sums_to_fifteen(cards, #[trigger] sets[i]) by {
        assert(sets[i].len() == k);
        assert(is_position_set(sets[i], n));
    }
    if k == c.len() {
        lemma_count_one(cards, sets, c);
    } else {
        assert forall|i: int| 0 <= i < sets.len() implies !sums_to_fifteen(cards, #[trigger] sets[i]) by {
            assert(sets[i].len() == k);
        }
        lemma_count_zero(cards, sets);
    }
}

/// Which position sets hold cards whose values sum to fifteen.
pub open spec fn fifteen_test(cards: Seq<Card>) -> spec_fn(Seq<int>) -> bool {
    |c: Seq<int>| sums_to_fifteen(cards, c)
}

/// Every set of `k` positions of `cards` (listed in increasing order) whose
/// cards' values sum to fifteen.
pub open spec fn fifteen_sets(cards: Seq<Card>, k: int) -> Set<Seq<int>> {
    Set::new(|c: Seq<int>| is_position_set(c, cards.len() as int) && c.len() == k && sums_to_fifteen(cards, c))
}

/// The count of each size is the number of position sets of that size whose
/// cards sum to fifteen, so the fifteens score is twice the number of such
/// sets of two, three or four positions.
pub proof fn lemma_fifteens_count_sets(cards: Seq<Card>)
    ensures
        forall|k: int| 0 <= k ==> #[trigger] fifteens_of_size(cards, k) == fifteen_sets(cards, k).len()
            && fifteen_sets(cards, k).finite(),
        fifteens_score(cards) == 2 * (fifteen_sets(cards, 2).len() + fifteen_sets(cards, 3).len()
            + fifteen_sets(cards, 4).len()),
{
    assert forall|k: int| 0 <= k implies #[trigger] fifteens_of_size(cards, k) == fifteen_sets(cards, k).len()
        && fifteen_sets(cards, k).finite() by {
        lemma_size_count_sets(cards, k);
    }
    lemma_size_count_sets(cards, 2);
    lemma_size_count_sets(cards, 3);
    lemma_size_count_sets(cards, 4);
}

proof fn lemma_size_count_sets(cards: Seq<Card>, k: int)
    requires
        0 <= k,
    ensures
        fifteens_of_size(cards, k) == fifteen_sets(cards, k).len(),
        fifteen_sets(cards, k).finite(),
{
    let n = cards.len() as int;
    let sets = combos(0, n, k);
    lemma_combos_are_sets(0, n, k);
    lemma_combos_in_range(0, n, k);
    lemma_count_is_card(cards, sets);
    let f = fifteen_test(cards);
    assert forall|c: Seq<int>| #[trigger] sets.to_set().filter(f).contains(c) <==> fifteen_sets(cards, k).contains(c) by {
        if fifteen_sets(cards, k).contains(c) {
            lemma_combos_complete(0, n, k, c);
        }
        if sets.to_set().filter(f).contains(c) {
            let q = choose|q: int| 0 <= q < sets.len() && sets[q] == c;
            assert(sets[q].len() == k);
        }
    }
    assert(sets.to_set().filter(f) =~= fifteen_sets(cards, k));
}

/// Over a listing without repeats, the count of qualifying entries is the
/// number of qualifying members of its set.
proof fn lemma_count_is_card(cards: Seq<Card>, sets: Seq<Seq<int>>)
    requires
        sets.no_duplicates(),
    ensures
        count_fifteens(cards, sets) == sets.to_set().filter(fifteen_test(cards)).len(),
        sets.to_set().filter(fifteen_test(cards)).finite(),
    decreases sets.len(),
{
    broadcast use vstd::set::group_set_axioms, vstd::seq_lib::seq_to_set_is_finite;
    let f = fifteen_test(cards);
    if sets.len() == 0 {
        assert(sets.to_set() =~= Set::<Seq<int>>::empty());
        assert(sets.to_set().filter(f) =~= Set::<Seq<int>>::empty());
    } else {
        let rest = sets.drop_last();
        let last = sets.last();
        assert forall|i: int, j: int| 0 <= i < rest.len() && 0 <= j < rest.len() && i != j implies rest[i] != rest[j] by {
            assert(rest[i] == sets[i] && rest[j] == sets[j]);
        }
        lemma_count_is_card(cards, rest);
        assert(sets =~= rest.push(last));
        rest.lemma_push_to_set_commute(last);
        assert(!rest.to_set().contains(last)) by {
            if rest.to_set().contains(last) {
                let q = choose|q: int| 0 <= q < rest.len() && rest[q] == last;
                assert(sets[q] == sets[sets.len() - 1]);
            }
        }
        if f(last) {
            assert(sets.to_set().filter(f) =~= rest.to_set().filter(f).insert(last));
        } else {
            assert(sets.to_set().filter(f) =~= rest.to_set().filter(f));
        }
    }
}

/// No qualifying set: nothing is counted.
proof fn lemma_count_zero(cards: Seq<Card>, sets: Seq<Seq<int>>)
    requires
        forall|i: int| 0 <= i < sets.len() ==> !sums_to_fifteen(cards, #[trigger] sets[i]),
    ensures
        count_fifteens(cards, sets) == 0,
    decreases sets.len(),
{
    if sets.len() > 0 {
        let rest = sets.drop_last();
        assert forall|i: int| 0 <= i < rest.len() implies !sums_to_fifteen(cards, #[trigger] rest[i]) by {
            assert(rest[i] == sets[i]);
        }
        assert(!sums_to_fifteen(cards, sets[sets.len() - 1]));
        lemma_count_zero(cards, rest);
    }
}

/// One listed set qualifies, once, and no other does: it is counted once.
proof fn lemma_count_one(cards: Seq<Card>, sets: Seq<Seq<int>>, c: Seq<int>)
    requires
        sets.no_duplicates(),
        sets.contains(c),
        sums_to_fifteen(cards, c),
        forall|i: int| 0 <= i < sets.len() && sets[i] != c ==> !sums_to_fifteen(cards, #[trigger] sets[i]),
    ensures
        count_fifteens(cards, sets) == 1,
    decreases sets.len(),
{
    let rest = sets.drop_last();
    let last = sets[sets.len() - 1];
    if last == c {
        assert forall|i: int| 0 <= i < rest.len() implies !sums_to_fifteen(cards, #[trigger] rest[i]) by {
            assert(rest[i] == sets[i]);
            assert(sets[i] != sets[sets.len() - 1]);
        }
        lemma_count_zero(cards, rest);
    } else {
        let q = choose|q: int| 0 <= q < sets.len() && sets[q] == c;
        assert(q < sets.len() - 1);
        assert(rest[q] == c);
        assert forall|i: int, j: int| 0 <= i < rest.len() && 0 <= j < rest.len() && i != j implies rest[i] != rest[j] by {
            assert(rest[i] == sets[i] && rest[j] == sets[j]);
        }
        assert forall|i: int| 0 <= i < rest.len() && rest[i] != c implies !sums_to_fifteen(cards, #[trigger] rest[i]) by {
            assert(rest[i] == sets[i]);
        }
        lemma_count_one(cards, rest, c);
    }
}

/// There are `binomial(n - lo, k)` combinations of `k` positions from `lo..n`.
proof fn lemma_combos_len(lo: int, n: int, k: int)
    ensures
        combos(lo, n, k).len() == binomial(n - lo, k),
    decreases n - lo,
{
    if k > 0 && lo < n {
        lemma_combos_len(lo + 1, n, k - 1);
        lemma_combos_len(lo + 1, n, k);
    }
}

/// Every position in a combination drawn from `lo..n` lies in `lo..n`.
proof fn lemma_combos_in_range(lo: int, n: int, k: int)
    requires
        0 <= lo,
    ensures
        forall|q: int, j: int| 0 <= q < combos(lo, n, k).len() && 0 <= j < combos(lo, n, k)[q].len()
            ==> lo <= #[trigger] combos(lo, n, k)[q][j] < n,
    decreases n - lo,
{
    if k > 0 && lo < n {
        lemma_combos_in_range(lo + 1, n, k - 1);
        lemma_combos_in_range(lo + 1, n, k);
        let left = combos(lo + 1, n, k - 1).map_values(|c: Seq<int>| seq![lo] + c);
        let right = combos(lo + 1, n, k);
        let all = combos(lo, n, k);
        assert(all == left + right);
        assert forall|q: int, j: int| 0 <= q < all.len() && 0 <= j < all[q].len()
            implies lo <= #[trigger] all[q][j] < n by {
            if q < left.len() {
                let c = combos(lo + 1, n, k - 1)[q];
                assert(all[q] == seq![lo] + c);
                if j > 0 {
                    assert(all[q][j] == c[j - 1]);
                }
            } else {
                assert(all[q] == right[q - left.len()]);
            }
        }
    }
}

} // verus!
