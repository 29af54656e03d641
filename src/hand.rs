use crate::card::{deck, deck_cards, parse_result, Card, CardError};
use rand::seq::SliceRandom;
use vstd::prelude::*;

verus! {

/// The four cards a player keeps, in the order they were given.
#[derive(Debug, PartialEq, Eq)]
pub struct Hand {
    pub hand: [Card; 4],
}

/// A hand together with the cut card: the five cards that score.
#[derive(Debug, PartialEq, Eq)]
pub struct Show {
    pub hand: Hand,
    pub cut: Card,
}

/// The characters of each code.
pub open spec fn code_views(codes: Seq<&str>) -> Seq<Seq<char>> {
    codes.map_values(|s: &str| s@)
}

/// `r` is what parsing every code in turn gives: all the cards when each
/// code parses, else the error of the first code that does not.
pub open spec fn parsed_codes(codes: Seq<Seq<char>>, r: Result<Seq<Card>, CardError>) -> bool {
    match r {
        Ok(cards) => {
            &&& cards.len() == codes.len()
            &&& forall|i: int| 0 <= i < codes.len() ==> parse_result(#[trigger] codes[i]) == Ok::<Card, CardError>(cards[i])
        },
        Err(e) => exists|i: int|
            {
                &&& 0 <= i < codes.len()
                &&& parse_result(#[trigger] codes[i]) == Err::<Card, CardError>(e)
                &&& forall|j: int| 0 <= j < i ==> parse_result(#[trigger] codes[j]) is Ok
            },
    }
}

/// Every card is a natural card (no ace-high variant) and no two positions
/// hold the same card.
pub open spec fn distinct_natural(cards: Seq<Card>) -> bool {
    &&& forall|i: int| 0 <= i < cards.len() ==> (#[trigger] cards[i]).wf() && cards[i].mask < 13
    &&& forall|i: int, j: int| 0 <= i < cards.len() && 0 <= j < cards.len() && i != j ==> cards[i] != cards[j]
}

/// `drawn` is `k` elements of `pool`, read at distinct positions.
pub open spec fn drawn_from(pool: Seq<Card>, k: int, drawn: Seq<Card>) -> bool {
    drawn.len() == k && exists|pos: Seq<int>| picks_from(pos, pool, drawn)
}

/// `drawn` holds, in order, the elements of `pool` at the distinct positions `pos`.
pub open spec fn picks_from(pos: Seq<int>, pool: Seq<Card>, drawn: Seq<Card>) -> bool {
    &&& pos.len() == drawn.len()
    &&& pos.no_duplicates()
    &&& forall|j: int| 0 <= j < drawn.len() ==> 0 <= #[trigger] pos[j] < pool.len() && drawn[j] == pool[pos[j]]
}

impl Hand {
    /// Every card of the hand is well formed.
    pub open spec fn wf(&self) -> bool {
        forall|i: int| 0 <= i < 4 ==> (#[trigger] self.hand@[i]).wf()
    }

    /// Parses the four card codes of a hand; the first code that fails to
    /// parse gives the error.
    pub fn new(cs: [&str; 4]) -> (r: Result<Hand, CardError>)
        ensures
            parsed_codes(code_views(cs@), hand_cards(r)),
            r matches Ok(h) ==> h.wf(),
    {
        let ghost codes = code_views(cs@);
        let mut v: Vec<Card> = Vec::new();
        let mut i: usize = 0;
        while i < 4
            invariant
                i <= 4,
                codes == code_views(cs@),
                v@.len() == i,
                forall|j: int| 0 <= j < i ==> parse_result(#[trigger] codes[j]) == Ok::<Card, CardError>(v@[j]),
                forall|j: int| 0 <= j < i ==> (#[trigger] v@[j]).wf(),
            decreases 4 - i,
        {
            assert(codes[i as int] == cs@[i as int]@);
            match Card::new(cs[i]) {
                Ok(c) => v.push(c),
                Err(e) => {
                    assert(parse_result(codes[i as int]) == Err::<Card, CardError>(e));
                    assert(forall|j: int| 0 <= j < i ==> parse_result(#[trigger] codes[j]) is Ok);
                    return Err(e);
                },
            }
            i = i + 1;
        }
        let h = hand_of(&v);
        assert(h.wf()) by {
            assert forall|j: int| 0 <= j < 4 implies (#[trigger] h.hand@[j]).wf() by {
                assert(h.hand@[j] == v@[j]);
            }
        }
        Ok(h)
    }

    /// Four distinct natural cards drawn at random from the deck.
    pub fn rand() -> (r: Hand)
        ensures
            drawn_from(deck_cards(), 4, r.hand@),
            distinct_natural(r.hand@),
            r.wf(),
    {
        let d = deck();
        let v = match draw(&d, 4) {
            Ok(v) => v,
            Err(_) => unreached(),
        };
        proof { lemma_drawn_distinct(d@, v@); }
        hand_of(&v)
    }
}

/// The cards of a parsed hand, or its error.
pub open spec fn hand_cards(r: Result<Hand, CardError>) -> Result<Seq<Card>, CardError> {
    match r {
        Ok(h) => Ok(h.hand@),
        Err(e) => Err(e),
    }
}

/// The five cards of a parsed show, or its error.
pub open spec fn show_cards(r: Result<Show, CardError>) -> Result<Seq<Card>, CardError> {
    match r {
        Ok(s) => Ok(s.cards()),
        Err(e) => Err(e),
    }
}

/// Parses the four card codes of a hand; same as `Hand::new`.
pub fn hand(cs: [&str; 4]) -> (r: Result<Hand, CardError>)
    ensures
        parsed_codes(code_views(cs@), hand_cards(r)),
        r matches Ok(h) ==> h.wf(),
{
    Hand::new(cs)
}

impl Show {
    /// The hand's four cards in order, then the cut.
    pub open spec fn cards(&self) -> Seq<Card> {
        self.hand.hand@.push(self.cut)
    }

    /// Every card of the show is well formed.
    pub open spec fn wf(&self) -> bool {
        self.hand.wf() && self.cut.wf()
    }

    /// Parses the hand's four codes and then the cut's code; the first code
    /// that fails to parse gives the error.
    pub fn new(hand: [&str; 4], cut: &str) -> (r: Result<Show, CardError>)
        ensures
            parsed_codes(code_views(hand@).push(cut@), show_cards(r)),
            r matches Ok(s) ==> s.wf(),
    {
        let ghost codes = code_views(hand@).push(cut@);
        let h = match Hand::new(hand) {
            Ok(h) => h,
            Err(e) => {
                proof {
                    let i = choose|i: int|
                        {
                            &&& 0 <= i < code_views(hand@).len()
                            &&& parse_result(#[trigger] code_views(hand@)[i]) == Err::<Card, CardError>(e)
                            &&& forall|j: int| 0 <= j < i ==> parse_result(#[trigger] code_views(hand@)[j]) is Ok
                        };
                    assert(codes[i] == code_views(hand@)[i]);
                    assert forall|j: int| 0 <= j < i implies parse_result(#[trigger] codes[j]) is Ok by {
                        assert(codes[j] == code_views(hand@)[j]);
                    }
                }
                return Err(e);
            },
        };
        let c = match Card::new(cut) {
            Ok(c) => c,
            Err(e) => {
                proof {
                    assert(codes[4] == cut@);
                    assert forall|j: int| 0 <= j < 4 implies parse_result(#[trigger] codes[j]) is Ok by {
                        assert(codes[j] == code_views(hand@)[j]);
                    }
                }
                return Err(e);
            },
        };
        let s = Show { hand: h, cut: c };
        proof {
            assert forall|i: int| 0 <= i < 5 implies parse_result(#[trigger] codes[i]) == Ok::<Card, CardError>(s.cards()[i]) by {
                if i < 4 {
                    assert(codes[i] == code_views(hand@)[i]);
                }
            }
        }
        Ok(s)
    }

    /// Five distinct natural cards drawn at random from the deck: the first
    /// four make the hand, the fifth is the cut.
    pub fn rand() -> (r: Show)
        ensures
            drawn_from(deck_cards(), 5, r.cards()),
            distinct_natural(r.cards()),
            r.wf(),
    {
        let d = deck();
        let v = match draw(&d, 5) {
            Ok(v) => v,
            Err(_) => unreached(),
        };
        proof { lemma_drawn_distinct(d@, v@); }
        show_of(&v)
    }
}

/// The hand of the four cards, in their order.
pub fn hand_of(v: &Vec<Card>) -> (h: Hand)
    requires
        v@.len() == 4,
    ensures
        h.hand@ == v@,
{
    let h = Hand { hand: [v[0], v[1], v[2], v[3]] };
    assert(h.hand@ =~= v@);
    h
}

/// The show of five cards: the first four make the hand, the fifth is the cut.
pub fn show_of(v: &Vec<Card>) -> (s: Show)
    requires
        v@.len() == 5,
    ensures
        s.cards() == v@,
        s.hand.hand@ == v@.take(4),
        s.cut == v@[4],
{
    let s = Show { hand: hand_of(&vec![v[0], v[1], v[2], v[3]]), cut: v[4] };
    assert(s.cards() =~= v@);
    assert(s.hand.hand@ =~= v@.take(4));
    s
}

/// Draws `k` cards at random from distinct positions of `pool`.
pub fn draw(pool: &Vec<Card>, k: usize) -> (r: Result<Vec<Card>, CardError>)
    ensures
        k > pool@.len() ==> r == Err::<Vec<Card>, CardError>(CardError::InsufficientPopulation),
        k <= pool@.len() ==> (r matches Ok(v) && drawn_from(pool@, k as int, v@)),
{
    if k > pool.len() {
        return Err(CardError::InsufficientPopulation);
    }
    Ok(choose_multiple(pool, k))
}

/// Relies on rand's `SliceRandom::choose_multiple`, driven by `thread_rng`:
/// it yields `min(k, len)` elements of the slice, read at distinct positions
/// that `index::sample` picks.
#[verifier::external_body]
fn choose_multiple(pool: &Vec<Card>, k: usize) -> (r: Vec<Card>)
    ensures
        r@.len() == if k <= pool@.len() { k as int } else { pool@.len() as int },
        exists|pos: Seq<int>| picks_from(pos, pool@, r@),
{
    pool.choose_multiple(&mut rand::thread_rng(), k).cloned().collect()
}

/// Cards drawn from distinct positions of a deck of distinct natural cards
/// are themselves distinct natural cards.
proof fn lemma_drawn_distinct(pool: Seq<Card>, drawn: Seq<Card>)
    requires
        distinct_natural(pool),
        drawn_from(pool, drawn.len() as int, drawn),
    ensures
        distinct_natural(drawn),
{
    let pos = choose|pos: Seq<int>| picks_from(pos, pool, drawn);
    assert forall|i: int, j: int| 0 <= i < drawn.len() && 0 <= j < drawn.len() && i != j implies drawn[i] != drawn[j] by {
        assert(pos[i] != pos[j]);
    }
    assert forall|i: int| 0 <= i < drawn.len() implies (#[trigger] drawn[i]).wf() && drawn[i].mask < 13 by {
        assert(0 <= pos[i] < pool.len());
    }
}

} // verus!
