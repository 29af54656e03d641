use std::cmp::Ordering;
use vstd::prelude::*;

verus! {

/// Why building a card, or deriving one from another, failed.
#[derive(Debug, Clone, Copy, PartialEq, Eq, Structural)]
pub enum CardError {
    /// The rank symbol is not one of `A23456789TJQK`.
    InvalidRank,
    /// The suit symbol is not one of the four suit glyphs.
    InvalidSuit,
    /// A card code does not hold exactly two characters.
    InvalidLength,
    /// `ace_high` was asked of a card that is not an ace.
    InvalidOperation,
    /// More distinct cards were asked for than the population holds.
    InsufficientPopulation,
}

/// One playing card.
///
/// `mask` is the rank's position in the order `A 2 3 4 5 6 7 8 9 T J Q K`
/// (0 to 12), or 13 for the ace-high variant of an ace; `value` is the pip
/// value that the fifteens rule sums.
#[derive(Debug, Clone, Copy, PartialEq, Eq, Structural)]
pub struct Card {
    pub mask: i32,
    pub suit: char,
    pub rank: char,
    pub value: i32,
}

/// Position of a rank symbol in the rank order, or -1 for any other character.
pub open spec fn rank_mask(r: char) -> int {
    if r == 'A' { 0 }
    else if r == '2' { 1 }
    else if r == '3' { 2 }
    else if r == '4' { 3 }
    else if r == '5' { 4 }
    else if r == '6' { 5 }
    else if r == '7' { 6 }
    else if r == '8' { 7 }
    else if r == '9' { 8 }
    else if r == 'T' { 9 }
    else if r == 'J' { 10 }
    else if r == 'Q' { 11 }
    else if r == 'K' { 12 }
    else { -1 }
}

/// The rank symbol at position `m` of the rank order.
pub open spec fn rank_at(m: int) -> char {
    if m == 0 { 'A' }
    else if m == 1 { '2' }
    else if m == 2 { '3' }
    else if m == 3 { '4' }
    else if m == 4 { '5' }
    else if m == 5 { '6' }
    else if m == 6 { '7' }
    else if m == 7 { '8' }
    else if m == 8 { '9' }
    else if m == 9 { 'T' }
    else if m == 10 { 'J' }
    else if m == 11 { 'Q' }
    else { 'K' }
}

/// Position of a suit glyph in the fixed suit order `♡ ♠ ♢ ♣`, or -1.
pub open spec fn suit_index(s: char) -> int {
    if s == '♡' { 0 }
    else if s == '♠' { 1 }
    else if s == '♢' { 2 }
    else if s == '♣' { 3 }
    else { -1 }
}

/// The suit glyph at position `i` of the suit order.
pub open spec fn suit_at(i: int) -> char {
    if i == 0 { '♡' }
    else if i == 1 { '♠' }
    else if i == 2 { '♢' }
    else { '♣' }
}

pub open spec fn is_rank(r: char) -> bool {
    rank_mask(r) >= 0
}

pub open spec fn is_suit(s: char) -> bool {
    suit_index(s) >= 0
}

/// Value that the fifteens rule sums for the rank at position `m`: the
/// position itself up to the jack (ace 0, two 1, ..., ten 9, jack 10), and 10
/// for the queen and the king. This table is kept as it stands although it
/// differs from the usual cribbage pip values (ace 1, two to ten at face
/// value): worked scores that assume the usual values do not hold under it.
pub open spec fn value_of_mask(m: int) -> int {
    if m > 10 { 10 } else { m }
}

/// The natural card of a legal rank and suit.
pub open spec fn card_of(rank: char, suit: char) -> Card {
    Card {
        mask: rank_mask(rank) as i32,
        suit,
        rank,
        value: value_of_mask(rank_mask(rank)) as i32,
    }
}

/// What building a card from a rank and a suit symbol gives.
pub open spec fn from_chars_result(rank: char, suit: char) -> Result<Card, CardError> {
    if !is_rank(rank) {
        Err(CardError::InvalidRank)
    } else if !is_suit(suit) {
        Err(CardError::InvalidSuit)
    } else {
        Ok(card_of(rank, suit))
    }
}

/// What parsing a card code gives: the first character is the rank, the
/// second the suit.
pub open spec fn parse_result(code: Seq<char>) -> Result<Card, CardError> {
    if code.len() != 2 {
        Err(CardError::InvalidLength)
    } else {
        from_chars_result(code[0], code[1])
    }
}

/// The two-character code of a card: rank, then suit.
pub open spec fn code_of(c: Card) -> Seq<char> {
    seq![c.rank, c.suit]
}

/// The ace-high variant of a card: the same card ordered above every king.
pub open spec fn raised(c: Card) -> Card {
    Card { mask: 13, ..c }
}

/// Rank of a suit in the order of cards: the suit order for the four glyphs,
/// after them any other character by its code point.
pub open spec fn suit_key(s: char) -> int {
    if is_suit(s) { suit_index(s) } else { 4 + s as int }
}

/// Strict order on cards: by mask, then by suit; rank and value only break
/// ties between cards that no legal construction gives.
pub open spec fn precedes(a: Card, b: Card) -> bool {
    if a.mask != b.mask {
        a.mask < b.mask
    } else if suit_key(a.suit) != suit_key(b.suit) {
        suit_key(a.suit) < suit_key(b.suit)
    } else if a.rank != b.rank {
        (a.rank as int) < (b.rank as int)
    } else {
        a.value < b.value
    }
}

/// How `partial_cmp` places `a` against `b`.
pub open spec fn compare(a: Card, b: Card) -> Ordering {
    if precedes(a, b) {
        Ordering::Less
    } else if a == b {
        Ordering::Equal
    } else {
        Ordering::Greater
    }
}

impl Card {
    /// A card as construction makes it: legal symbols, the mask of its rank
    /// (or 13 for an ace raised above the king) and the value of its rank.
    pub open spec fn wf(&self) -> bool {
        &&& is_rank(self.rank)
        &&& is_suit(self.suit)
        &&& self.value == value_of_mask(rank_mask(self.rank))
        &&& (self.mask == rank_mask(self.rank) || (self.rank == 'A' && self.mask == 13))
    }

    /// Builds the card of rank symbol `rank` and suit glyph `suit`.
    pub fn from_chars(rank: char, suit: char) -> (r: Result<Card, CardError>)
        ensures
            r == from_chars_result(rank, suit),
            r matches Ok(c) ==> c.wf(),
    {
        let mask: i32 = match rank_position(rank) {
            Some(m) => m,
            None => return Err(CardError::InvalidRank),
        };
        if suit_position(suit).is_none() {
            return Err(CardError::InvalidSuit);
        }
        let value: i32 = if mask > 10 { 10 } else { mask };
        Ok(Card { mask, suit, rank, value })
    }

    /// Parses a two-character card code such as `"T♣"`.
    pub fn new(s: &str) -> (r: Result<Card, CardError>)
        ensures
            r == parse_result(s@),
            r matches Ok(c) ==> c.wf(),
    {
        if s.unicode_len() != 2 {
            return Err(CardError::InvalidLength);
        }
        Card::from_chars(s.get_char(0), s.get_char(1))
    }

    /// The ace-high variant of an ace; fails on any other rank.
    pub fn ace_high(&self) -> (r: Result<Card, CardError>)
        ensures
            self.rank == 'A' ==> r == Ok::<Card, CardError>(raised(*self)),
            self.rank != 'A' ==> r == Err::<Card, CardError>(CardError::InvalidOperation),
            self.wf() ==> (r matches Ok(h) ==> h.wf()),
    {
        if self.rank != 'A' {
            return Err(CardError::InvalidOperation);
        }
        Ok(Card { mask: 13, suit: self.suit, rank: self.rank, value: self.value })
    }

    /// The card's code: its rank symbol followed by its suit glyph.
    pub fn to_string(&self) -> (r: String)
        ensures
            r@ == code_of(*self),
    {
        pair_text(self.rank, self.suit)
    }
}

impl std::str::FromStr for Card {
    type Err = CardError;

    /// Parses a two-character card code, as `Card::new` does.
    fn from_str(s: &str) -> (r: Result<Card, CardError>)
        ensures
            r == parse_result(s@),
            r matches Ok(c) ==> c.wf(),
    {
        Card::new(s)
    }
}

/// Relies on `format!` with `char`'s `Display`, which writes the character
/// itself: the result is the two characters in order.
#[verifier::external_body]
fn pair_text(a: char, b: char) -> (r: String)
    ensures
        r@ == seq![a, b],
{
    format!("{}{}", a, b)
}

/// Position of `r` in the rank order, if it is a rank symbol.
pub fn rank_position(r: char) -> (m: Option<i32>)
    ensures
        is_rank(r) ==> m == Some(rank_mask(r) as i32),
        !is_rank(r) ==> m is None,
{
    match r {
        'A' => Some(0),
        '2' => Some(1),
        '3' => Some(2),
        '4' => Some(3),
        '5' => Some(4),
        '6' => Some(5),
        '7' => Some(6),
        '8' => Some(7),
        '9' => Some(8),
        'T' => Some(9),
        'J' => Some(10),
        'Q' => Some(11),
        'K' => Some(12),
        _ => None,
    }
}

/// Position of `s` in the suit order, if it is a suit glyph.
pub fn suit_position(s: char) -> (i: Option<i32>)
    ensures
        is_suit(s) ==> i == Some(suit_index(s) as i32),
        !is_suit(s) ==> i is None,
{
    match s {
        '♡' => Some(0),
        '♠' => Some(1),
        '♢' => Some(2),
        '♣' => Some(3),
        _ => None,
    }
}

/// Place of a suit in the order of cards, as `suit_key` states it.
fn suit_order(s: char) -> (k: u64)
    ensures
        k as int == suit_key(s),
{
    match suit_position(s) {
        Some(i) => i as u64,
        None => 4 + s as u64,
    }
}

impl PartialOrd for Card {
    fn partial_cmp(&self, other: &Card) -> (r: Option<Ordering>)
        ensures
            r == Some(compare(*self, *other)),
    {
        let (a, b) = (self, other);
        let less = if a.mask != b.mask {
            a.mask < b.mask
        } else {
            let (sa, sb) = (suit_order(a.suit), suit_order(b.suit));
            if sa != sb {
                sa < sb
            } else if a.rank != b.rank {
                (a.rank as u32) < (b.rank as u32)
            } else {
                a.value < b.value
            }
        };
        if less {
            Some(Ordering::Less)
        } else if *a == *b {
            Some(Ordering::Equal)
        } else {
            Some(Ordering::Greater)
        }
    }
}

impl vstd::std_specs::cmp::PartialOrdSpecImpl for Card {
    open spec fn obeys_partial_cmp_spec() -> bool {
        true
    }

    open spec fn partial_cmp_spec(&self, other: &Card) -> Option<Ordering> {
        Some(compare(*self, *other))
    }
}

/// The 52 natural cards, suit by suit, each suit in rank order.
pub open spec fn deck_cards() -> Seq<Card> {
    Seq::new(52, |i: int| card_of(rank_at(i % 13), suit_at(i / 13)))
}

/// The 52 natural cards, suit by suit, each suit in rank order.
pub fn deck() -> (r: Vec<Card>)
    ensures
        r@ == deck_cards(),
        r@.len() == 52,
        forall|i: int| 0 <= i < 52 ==> #[trigger] r@[i] == card_of(rank_at(i % 13), suit_at(i / 13)),
        forall|i: int| 0 <= i < 52 ==> (#[trigger] r@[i]).wf() && r@[i].mask < 13,
        forall|i: int, j: int| 0 <= i < 52 && 0 <= j < 52 && i != j ==> r@[i] != r@[j],
{
    let mut v: Vec<Card> = Vec::new();
    let mut s: u32 = 0;
    while s < 4
        invariant
            s <= 4,
            v@.len() == 13 * s,
            forall|i: int| 0 <= i < v@.len() ==> #[trigger] v@[i] == card_of(rank_at(i % 13), suit_at(i / 13)),
        decreases 4 - s,
    {
        let suit = suit_symbol(s);
        let mut m: u32 = 0;
        while m < 13
            invariant
                s < 4,
                m <= 13,
                suit == suit_at(s as int),
                v@.len() == 13 * s + m,
                forall|i: int| 0 <= i < v@.len() ==> #[trigger] v@[i] == card_of(rank_at(i % 13), suit_at(i / 13)),
            decreases 13 - m,
        {
            let rank = rank_symbol(m);
            proof {
                lemma_rank_round_trip(m as int);
                lemma_suit_round_trip(s as int);
            }
            let card = match Card::from_chars(rank, suit) {
                Ok(c) => c,
                Err(_) => {
                    proof { assert(false); }
                    return v;
                },
            };
            proof {
                let k = 13 * s + m;
                assert(k % 13 == m as int && k / 13 == s as int) by (nonlinear_arith)
                    requires k == 13 * s + m, m < 13;
            }
            v.push(card);
            m = m + 1;
        }
        s = s + 1;
    }
    proof {
        assert forall|i: int| 0 <= i < 52 implies (#[trigger] v@[i]).wf() && v@[i].mask < 13 by {
            lemma_rank_round_trip(i % 13);
            lemma_suit_round_trip(i / 13);
        }
        assert forall|i: int, j: int| 0 <= i < 52 && 0 <= j < 52 && i != j implies v@[i] != v@[j] by {
            lemma_rank_round_trip(i % 13);
            lemma_suit_round_trip(i / 13);
            lemma_rank_round_trip(j % 13);
            lemma_suit_round_trip(j / 13);
            assert(i == 13 * (i / 13) + i % 13);
            assert(j == 13 * (j / 13) + j % 13);
        }
    }
    assert(v@ =~= deck_cards());
    v
}

/// The rank symbol at position `m` of the rank order.
fn rank_symbol(m: u32) -> (r: char)
    requires
        m < 13,
    ensures
        r == rank_at(m as int),
{
    match m {
        0 => 'A',
        1 => '2',
        2 => '3',
        3 => '4',
        4 => '5',
        5 => '6',
        6 => '7',
        7 => '8',
        8 => '9',
        9 => 'T',
        10 => 'J',
        11 => 'Q',
        _ => 'K',
    }
}

/// The suit glyph at position `i` of the suit order.
fn suit_symbol(i: u32) -> (s: char)
    requires
        i < 4,
    ensures
        s == suit_at(i as int),
{
    match i {
        0 => '♡',
        1 => '♠',
        2 => '♢',
        _ => '♣',
    }
}

/// The rank symbol at each position is a rank whose mask is that position.
pub proof fn lemma_rank_round_trip(m: int)
    requires
        0 <= m < 13,
    ensures
        is_rank(rank_at(m)),
        rank_mask(rank_at(m)) == m,
{
}

/// The suit glyph at each position is a suit whose index is that position.
pub proof fn lemma_suit_round_trip(i: int)
    requires
        0 <= i < 4,
    ensures
        is_suit(suit_at(i)),
        suit_index(suit_at(i)) == i,
{
}

/// Building a card from a legal rank and suit keeps both symbols.
pub proof fn lemma_from_chars_keeps_symbols(rank: char, suit: char)
    requires
        is_rank(rank),
        is_suit(suit),
    ensures
        from_chars_result(rank, suit) matches Ok(c) && c.rank == rank && c.suit == suit,
{
}

/// Masks follow the rank order, the same in every suit: of two natural
/// cards the one of the later rank has the greater mask, and the ace-high
/// variant of an ace has mask 13, above every natural card.
pub proof fn lemma_mask_order(a: Card, b: Card)
    requires
        a.wf(),
        b.wf(),
        a.mask < 13,
        b.mask < 13,
    ensures
        a.mask == rank_mask(a.rank),
        0 <= a.mask < 13,
        (a.mask < b.mask) == (rank_mask(a.rank) < rank_mask(b.rank)),
        a.rank == 'A' ==> raised(a).mask == 13 && raised(a).mask > b.mask,
        a.rank == 'A' ==> precedes(b, raised(a)),
{
}

/// Every symbol outside the fixed sets, and every code whose length is not
/// two, is rejected.
pub proof fn lemma_illegal_input_rejected(rank: char, suit: char, code: Seq<char>)
    ensures
        !is_rank(rank) ==> from_chars_result(rank, suit) is Err,
        !is_suit(suit) ==> from_chars_result(rank, suit) is Err,
        code.len() != 2 ==> parse_result(code) == Err::<Card, CardError>(CardError::InvalidLength),
{
}

/// Parsing the code of a natural card gives the card back.
pub proof fn lemma_parse_code_round_trip(c: Card)
    requires
        c.wf(),
        c.mask < 13,
    ensures
        parse_result(code_of(c)) == Ok::<Card, CardError>(c),
{
}

/// The order of cards is a strict order: irreflexive, asymmetric,
/// transitive, and total on distinct cards.
pub proof fn lemma_precedes_strict_order(a: Card, b: Card, c: Card)
    ensures
        !precedes(a, a),
        precedes(a, b) ==> !precedes(b, a),
        precedes(a, b) && precedes(b, c) ==> precedes(a, c),
        a != b ==> precedes(a, b) || precedes(b, a),
{
}

} // verus!
