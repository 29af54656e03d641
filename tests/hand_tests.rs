use cribbage::card::{deck, Card, CardError};
use cribbage::hand::{draw, hand, hand_of, show_of, Hand, Show};

fn distinct(cards: &[Card]) -> bool {
    (0..cards.len()).all(|i| (0..cards.len()).all(|j| i == j || cards[i] != cards[j]))
}

#[test]
fn test_hand_constructor_1() {
    Hand::new(["2♡", "3♡", "4♡", "5♡"]).unwrap();
}

#[test]
fn test_hand_equality_1() {
    assert_eq!(Hand::new(["2♡", "3♡", "4♡", "5♡"]), Hand::new(["2♡", "3♡", "4♡", "5♡"]));
}

#[test]
fn test_hand_rand_1() {
    assert_eq!(Hand::rand().hand.len(), 4);
}

#[test]
fn test_hand_fn_1() {
    assert_eq!(hand(["2♡", "3♡", "4♡", "5♡"]), Hand::new(["2♡", "3♡", "4♡", "5♡"]));
}

#[test]
fn test_show_constructor_1() {
    Show::new(["2♡", "3♡", "4♡", "5♡"], "6♡").unwrap();
}

#[test]
fn test_show_constructor_2() {
    let s = Show::new(["2♡", "3♡", "4♡", "5♡"], "6♡").unwrap();
    assert_eq!(s.hand, Hand::new(["2♡", "3♡", "4♡", "5♡"]).unwrap())
}

#[test]
fn test_show_constructor_3() {
    let s = Show::new(["2♡", "3♡", "4♡", "5♡"], "6♡").unwrap();
    assert_eq!(s.cut, Card::new("6♡").unwrap())
}

#[test]
fn hand_keeps_given_order_and_allows_repeats() {
    let h = Hand::new(["K♣", "2♡", "K♣", "A♠"]).unwrap();
    assert_eq!(h.hand[0], Card::new("K♣").unwrap());
    assert_eq!(h.hand[1], Card::new("2♡").unwrap());
    assert_eq!(h.hand[2], h.hand[0]);
    assert_eq!(h.hand[3], Card::new("A♠").unwrap());
}

#[test]
fn hand_reports_first_bad_code() {
    assert_eq!(Hand::new(["2♡", "X♡", "4♡", "5"]), Err(CardError::InvalidRank));
    assert_eq!(Hand::new(["2♡", "3♡", "4♡", "5"]), Err(CardError::InvalidLength));
    assert_eq!(Hand::new(["2x", "X♡", "4♡", "5♡"]), Err(CardError::InvalidSuit));
}

#[test]
fn show_reports_hand_error_before_cut_error() {
    assert_eq!(Show::new(["2♡", "3♡", "4♡", "55"], "X"), Err(CardError::InvalidSuit));
    assert_eq!(Show::new(["2♡", "3♡", "4♡", "5♡"], "X"), Err(CardError::InvalidLength));
    assert_eq!(Show::new(["2♡", "3♡", "4♡", "5♡"], "Z♡"), Err(CardError::InvalidRank));
}

#[test]
fn random_hand_has_four_distinct_deck_cards() {
    for _ in 0..50 {
        let h = Hand::rand();
        assert!(distinct(&h.hand));
        assert!(h.hand.iter().all(|c| c.mask < 13 && deck().contains(c)));
    }
}

#[test]
fn random_show_has_five_distinct_deck_cards() {
    for _ in 0..50 {
        let s = Show::rand();
        let mut all = s.hand.hand.to_vec();
        all.push(s.cut);
        assert!(distinct(&all));
        assert!(all.iter().all(|c| c.mask < 13 && deck().contains(c)));
    }
}

#[test]
fn draw_takes_from_the_pool_without_repeats() {
    let d = deck();
    let v = draw(&d, 7).unwrap();
    assert_eq!(v.len(), 7);
    assert!(distinct(&v));
    assert!(v.iter().all(|c| d.contains(c)));
    assert_eq!(draw(&d, 52).unwrap().len(), 52);
    assert_eq!(draw(&d, 0).unwrap().len(), 0);
}

#[test]
fn draw_beyond_population_fails() {
    let d = deck();
    assert_eq!(draw(&d, 53), Err(CardError::InsufficientPopulation));
    assert_eq!(draw(&Vec::new(), 1), Err(CardError::InsufficientPopulation));
}

#[test]
fn hand_of_keeps_cards_in_order() {
    let v = vec![deck()[5], deck()[40], deck()[0], deck()[13]];
    let h = hand_of(&v);
    assert_eq!(h.hand.to_vec(), v);
}

#[test]
fn show_of_takes_fifth_card_as_cut() {
    let d = deck();
    let v = vec![d[7], d[3], d[51], d[20], d[33]];
    let s = show_of(&v);
    assert_eq!(s.hand.hand.to_vec(), v[..4].to_vec());
    assert_eq!(s.cut, d[33]);
}
