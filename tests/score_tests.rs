use cribbage::card::Card;
use cribbage::hand::Show;
use cribbage::score::{count_of_size, isfifteen, ispair, score_cards, Fifteen};
use std::str::FromStr;

fn card_vec(cs: Vec<(char, char)>) -> Vec<Card> {
    cs.iter().map(|(x, y)| Card::from_chars(*x, *y).unwrap()).collect::<Vec<_>>()
}

fn test_fifteen(cs: Vec<(char, char)>, b: bool) {
    assert_eq!(isfifteen(&card_vec(cs)), b)
}

#[test]
fn test_score_fifteens_1() {
    let h = Show::new(["2♡", "3♡", "5♡", "T♡"], "5♣").unwrap();
    assert_eq!(h.score_fifteens(), 4)
}

#[test]
fn test_ispair_1() {
    assert_eq!(
        ispair(&Card::from_chars('K', '♡').unwrap(), &Card::from_chars('K', '♠').unwrap()),
        true,
    )
}

#[test]
fn test_ispair_2() {
    assert_eq!(
        ispair(&Card::from_chars('A', '♢').unwrap(), &Card::from_chars('A', '♣').unwrap()),
        true,
    )
}

#[test]
fn test_ispair_3() {
    assert_eq!(
        ispair(
            &Card::from_chars('A', '♢').unwrap(),
            &Card::from_chars('A', '♣').unwrap().ace_high().unwrap(),
        ),
        true,
    )
}

#[test]
fn test_ispair_4() {
    assert_eq!(
        ispair(&Card::from_chars('K', '♡').unwrap(), &Card::from_chars('A', '♣').unwrap()),
        false,
    )
}

#[test]
fn test_ispair_5() {
    assert_eq!(
        ispair(
            &Card::from_chars('K', '♡').unwrap(),
            &Card::from_chars('A', '♣').unwrap().ace_high().unwrap(),
        ),
        false,
    )
}

#[test]
fn test_isfifteen_1() {
    test_fifteen(vec![('7', '♡'), ('8', '♡')], false)
}

#[test]
fn test_isfifteen_2() {
    test_fifteen(vec![('5', '♡'), ('5', '♠'), ('5', '♣')], false)
}

#[test]
fn test_isfifteen_3() {
    test_fifteen(vec![('2', '♡'), ('3', '♠'), ('T', '♣')], false)
}

#[test]
fn test_isfifteen_4() {
    test_fifteen(vec![('A', '♡'), ('A', '♠'), ('3', '♠'), ('T', '♣')], false)
}

#[test]
fn test_isfifteen_5() {
    test_fifteen(vec![('A', '♡'), ('3', '♠'), ('4', '♠'), ('4', '♡'), ('3', '♢')], false)
}

#[test]
fn test_isfifteen_6() {
    test_fifteen(vec![('3', '♠'), ('4', '♡'), ('T', '♡')], false)
}

#[test]
fn test_isfifteen_7() {
    assert_eq!(
        isfifteen(&vec![
            Card::from_chars('A', '♡').unwrap().ace_high().unwrap(),
            Card::from_chars('K', '♣').unwrap(),
            Card::from_chars('4', '♢').unwrap(),
        ]),
        false,
    )
}

#[allow(non_snake_case)]
#[test]
fn test_Show_Fifteen_all_cards() {
    let s = Show::new(["2♡", "3♡", "4♡", "5♡"], "6♡").unwrap();
    assert_eq!(
        s.all_cards(),
        vec!["2♡", "3♡", "4♡", "5♡", "6♡"]
            .iter()
            .map(|x| Card::from_str(x).unwrap())
            .collect::<Vec<_>>(),
    )
}

#[test]
fn run_show_scores_nothing() {
    let s = Show::new(["2♡", "3♡", "4♡", "5♡"], "6♡").unwrap();
    let cards = s.all_cards();
    assert_eq!(count_of_size(&cards, 2), 0);
    assert_eq!(count_of_size(&cards, 3), 0);
    assert_eq!(count_of_size(&cards, 4), 0);
    assert_eq!(s.score_fifteens(), 0)
}

#[test]
fn fifteens_under_the_value_table() {
    test_fifteen(vec![('8', '♡'), ('9', '♠')], true);
    test_fifteen(vec![('J', '♡'), ('6', '♠')], true);
    test_fifteen(vec![('T', '♡'), ('6', '♠'), ('2', '♣')], true);
    test_fifteen(vec![('6', '♡'), ('6', '♠'), ('6', '♣')], true);
    test_fifteen(vec![('A', '♡'), ('T', '♠'), ('6', '♣')], false);
    assert_eq!(
        isfifteen(&vec![
            Card::from_chars('A', '♡').unwrap().ace_high().unwrap(),
            Card::from_chars('K', '♣').unwrap(),
            Card::from_chars('6', '♢').unwrap(),
        ]),
        true,
    );
}

#[test]
fn single_two_card_fifteen_scores_two() {
    assert_eq!(score_cards(&card_vec(vec![('8', '♡'), ('9', '♠')])), 2);
    assert_eq!(score_cards(&card_vec(vec![('T', '♡'), ('6', '♠'), ('2', '♣')])), 2);
    let s = Show::new(["8♡", "9♠", "2♣", "3♢"], "4♡").unwrap();
    assert_eq!(s.score_fifteens(), 2);
    let s = Show::new(["6♡", "4♠", "8♣", "2♢"], "2♣").unwrap();
    assert_eq!(s.score_fifteens(), 2);
}

#[test]
fn overlapping_fifteens_each_count() {
    let cards = card_vec(vec![('6', '♡'), ('6', '♠'), ('6', '♣'), ('J', '♢'), ('Q', '♡')]);
    assert_eq!(count_of_size(&cards, 2), 6);
    assert_eq!(count_of_size(&cards, 3), 1);
    assert_eq!(count_of_size(&cards, 4), 0);
    assert_eq!(score_cards(&cards), 14);
    let pairs = card_vec(vec![('8', '♡'), ('8', '♠'), ('9', '♣'), ('9', '♢')]);
    assert_eq!(count_of_size(&pairs, 2), 4);
    assert_eq!(score_cards(&pairs), 8);
}

#[test]
fn subsets_by_size_of_a_show() {
    let s = Show::new(["2♡", "3♡", "5♡", "T♡"], "5♣").unwrap();
    let cards = s.all_cards();
    assert_eq!(count_of_size(&cards, 2), 0);
    assert_eq!(count_of_size(&cards, 3), 2);
    assert_eq!(count_of_size(&cards, 4), 0);
    assert_eq!(count_of_size(&cards, 0), 0);
    assert_eq!(count_of_size(&cards, 6), 0);
}

#[test]
fn too_few_cards_score_nothing() {
    assert_eq!(score_cards(&Vec::new()), 0);
    assert_eq!(score_cards(&card_vec(vec![('K', '♡')])), 0);
}

#[test]
fn isfifteen_of_empty_and_overshoot() {
    assert_eq!(isfifteen(&[]), false);
    test_fifteen(vec![('K', '♡'), ('K', '♠'), ('A', '♣')], false);
}
