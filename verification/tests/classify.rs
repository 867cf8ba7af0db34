use roulette::category::Category;
use roulette::category::from_code;
use roulette::category::multiplier;
use roulette::outcome::classify;
use roulette::outcome::wins;

const REDS: [u8; 18] = [1, 3, 5, 7, 9, 12, 14, 16, 18, 19, 21, 23, 25, 27, 30, 32, 34, 36];

#[test]
fn colors_partition_the_wheel() {
    let mut reds = 0;
    let mut blacks = 0;
    for n in 0..=36u8 {
        let o = classify(n);
        let count = [o.is_green, o.is_red, o.is_black].iter().filter(|b| **b).count();
        assert_eq!(count, 1, "number {} must have exactly one color", n);
        if o.is_red {
            reds += 1;
        }
        if o.is_black {
            blacks += 1;
        }
    }
    assert_eq!(reds, 18);
    assert_eq!(blacks, 18);
}

#[test]
fn red_set_is_the_standard_one() {
    for n in 0..=36u8 {
        assert_eq!(classify(n).is_red, REDS.contains(&n));
    }
}

#[test]
fn zero_is_green_even_and_in_no_column() {
    let o = classify(0);
    assert!(o.is_green);
    assert!(!o.is_red && !o.is_black);
    assert!(!o.is_even && !o.is_odd);
    assert!(!o.is_low && !o.is_high);
    assert!(!o.is_dozen1 && !o.is_dozen2 && !o.is_dozen3);
    assert!(!o.is_col1 && !o.is_col2 && !o.is_col3);
}

#[test]
fn ranges_follow_the_layout() {
    for n in 0..=36u8 {
        let o = classify(n);
        assert_eq!(o.is_low, (1..=18).contains(&n));
        assert_eq!(o.is_high, n >= 19);
        assert_eq!(o.is_dozen1, (1..=12).contains(&n));
        assert_eq!(o.is_dozen2, (13..=24).contains(&n));
        assert_eq!(o.is_dozen3, n >= 25);
        assert_eq!(o.is_col1, n % 3 == 1);
        assert_eq!(o.is_col2, n % 3 == 2);
        assert_eq!(o.is_col3, n != 0 && n % 3 == 0);
        if n != 0 {
            assert_eq!(o.is_even, n % 2 == 0);
            assert_eq!(o.is_odd, n % 2 == 1);
        }
    }
}

#[test]
fn classify_is_deterministic() {
    for n in 0..=36u8 {
        assert_eq!(classify(n), classify(n));
        assert_eq!(classify(n), classify(n));
    }
}

#[test]
fn codes_parse_to_their_categories() {
    assert_eq!(from_code("RED"), Some(Category::Red));
    assert_eq!(from_code("BLACK"), Some(Category::Black));
    assert_eq!(from_code("GREEN"), Some(Category::Green));
    assert_eq!(from_code("EVEN"), Some(Category::Even));
    assert_eq!(from_code("ODD"), Some(Category::Odd));
    assert_eq!(from_code("1-18"), Some(Category::Low));
    assert_eq!(from_code("19-36"), Some(Category::High));
    assert_eq!(from_code("1-12"), Some(Category::Dozen1));
    assert_eq!(from_code("13-24"), Some(Category::Dozen2));
    assert_eq!(from_code("25-36"), Some(Category::Dozen3));
    assert_eq!(from_code("COL1"), Some(Category::Col1));
    assert_eq!(from_code("COL2"), Some(Category::Col2));
    assert_eq!(from_code("COL3"), Some(Category::Col3));
    assert_eq!(from_code("PURPLE"), None);
    assert_eq!(from_code("red"), None);
    assert_eq!(from_code(""), None);
}

#[test]
fn multipliers_follow_the_odds_table() {
    assert_eq!(multiplier(Category::Red), 2);
    assert_eq!(multiplier(Category::Black), 2);
    assert_eq!(multiplier(Category::Even), 2);
    assert_eq!(multiplier(Category::Odd), 2);
    assert_eq!(multiplier(Category::Low), 2);
    assert_eq!(multiplier(Category::High), 2);
    assert_eq!(multiplier(Category::Dozen1), 3);
    assert_eq!(multiplier(Category::Dozen2), 3);
    assert_eq!(multiplier(Category::Dozen3), 3);
    assert_eq!(multiplier(Category::Col1), 3);
    assert_eq!(multiplier(Category::Col2), 3);
    assert_eq!(multiplier(Category::Col3), 3);
    assert_eq!(multiplier(Category::Green), 36);
}

#[test]
fn wins_matches_classification() {
    assert!(wins(Category::Green, 0));
    assert!(!wins(Category::Green, 1));
    assert!(wins(Category::Red, 16));
    assert!(!wins(Category::Red, 17));
    assert!(!wins(Category::Red, 20));
    assert!(wins(Category::Black, 17));
    assert!(wins(Category::Black, 20));
    assert!(wins(Category::Odd, 17));
    assert!(!wins(Category::Odd, 0));
    assert!(!wins(Category::Even, 0));
    assert!(wins(Category::Even, 20));
    assert!(wins(Category::Dozen2, 20));
    assert!(!wins(Category::Dozen1, 20));
    assert!(wins(Category::Col2, 20));
}
