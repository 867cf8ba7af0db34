//! The closed set of betting categories, their wire codes and the fixed odds
//! table.

use vstd::prelude::*;

verus! {

/// The thirteen betting categories a stake can be placed on.
///
/// `Low` covers the numbers 1-18, `High` the numbers 19-36, and the three
/// dozens cover 1-12, 13-24 and 25-36. The columns are the residue classes
/// of the number modulo 3 (zero belongs to none of them).
#[derive(Clone, Copy, PartialEq, Eq, Structural, Debug)]
pub enum Category {
    Red,
    Black,
    Green,
    Even,
    Odd,
    Low,
    High,
    Dozen1,
    Dozen2,
    Dozen3,
    Col1,
    Col2,
    Col3,
}

/// The fixed odds table: green pays 36 times the stake, dozens and columns
/// 3 times, and the even-money categories 2 times.
pub open spec fn spec_multiplier(c: Category) -> nat {
    match c {
        Category::Green => 36,
        Category::Dozen1 => 3,
        Category::Dozen2 => 3,
        Category::Dozen3 => 3,
        Category::Col1 => 3,
        Category::Col2 => 3,
        Category::Col3 => 3,
        _ => 2,
    }
}

/// Looks up the payout multiplier of a category in the fixed odds table.
pub fn multiplier(c: Category) -> (r: u64)
    ensures
        r == spec_multiplier(c),
{
    match c {
        Category::Green => 36,
        Category::Dozen1 => 3,
        Category::Dozen2 => 3,
        Category::Dozen3 => 3,
        Category::Col1 => 3,
        Category::Col2 => 3,
        Category::Col3 => 3,
        _ => 2,
    }
}

/// The wire code under which bettors name a category.
pub open spec fn spec_code(c: Category) -> Seq<char> {
    match c {
        Category::Red => "RED"@,
        Category::Black => "BLACK"@,
        Category::Green => "GREEN"@,
        Category::Even => "EVEN"@,
        Category::Odd => "ODD"@,
        Category::Low => "1-18"@,
        Category::High => "19-36"@,
        Category::Dozen1 => "1-12"@,
        Category::Dozen2 => "13-24"@,
        Category::Dozen3 => "25-36"@,
        Category::Col1 => "COL1"@,
        Category::Col2 => "COL2"@,
        Category::Col3 => "COL3"@,
    }
}

/// Which category, if any, a wire code names.
pub open spec fn spec_from_code(s: Seq<char>) -> Option<Category> {
    if s == spec_code(Category::Red) {
        Some(Category::Red)
    } else if s == spec_code(Category::Black) {
        Some(Category::Black)
    } else if s == spec_code(Category::Green) {
        Some(Category::Green)
    } else if s == spec_code(Category::Even) {
        Some(Category::Even)
    } else if s == spec_code(Category::Odd) {
        Some(Category::Odd)
    } else if s == spec_code(Category::Low) {
        Some(Category::Low)
    } else if s == spec_code(Category::High) {
        Some(Category::High)
    } else if s == spec_code(Category::Dozen1) {
        Some(Category::Dozen1)
    } else if s == spec_code(Category::Dozen2) {
        Some(Category::Dozen2)
    } else if s == spec_code(Category::Dozen3) {
        Some(Category::Dozen3)
    } else if s == spec_code(Category::Col1) {
        Some(Category::Col1)
    } else if s == spec_code(Category::Col2) {
        Some(Category::Col2)
    } else if s == spec_code(Category::Col3) {
        Some(Category::Col3)
    } else {
        None
    }
}

fn str_eq(a: &str, b: &str) -> (r: bool)
    ensures
        r == (a@ == b@),
{
    let sa: String = a.to_owned();
    let sb: String = b.to_owned();
    sa.eq(&sb)
}

/// Parses a wire code into a category; an unrecognised code yields `None`.
pub fn from_code(code: &str) -> (r: Option<Category>)
    ensures
        r == spec_from_code(code@),
{
    if str_eq(code, "RED") {
        Some(Category::Red)
    } else if str_eq(code, "BLACK") {
        Some(Category::Black)
    } else if str_eq(code, "GREEN") {
        Some(Category::Green)
    } else if str_eq(code, "EVEN") {
        Some(Category::Even)
    } else if str_eq(code, "ODD") {
        Some(Category::Odd)
    } else if str_eq(code, "1-18") {
        Some(Category::Low)
    } else if str_eq(code, "19-36") {
        Some(Category::High)
    } else if str_eq(code, "1-12") {
        Some(Category::Dozen1)
    } else if str_eq(code, "13-24") {
        Some(Category::Dozen2)
    } else if str_eq(code, "25-36") {
        Some(Category::Dozen3)
    } else if str_eq(code, "COL1") {
        Some(Category::Col1)
    } else if str_eq(code, "COL2") {
        Some(Category::Col2)
    } else if str_eq(code, "COL3") {
        Some(Category::Col3)
    } else {
        None
    }
}

/// Every category's own wire code parses back to that category: the thirteen
/// codes are distinct and `from_code` inverts them.
pub proof fn lemma_code_round_trip(c: Category)
    ensures
        spec_from_code(spec_code(c)) == Some(c),
{
    reveal_strlit("RED");
    reveal_strlit("BLACK");
    reveal_strlit("GREEN");
    reveal_strlit("EVEN");
    reveal_strlit("ODD");
    reveal_strlit("1-18");
    reveal_strlit("19-36");
    reveal_strlit("1-12");
    reveal_strlit("13-24");
    reveal_strlit("25-36");
    reveal_strlit("COL1");
    reveal_strlit("COL2");
    reveal_strlit("COL3");
    assert(spec_code(Category::Red).len() == 3);
    assert(spec_code(Category::Black).len() == 5);
    assert(spec_code(Category::Green).len() == 5);
    assert(spec_code(Category::Even).len() == 4);
    assert(spec_code(Category::Odd).len() == 3);
    assert(spec_code(Category::Low).len() == 4);
    assert(spec_code(Category::High).len() == 5);
    assert(spec_code(Category::Dozen1).len() == 4);
    assert(spec_code(Category::Dozen2).len() == 5);
    assert(spec_code(Category::Dozen3).len() == 5);
    assert(spec_code(Category::Col1).len() == 4);
    assert(spec_code(Category::Col2).len() == 4);
    assert(spec_code(Category::Col3).len() == 4);
    match c {
        Category::Red => {
        },
        Category::Black => {
        },
        Category::Green => {
            assert(spec_code(c)[0] != spec_code(Category::Black)[0]);
        },
        Category::Even => {
        },
        Category::Odd => {
            assert(spec_code(c)[0] != spec_code(Category::Red)[0]);
        },
        Category::Low => {
            assert(spec_code(c)[0] != spec_code(Category::Even)[0]);
        },
        Category::High => {
            assert(spec_code(c)[0] != spec_code(Category::Black)[0]);
            assert(spec_code(c)[0] != spec_code(Category::Green)[0]);
        },
        Category::Dozen1 => {
            assert(spec_code(c)[0] != spec_code(Category::Even)[0]);
            assert(spec_code(c)[3] != spec_code(Category::Low)[3]);
        },
        Category::Dozen2 => {
            assert(spec_code(c)[0] != spec_code(Category::Black)[0]);
            assert(spec_code(c)[0] != spec_code(Category::Green)[0]);
            assert(spec_code(c)[1] != spec_code(Category::High)[1]);
        },
        Category::Dozen3 => {
            assert(spec_code(c)[0] != spec_code(Category::Black)[0]);
            assert(spec_code(c)[0] != spec_code(Category::Green)[0]);
            assert(spec_code(c)[0] != spec_code(Category::High)[0]);
            assert(spec_code(c)[0] != spec_code(Category::Dozen2)[0]);
        },
        Category::Col1 => {
            assert(spec_code(c)[0] != spec_code(Category::Even)[0]);
            assert(spec_code(c)[0] != spec_code(Category::Low)[0]);
            assert(spec_code(c)[0] != spec_code(Category::Dozen1)[0]);
        },
        Category::Col2 => {
            assert(spec_code(c)[0] != spec_code(Category::Even)[0]);
            assert(spec_code(c)[0] != spec_code(Category::Low)[0]);
            assert(spec_code(c)[0] != spec_code(Category::Dozen1)[0]);
            assert(spec_code(c)[3] != spec_code(Category::Col1)[3]);
        },
        Category::Col3 => {
            assert(spec_code(c)[0] != spec_code(Category::Even)[0]);
            assert(spec_code(c)[0] != spec_code(Category::Low)[0]);
            assert(spec_code(c)[0] != spec_code(Category::Dozen1)[0]);
            assert(spec_code(c)[3] != spec_code(Category::Col1)[3]);
            assert(spec_code(c)[3] != spec_code(Category::Col2)[3]);
        },
    }
}

} // verus!
