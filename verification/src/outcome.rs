//! Classification of a drawn number into the boolean outcome predicates, and
//! the winning rule for each category.

use vstd::prelude::*;
use crate::category::Category;
use crate::category::spec_multiplier;

verus! {

/// The largest number on the wheel; a draw yields a number in `[0, 36]`.
pub const WHEEL_MAX: u8 = 36;

/// Green holds of the single number zero.
pub open spec fn spec_is_green(n: int) -> bool {
    n == 0
}

/// Membership in the standard eighteen-number red set.
pub open spec fn spec_is_red(n: int) -> bool {
    ||| n == 1
    ||| n == 3
    ||| n == 5
    ||| n == 7
    ||| n == 9
    ||| n == 12
    ||| n == 14
    ||| n == 16
    ||| n == 18
    ||| n == 19
    ||| n == 21
    ||| n == 23
    ||| n == 25
    ||| n == 27
    ||| n == 30
    ||| n == 32
    ||| n == 34
    ||| n == 36
}

/// Membership in the standard eighteen-number black set.
pub open spec fn spec_is_black(n: int) -> bool {
    ||| n == 2
    ||| n == 4
    ||| n == 6
    ||| n == 8
    ||| n == 10
    ||| n == 11
    ||| n == 13
    ||| n == 15
    ||| n == 17
    ||| n == 20
    ||| n == 22
    ||| n == 24
    ||| n == 26
    ||| n == 28
    ||| n == 29
    ||| n == 31
    ||| n == 33
    ||| n == 35
}

/// Even excludes zero by the explicit green guard.
pub open spec fn spec_is_even(n: int) -> bool {
    !spec_is_green(n) && n % 2 == 0
}

/// Odd needs no green guard: zero is even by the arithmetic itself.
pub open spec fn spec_is_odd(n: int) -> bool {
    n % 2 == 1
}

pub open spec fn spec_is_low(n: int) -> bool {
    1 <= n <= 18
}

/// High is open above: the wheel itself bounds the number by 36.
pub open spec fn spec_is_high(n: int) -> bool {
    n >= 19
}

pub open spec fn spec_is_dozen1(n: int) -> bool {
    1 <= n <= 12
}

pub open spec fn spec_is_dozen2(n: int) -> bool {
    13 <= n <= 24
}

/// The third dozen is open above, like high.
pub open spec fn spec_is_dozen3(n: int) -> bool {
    n >= 25
}

pub open spec fn spec_is_col1(n: int) -> bool {
    n % 3 == 1
}

pub open spec fn spec_is_col2(n: int) -> bool {
    n % 3 == 2
}

/// The third column excludes zero by the explicit green guard.
pub open spec fn spec_is_col3(n: int) -> bool {
    !spec_is_green(n) && n % 3 == 0
}

/// Every boolean predicate of a drawn number that the odds table reads.
#[derive(Clone, Copy, PartialEq, Eq, Structural, Debug)]
pub struct DrawOutcome {
    pub is_green: bool,
    pub is_red: bool,
    pub is_black: bool,
    pub is_even: bool,
    pub is_odd: bool,
    pub is_low: bool,
    pub is_high: bool,
    pub is_dozen1: bool,
    pub is_dozen2: bool,
    pub is_dozen3: bool,
    pub is_col1: bool,
    pub is_col2: bool,
    pub is_col3: bool,
}

pub open spec fn spec_classify(n: int) -> DrawOutcome {
    DrawOutcome {
        is_green: spec_is_green(n),
        is_red: spec_is_red(n),
        is_black: spec_is_black(n),
        is_even: spec_is_even(n),
        is_odd: spec_is_odd(n),
        is_low: spec_is_low(n),
        is_high: spec_is_high(n),
        is_dozen1: spec_is_dozen1(n),
        is_dozen2: spec_is_dozen2(n),
        is_dozen3: spec_is_dozen3(n),
        is_col1: spec_is_col1(n),
        is_col2: spec_is_col2(n),
        is_col3: spec_is_col3(n),
    }
}

/// Computes every outcome predicate of the drawn number. The result is a
/// function of `n` alone: no hidden state takes part.
pub fn classify(n: u8) -> (r: DrawOutcome)
    requires
        n <= WHEEL_MAX,
    ensures
        r == spec_classify(n as int),
{
    let is_green = n == 0;
    DrawOutcome {
        is_green,
        is_red: n == 1 || n == 3 || n == 5 || n == 7 || n == 9 || n == 12 || n == 14 || n == 16
            || n == 18 || n == 19 || n == 21 || n == 23 || n == 25 || n == 27 || n == 30 || n == 32
            || n == 34 || n == 36,
        is_black: n == 2 || n == 4 || n == 6 || n == 8 || n == 10 || n == 11 || n == 13 || n == 15
            || n == 17 || n == 20 || n == 22 || n == 24 || n == 26 || n == 28 || n == 29 || n == 31
            || n == 33 || n == 35,
        is_even: !is_green && n % 2 == 0,
        is_odd: n % 2 == 1,
        is_low: 1 <= n && n <= 18,
        is_high: n >= 19,
        is_dozen1: 1 <= n && n <= 12,
        is_dozen2: 13 <= n && n <= 24,
        is_dozen3: n >= 25,
        is_col1: n % 3 == 1,
        is_col2: n % 3 == 2,
        is_col3: !is_green && n % 3 == 0,
    }
}

/// Whether a stake on a category wins against a drawn number.
pub open spec fn spec_wins(c: Category, n: int) -> bool {
    match c {
        Category::Red => spec_is_red(n),
        Category::Black => spec_is_black(n),
        Category::Green => spec_is_green(n),
        Category::Even => spec_is_even(n),
        Category::Odd => spec_is_odd(n),
        Category::Low => spec_is_low(n),
        Category::High => spec_is_high(n),
        Category::Dozen1 => spec_is_dozen1(n),
        Category::Dozen2 => spec_is_dozen2(n),
        Category::Dozen3 => spec_is_dozen3(n),
        Category::Col1 => spec_is_col1(n),
        Category::Col2 => spec_is_col2(n),
        Category::Col3 => spec_is_col3(n),
    }
}

/// Decides whether a stake on `c` wins against the drawn number `n`.
pub fn wins(c: Category, n: u8) -> (r: bool)
    requires
        n <= WHEEL_MAX,
    ensures
        r == spec_wins(c, n as int),
{
    let o = classify(n);
    match c {
        Category::Red => o.is_red,
        Category::Black => o.is_black,
        Category::Green => o.is_green,
        Category::Even => o.is_even,
        Category::Odd => o.is_odd,
        Category::Low => o.is_low,
        Category::High => o.is_high,
        Category::Dozen1 => o.is_dozen1,
        Category::Dozen2 => o.is_dozen2,
        Category::Dozen3 => o.is_dozen3,
        Category::Col1 => o.is_col1,
        Category::Col2 => o.is_col2,
        Category::Col3 => o.is_col3,
    }
}

/// What a stake of `amount` on `c` pays when the drawn number is `n`:
/// the stake times the fixed multiplier on a win, nothing otherwise.
pub open spec fn spec_payout(c: Category, amount: u64, n: int) -> int {
    if spec_wins(c, n) {
        amount * spec_multiplier(c)
    } else {
        0
    }
}

/// Green, red and black partition the wheel: every number in `[0, 36]`
/// satisfies exactly one of the three colour predicates.
pub proof fn lemma_color_partition(n: int)
    requires
        0 <= n <= 36,
    ensures
        spec_is_green(n) || spec_is_red(n) || spec_is_black(n),
        !(spec_is_green(n) && spec_is_red(n)),
        !(spec_is_green(n) && spec_is_black(n)),
        !(spec_is_red(n) && spec_is_black(n)),
{
}

} // verus!
