//! The table aggregate and its three operations: placing a bet while the
//! window is open, the single draw that closes it, and claiming payouts.
//!
//! Custody of funds stays with the host: `bet` records a stake after the host
//! has debited it, and `claim_prize` returns the amount the host must credit.

use vstd::prelude::*;
use crate::category::Category;
use crate::category::from_code;
use crate::category::multiplier;
use crate::category::spec_from_code;
use crate::category::spec_multiplier;
use crate::outcome::WHEEL_MAX;
use crate::outcome::spec_payout;
use crate::outcome::wins;

verus! {

/// A table holds at most this many stakes.
pub const TABLE_CAPACITY: usize = 13;

/// The table's draw state: unset until the single draw, then the drawn number.
#[derive(Clone, Copy, PartialEq, Eq, Structural, Debug)]
pub enum DrawResult {
    Unset,
    Drawn(u8),
}

/// One recorded stake: the category it is on, the bettor that placed it, the
/// amount staked, and whether it has been claimed.
#[derive(Clone, Copy, PartialEq, Eq, Structural, Debug)]
pub struct PositionStruct {
    pub position: Category,
    pub amount: u64,
    pub user_address: u64,
    pub is_claimed: bool,
}

/// Why a bet was refused.
#[derive(Clone, Copy, PartialEq, Eq, Structural, Debug)]
pub enum BetError {
    InvalidCategory,
    WindowClosed,
    TableFull,
    InvalidAmount,
}

/// Why a draw was refused.
#[derive(Clone, Copy, PartialEq, Eq, Structural, Debug)]
pub enum DrawError {
    AlreadyDrawn,
}

/// Why a claim was refused.
#[derive(Clone, Copy, PartialEq, Eq, Structural, Debug)]
pub enum ClaimError {
    DrawPending,
    NoBet,
    AlreadyClaimed,
}

/// The table aggregate: identity, recorded stakes in placement order, and the
/// draw state. Stakes are looked up by a linear scan: the capacity bound of
/// thirteen keeps the scan short and the placement order decides nothing,
/// since a claim resolves every stake of the bettor.
pub struct Table {
    pub id: Vec<u8>,
    pub positions: Vec<PositionStruct>,
    pub result: DrawResult,
}

/// The mathematical model of a table.
pub ghost struct TableView {
    pub id: Seq<u8>,
    pub positions: Seq<PositionStruct>,
    pub result: DrawResult,
}

impl View for Table {
    type V = TableView;

    open spec fn view(&self) -> TableView {
        TableView { id: self.id@, positions: self.positions@, result: self.result }
    }
}

impl TableView {
    /// The table's invariants: at most thirteen stakes, every stake positive,
    /// the drawn number on the wheel, and nothing claimed while the betting
    /// window is still open.
    pub open spec fn wf(self) -> bool {
        &&& self.positions.len() <= TABLE_CAPACITY
        &&& forall|i: int|
            0 <= i < self.positions.len() ==> (#[trigger] self.positions[i]).amount > 0
        &&& match self.result {
            DrawResult::Unset => forall|i: int|
                0 <= i < self.positions.len() ==> !(#[trigger] self.positions[i]).is_claimed,
            DrawResult::Drawn(n) => n <= WHEEL_MAX,
        }
    }

    /// The betting window is open until the draw.
    pub open spec fn is_open(self) -> bool {
        self.result is Unset
    }

    /// Whether some stake on the table belongs to `user`.
    pub open spec fn has_entry(self, user: u64) -> bool {
        exists|i: int|
            0 <= i < self.positions.len() && (#[trigger] self.positions[i]).user_address == user
    }

    /// Whether some stake of `user` has already been claimed.
    pub open spec fn has_claimed_entry(self, user: u64) -> bool {
        exists|i: int|
            0 <= i < self.positions.len() && (#[trigger] self.positions[i]).user_address == user
                && self.positions[i].is_claimed
    }
}

impl Table {
    /// True while the betting window is open.
    pub fn is_open(&self) -> (r: bool)
        ensures
            r == self@.is_open(),
    {
        match self.result {
            DrawResult::Unset => true,
            DrawResult::Drawn(_) => false,
        }
    }
}

/// Returns a fresh table with the given identity, no stakes and no draw.
pub fn create(id: Vec<u8>) -> (t: Table)
    ensures
        t@ == (TableView { id: id@, positions: Seq::<PositionStruct>::empty(), result: DrawResult::Unset }),
        t@.wf(),
{
    Table { id, positions: Vec::new(), result: DrawResult::Unset }
}

/// The precondition checks of a bet, in the order they are decided: the
/// window must be open, the table below capacity, and the stake positive.
pub open spec fn spec_bet_check(t: TableView, amount: u64) -> Result<(), BetError> {
    if !t.is_open() {
        Err(BetError::WindowClosed)
    } else if t.positions.len() >= TABLE_CAPACITY {
        Err(BetError::TableFull)
    } else if amount == 0 {
        Err(BetError::InvalidAmount)
    } else {
        Ok(())
    }
}

/// What placing a bet of a known category does to a table: on success the
/// stake is appended unclaimed, on failure the table is untouched.
pub open spec fn spec_place_bet(t: TableView, position: Category, user: u64, amount: u64) -> (
    TableView,
    Result<(), BetError>,
) {
    match spec_bet_check(t, amount) {
        Err(e) => (t, Err(e)),
        Ok(_) => (
            TableView {
                positions: t.positions.push(
                    PositionStruct { position, amount, user_address: user, is_claimed: false },
                ),
                ..t
            },
            Ok(()),
        ),
    }
}

/// What placing a bet named by a wire code does: an unknown code is refused
/// before anything else is checked.
pub open spec fn spec_bet(t: TableView, code: Seq<char>, user: u64, amount: u64) -> (
    TableView,
    Result<(), BetError>,
) {
    match spec_from_code(code) {
        None => (t, Err(BetError::InvalidCategory)),
        Some(c) => spec_place_bet(t, c, user, amount),
    }
}

/// Says whether a bet would be accepted, without touching the table. The host
/// debits the stake only after this succeeds, and appends it with `bet` or
/// `place_bet` only after the debit: a failed debit then leaves the table
/// unchanged.
pub fn can_bet(table: &Table, amount: u64) -> (r: Result<(), BetError>)
    ensures
        r == spec_bet_check(table@, amount),
{
    if !table.is_open() {
        Err(BetError::WindowClosed)
    } else if table.positions.len() >= TABLE_CAPACITY {
        Err(BetError::TableFull)
    } else if amount == 0 {
        Err(BetError::InvalidAmount)
    } else {
        Ok(())
    }
}

/// Places a stake of a known category on the table.
pub fn place_bet(table: &mut Table, position: Category, user_address: u64, amount: u64) -> (r:
    Result<(), BetError>)
    requires
        old(table)@.wf(),
    ensures
        final(table)@.wf(),
        (final(table)@, r) == spec_place_bet(old(table)@, position, user_address, amount),
{
    if !table.is_open() {
        return Err(BetError::WindowClosed);
    }
    if table.positions.len() >= TABLE_CAPACITY {
        return Err(BetError::TableFull);
    }
    if amount == 0 {
        return Err(BetError::InvalidAmount);
    }
    table.positions.push(
        PositionStruct { position, amount, user_address, is_claimed: false },
    );
    Ok(())
}

/// Places a stake named by its wire code: the code is parsed first, then the
/// window, the capacity and the amount are checked, in that order.
pub fn bet(table: &mut Table, position: &str, user_address: u64, amount: u64) -> (r: Result<
    (),
    BetError,
>)
    requires
        old(table)@.wf(),
    ensures
        final(table)@.wf(),
        (final(table)@, r) == spec_bet(old(table)@, position@, user_address, amount),
{
    match from_code(position) {
        None => Err(BetError::InvalidCategory),
        Some(c) => place_bet(table, c, user_address, amount),
    }
}

/// What the single draw does: it closes the window irreversibly, and a second
/// draw is refused.
pub open spec fn spec_spin(t: TableView, num: u8) -> (TableView, Result<(), DrawError>) {
    if t.is_open() {
        (TableView { result: DrawResult::Drawn(num), ..t }, Ok(()))
    } else {
        (t, Err(DrawError::AlreadyDrawn))
    }
}

/// Sets the drawn number and closes the betting window. The number comes from
/// the host's entropy source; the table only requires it to be on the wheel.
pub fn spin(table: &mut Table, num: u8) -> (r: Result<(), DrawError>)
    requires
        old(table)@.wf(),
        num <= WHEEL_MAX,
    ensures
        final(table)@.wf(),
        (final(table)@, r) == spec_spin(old(table)@, num),
{
    if table.is_open() {
        table.result = DrawResult::Drawn(num);
        Ok(())
    } else {
        Err(DrawError::AlreadyDrawn)
    }
}

/// Draws from a raw entropy word by reducing it onto the wheel, the way the
/// host's clock-derived entropy is consumed.
pub fn spin_from_entropy(table: &mut Table, entropy: u64) -> (r: Result<(), DrawError>)
    requires
        old(table)@.wf(),
    ensures
        final(table)@.wf(),
        (final(table)@, r) == spec_spin(old(table)@, (entropy % 37) as u8),
{
    let num: u8 = (entropy % 37) as u8;
    spin(table, num)
}

/// A stake after a claim by `user`: claimed if it belongs to the claimant,
/// untouched otherwise.
pub open spec fn spec_mark(p: PositionStruct, user: u64) -> PositionStruct {
    if p.user_address == user {
        PositionStruct { is_claimed: true, ..p }
    } else {
        p
    }
}

/// All stakes after a claim by `user`.
pub open spec fn spec_mark_claimed(ps: Seq<PositionStruct>, user: u64) -> Seq<PositionStruct> {
    ps.map(|i: int, p: PositionStruct| spec_mark(p, user))
}

/// The sum that a claim by `user` pays against the drawn number `n`: every
/// stake of the bettor is resolved and the winning ones pay stake times
/// multiplier.
pub open spec fn spec_total_payout(ps: Seq<PositionStruct>, user: u64, n: int) -> int
    decreases ps.len(),
{
    if ps.len() == 0 {
        0
    } else {
        spec_total_payout(ps.drop_last(), user, n) + if ps.last().user_address == user {
            spec_payout(ps.last().position, ps.last().amount, n)
        } else {
            0
        }
    }
}

/// What a claim does. Before the draw it is refused; a bettor without a stake
/// is refused; a bettor any of whose stakes was already claimed is refused.
/// Otherwise every stake of the bettor is marked claimed, winner or loser, in
/// one step, and the total payout of the winning ones is returned.
pub open spec fn spec_claim(t: TableView, user: u64) -> (TableView, Result<int, ClaimError>) {
    match t.result {
        DrawResult::Unset => (t, Err(ClaimError::DrawPending)),
        DrawResult::Drawn(n) => if !t.has_entry(user) {
            (t, Err(ClaimError::NoBet))
        } else if t.has_claimed_entry(user) {
            (t, Err(ClaimError::AlreadyClaimed))
        } else {
            (
                TableView { positions: spec_mark_claimed(t.positions, user), ..t },
                Ok(spec_total_payout(t.positions, user, n as int)),
            )
        },
    }
}

/// Says what a claim by `user_address` would pay, without touching the table.
/// The host credits the bettor only after this succeeds, and marks the stakes
/// with `claim_prize` only after the credit.
pub fn claim_payout(table: &Table, user_address: u64) -> (r: Result<u128, ClaimError>)
    requires
        table@.wf(),
    ensures
        (match r {
            Ok(total) => spec_claim(table@, user_address).1 == Ok::<int, ClaimError>(total as int),
            Err(e) => spec_claim(table@, user_address).1 == Err::<int, ClaimError>(e),
        }),
{
    let num: u8 = match table.result {
        DrawResult::Unset => {
            return Err(ClaimError::DrawPending);
        },
        DrawResult::Drawn(n) => n,
    };
    let n_pos = table.positions.len();
    let mut found = false;
    let mut any_claimed = false;
    let mut total: u128 = 0;
    let mut i: usize = 0;
    while i < n_pos
        invariant
            table@.wf(),
            table@.result == DrawResult::Drawn(num),
            num <= WHEEL_MAX,
            n_pos == table@.positions.len(),
            i <= n_pos,
            found == exists|j: int|
                0 <= j < i && (#[trigger] table@.positions[j]).user_address == user_address,
            any_claimed == exists|j: int|
                0 <= j < i && (#[trigger] table@.positions[j]).user_address == user_address
                    && table@.positions[j].is_claimed,
            total as int == spec_total_payout(
                table@.positions.take(i as int),
                user_address,
                num as int,
            ),
            total as int <= i as int * (36 * (u64::MAX as int)),
        decreases n_pos - i,
    {
        let p = table.positions[i];
        if p.user_address == user_address {
            found = true;
            if p.is_claimed {
                any_claimed = true;
            }
            let m = multiplier(p.position);
            proof {
                assert(spec_multiplier(p.position) <= 36);
            }
            if wins(p.position, num) {
                let pay: u128 = (p.amount as u128) * (m as u128);
                proof {
                    assert(pay as int <= 36 * (u64::MAX as int)) by (nonlinear_arith)
                        requires
                            pay as int == (p.amount as int) * (m as int),
                            m as int <= 36,
                            p.amount as int <= u64::MAX as int,
                            m >= 0,
                            p.amount >= 0,
                    ;
                }
                total = total + pay;
            }
        }
        proof {
            assert(table@.positions.take(i as int + 1).drop_last() =~= table@.positions.take(
                i as int,
            ));
            assert(table@.positions.take(i as int + 1).last() == table@.positions[i as int]);
        }
        i += 1;
    }
    proof {
        assert(table@.positions.take(n_pos as int) =~= table@.positions);
    }
    if !found {
        return Err(ClaimError::NoBet);
    }
    if any_claimed {
        return Err(ClaimError::AlreadyClaimed);
    }
    Ok(total)
}

/// Resolves every stake of `user_address` against the drawn number: each is
/// marked claimed exactly once, winner or loser, and the total payout the
/// host owes the bettor is returned. A second claim by the same bettor is
/// refused, and a refused claim leaves the table untouched.
pub fn claim_prize(table: &mut Table, user_address: u64) -> (r: Result<u128, ClaimError>)
    requires
        old(table)@.wf(),
    ensures
        final(table)@.wf(),
        final(table)@ == spec_claim(old(table)@, user_address).0,
        (match r {
            Ok(total) => spec_claim(old(table)@, user_address).1 == Ok::<int, ClaimError>(
                total as int,
            ),
            Err(e) => spec_claim(old(table)@, user_address).1 == Err::<int, ClaimError>(e),
        }),
{
    let total = match claim_payout(table, user_address) {
        Ok(total) => total,
        Err(e) => {
            return Err(e);
        },
    };
    let num: u8 = match table.result {
        DrawResult::Unset => {
            return Err(ClaimError::DrawPending);
        },
        DrawResult::Drawn(n) => n,
    };
    let n_pos = table.positions.len();
    let mut i: usize = 0;
    while i < n_pos
        invariant
            i <= n_pos,
            n_pos == table@.positions.len(),
            table@.positions.len() == old(table)@.positions.len(),
            table@.id == old(table)@.id,
            table@.result == old(table)@.result,
            forall|j: int|
                0 <= j < i ==> #[trigger] table@.positions[j] == spec_mark(
                    old(table)@.positions[j],
                    user_address,
                ),
            forall|j: int|
                i <= j < n_pos ==> #[trigger] table@.positions[j] == old(table)@.positions[j],
        decreases n_pos - i,
    {
        let p = table.positions[i];
        if p.user_address == user_address {
            table.positions[i] = PositionStruct { is_claimed: true, ..p };
        }
        i += 1;
    }
    proof {
        assert(table@.positions =~= spec_mark_claimed(old(table)@.positions, user_address));
    }
    Ok(total)
}

/// After the draw no bet is accepted: whatever the category, the bettor and
/// the amount, placing a bet on the drawn table fails with `WindowClosed` and
/// leaves the table as it was.
pub proof fn lemma_no_bet_after_spin(
    t: TableView,
    num: u8,
    position: Category,
    user: u64,
    amount: u64,
)
    requires
        spec_spin(t, num).1 is Ok,
    ensures
        spec_place_bet(spec_spin(t, num).0, position, user, amount) == (
            spec_spin(t, num).0,
            Err::<(), BetError>(BetError::WindowClosed),
        ),
        forall|code: Seq<char>|
            spec_from_code(code) is Some ==> #[trigger] spec_bet(
                spec_spin(t, num).0,
                code,
                user,
                amount,
            ) == (spec_spin(t, num).0, Err::<(), BetError>(BetError::WindowClosed)),
{
}

/// The draw happens exactly once: after a draw succeeds, every further draw
/// fails with `AlreadyDrawn` and the drawn number never changes.
pub proof fn lemma_single_draw(t: TableView, num: u8, num2: u8)
    requires
        spec_spin(t, num).1 is Ok,
    ensures
        spec_spin(spec_spin(t, num).0, num2) == (
            spec_spin(t, num).0,
            Err::<(), DrawError>(DrawError::AlreadyDrawn),
        ),
{
}

/// The thirteenth stake fills the table and the fourteenth is refused: on an
/// open table with twelve stakes a valid bet succeeds, and any further bet on
/// the resulting table fails with `TableFull`.
pub proof fn lemma_table_capacity(
    t: TableView,
    position: Category,
    user: u64,
    amount: u64,
    position2: Category,
    user2: u64,
    amount2: u64,
)
    requires
        t.is_open(),
        t.positions.len() == TABLE_CAPACITY - 1,
        amount > 0,
    ensures
        spec_place_bet(t, position, user, amount).1 is Ok,
        spec_place_bet(spec_place_bet(t, position, user, amount).0, position2, user2, amount2).1
            == Err::<(), BetError>(BetError::TableFull),
{
}

/// Before the draw every claim fails with `DrawPending`, whoever claims.
pub proof fn lemma_no_claim_before_spin(t: TableView, user: u64)
    requires
        t.is_open(),
    ensures
        spec_claim(t, user) == (t, Err::<int, ClaimError>(ClaimError::DrawPending)),
{
}

/// A claim resolves a bettor exactly once: after a claim by `user` succeeds,
/// a second claim by the same bettor fails with `AlreadyClaimed` and changes
/// nothing.
pub proof fn lemma_claim_exactly_once(t: TableView, user: u64)
    requires
        spec_claim(t, user).1 is Ok,
    ensures
        spec_claim(spec_claim(t, user).0, user) == (
            spec_claim(t, user).0,
            Err::<int, ClaimError>(ClaimError::AlreadyClaimed),
        ),
{
    let t2 = spec_claim(t, user).0;
    let i = choose|i: int|
        0 <= i < t.positions.len() && (#[trigger] t.positions[i]).user_address == user;
    assert(t2.positions[i] == spec_mark(t.positions[i], user));
    assert(t2.positions[i].user_address == user && t2.positions[i].is_claimed);
    assert(t2.has_entry(user));
    assert(t2.has_claimed_entry(user));
}

} // verus!

