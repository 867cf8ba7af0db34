use roulette::category::Category;
use roulette::table::BetError;
use roulette::table::ClaimError;
use roulette::table::DrawError;
use roulette::table::DrawResult;
use roulette::table::TABLE_CAPACITY;
use roulette::table::bet;
use roulette::table::can_bet;
use roulette::table::claim_payout;
use roulette::table::claim_prize;
use roulette::table::create;
use roulette::table::place_bet;
use roulette::table::spin;
use roulette::table::spin_from_entropy;

const ALICE: u64 = 11;
const BOB: u64 = 22;
const CAROL: u64 = 33;

#[test]
fn a_fresh_table_is_open_and_empty() {
    let t = create(b"main".to_vec());
    assert!(t.is_open());
    assert_eq!(t.id, b"main".to_vec());
    assert!(t.positions.is_empty());
    assert_eq!(t.result, DrawResult::Unset);
}

#[test]
fn unknown_codes_are_refused_before_anything_else() {
    let mut t = create(b"t".to_vec());
    assert_eq!(bet(&mut t, "PURPLE", ALICE, 10), Err(BetError::InvalidCategory));
    // even on a drawn table the code is checked first
    spin(&mut t, 5).unwrap();
    assert_eq!(bet(&mut t, "PURPLE", ALICE, 10), Err(BetError::InvalidCategory));
    assert!(t.positions.is_empty());
}

#[test]
fn zero_stakes_are_refused() {
    let mut t = create(b"t".to_vec());
    assert_eq!(bet(&mut t, "RED", ALICE, 0), Err(BetError::InvalidAmount));
    assert_eq!(place_bet(&mut t, Category::Red, ALICE, 0), Err(BetError::InvalidAmount));
    assert!(t.positions.is_empty());
}

#[test]
fn no_bet_after_the_draw() {
    let mut t = create(b"t".to_vec());
    bet(&mut t, "RED", ALICE, 10).unwrap();
    spin(&mut t, 17).unwrap();
    assert_eq!(bet(&mut t, "RED", BOB, 10), Err(BetError::WindowClosed));
    assert_eq!(bet(&mut t, "GREEN", BOB, 1), Err(BetError::WindowClosed));
    assert_eq!(place_bet(&mut t, Category::Col3, BOB, 999), Err(BetError::WindowClosed));
    assert_eq!(t.positions.len(), 1);
}

#[test]
fn the_thirteenth_bet_fills_the_table() {
    let mut t = create(b"t".to_vec());
    for i in 0..(TABLE_CAPACITY - 1) {
        place_bet(&mut t, Category::Red, 100 + i as u64, 5).unwrap();
    }
    assert_eq!(t.positions.len(), 12);
    // the thirteenth succeeds
    assert_eq!(place_bet(&mut t, Category::Black, ALICE, 5), Ok(()));
    assert_eq!(t.positions.len(), TABLE_CAPACITY);
    // the fourteenth is refused
    assert_eq!(place_bet(&mut t, Category::Black, BOB, 5), Err(BetError::TableFull));
    assert_eq!(bet(&mut t, "ODD", BOB, 5), Err(BetError::TableFull));
    assert_eq!(t.positions.len(), TABLE_CAPACITY);
}

#[test]
fn the_draw_happens_once() {
    let mut t = create(b"t".to_vec());
    assert_eq!(spin(&mut t, 36), Ok(()));
    assert_eq!(t.result, DrawResult::Drawn(36));
    assert_eq!(spin(&mut t, 1), Err(DrawError::AlreadyDrawn));
    assert_eq!(t.result, DrawResult::Drawn(36));
}

#[test]
fn entropy_is_reduced_onto_the_wheel() {
    let mut t = create(b"t".to_vec());
    // 40 = 37 + 3
    spin_from_entropy(&mut t, 40).unwrap();
    assert_eq!(t.result, DrawResult::Drawn(3));
    let mut t2 = create(b"t2".to_vec());
    spin_from_entropy(&mut t2, 36).unwrap();
    assert_eq!(t2.result, DrawResult::Drawn(36));
    let mut t3 = create(b"t3".to_vec());
    spin_from_entropy(&mut t3, 37).unwrap();
    assert_eq!(t3.result, DrawResult::Drawn(0));
}

#[test]
fn no_claim_before_the_draw() {
    let mut t = create(b"t".to_vec());
    bet(&mut t, "RED", ALICE, 10).unwrap();
    assert_eq!(claim_prize(&mut t, ALICE), Err(ClaimError::DrawPending));
    assert_eq!(claim_payout(&t, ALICE), Err(ClaimError::DrawPending));
    assert!(!t.positions[0].is_claimed);
}

#[test]
fn strangers_have_nothing_to_claim() {
    let mut t = create(b"t".to_vec());
    bet(&mut t, "RED", ALICE, 10).unwrap();
    spin(&mut t, 17).unwrap();
    assert_eq!(claim_prize(&mut t, CAROL), Err(ClaimError::NoBet));
    assert!(!t.positions[0].is_claimed);
}

#[test]
fn green_pays_thirty_six_times() {
    let mut t = create(b"t".to_vec());
    bet(&mut t, "GREEN", ALICE, 100).unwrap();
    spin(&mut t, 0).unwrap();
    assert_eq!(claim_prize(&mut t, ALICE), Ok(3600));
    assert!(t.positions[0].is_claimed);
}

#[test]
fn red_pays_double() {
    let mut t = create(b"t".to_vec());
    bet(&mut t, "RED", ALICE, 50).unwrap();
    // 16 is in the red set
    spin(&mut t, 16).unwrap();
    assert_eq!(claim_prize(&mut t, ALICE), Ok(100));
}

#[test]
fn a_red_stake_loses_against_black() {
    let mut t = create(b"t".to_vec());
    bet(&mut t, "RED", ALICE, 50).unwrap();
    // 17 is in the black set
    spin(&mut t, 17).unwrap();
    assert_eq!(claim_prize(&mut t, ALICE), Ok(0));
    assert!(t.positions[0].is_claimed);
}

#[test]
fn a_lost_stake_pays_nothing_and_is_still_claimed() {
    let mut t = create(b"t".to_vec());
    bet(&mut t, "1-12", ALICE, 30).unwrap();
    spin(&mut t, 20).unwrap();
    assert_eq!(claim_prize(&mut t, ALICE), Ok(0));
    assert!(t.positions[0].is_claimed);
    // and it cannot be claimed again
    assert_eq!(claim_prize(&mut t, ALICE), Err(ClaimError::AlreadyClaimed));
}

#[test]
fn a_prize_is_claimed_exactly_once() {
    let mut t = create(b"t".to_vec());
    bet(&mut t, "ODD", ALICE, 10).unwrap();
    spin(&mut t, 17).unwrap();
    assert_eq!(claim_prize(&mut t, ALICE), Ok(20));
    assert_eq!(claim_prize(&mut t, ALICE), Err(ClaimError::AlreadyClaimed));
    assert_eq!(claim_payout(&t, ALICE), Err(ClaimError::AlreadyClaimed));
    assert!(t.positions[0].is_claimed);
}

#[test]
fn every_stake_of_a_bettor_is_resolved_together() {
    let mut t = create(b"t".to_vec());
    bet(&mut t, "RED", ALICE, 50).unwrap();
    bet(&mut t, "EVEN", ALICE, 30).unwrap();
    bet(&mut t, "ODD", ALICE, 40).unwrap();
    bet(&mut t, "BLACK", BOB, 25).unwrap();
    // 12 is red and even
    spin(&mut t, 12).unwrap();
    // 50*2 + 30*2, the odd stake loses
    assert_eq!(claim_prize(&mut t, ALICE), Ok(160));
    assert!(t.positions[0].is_claimed);
    assert!(t.positions[1].is_claimed);
    assert!(t.positions[2].is_claimed);
    assert!(!t.positions[3].is_claimed);
    assert_eq!(claim_prize(&mut t, ALICE), Err(ClaimError::AlreadyClaimed));
    // the other bettor is untouched: 12 is not black
    assert_eq!(claim_prize(&mut t, BOB), Ok(0));
}

#[test]
fn the_preview_agrees_with_the_claim() {
    let mut t = create(b"t".to_vec());
    bet(&mut t, "COL2", ALICE, 7).unwrap();
    spin(&mut t, 20).unwrap();
    let preview = claim_payout(&t, ALICE);
    assert_eq!(preview, Ok(21));
    assert!(!t.positions[0].is_claimed);
    assert_eq!(claim_prize(&mut t, ALICE), preview);
    assert!(t.positions[0].is_claimed);
}

#[test]
fn can_bet_checks_without_placing() {
    let mut t = create(b"t".to_vec());
    assert_eq!(can_bet(&t, 10), Ok(()));
    assert_eq!(can_bet(&t, 0), Err(BetError::InvalidAmount));
    assert!(t.positions.is_empty());
    for i in 0..TABLE_CAPACITY {
        place_bet(&mut t, Category::Red, i as u64, 1).unwrap();
    }
    assert_eq!(can_bet(&t, 10), Err(BetError::TableFull));
    spin(&mut t, 4).unwrap();
    assert_eq!(can_bet(&t, 10), Err(BetError::WindowClosed));
}

#[test]
fn bets_keep_their_placement_order() {
    let mut t = create(b"t".to_vec());
    bet(&mut t, "RED", ALICE, 1).unwrap();
    bet(&mut t, "BLACK", BOB, 2).unwrap();
    bet(&mut t, "GREEN", CAROL, 3).unwrap();
    assert_eq!(t.positions[0].position, Category::Red);
    assert_eq!(t.positions[0].user_address, ALICE);
    assert_eq!(t.positions[0].amount, 1);
    assert!(!t.positions[0].is_claimed);
    assert_eq!(t.positions[1].position, Category::Black);
    assert_eq!(t.positions[2].position, Category::Green);
}
