//! The share of the pool under both rules.

use run_club::{compute_reward, ClubError, WithdrawalRule};

#[test]
fn equal_rule_sole_eligible_member_gets_the_pool() {
    // credit {5, 0}: one eligible member, total 5
    assert_eq!(compute_reward(WithdrawalRule::Equal, 100, 5, Some(5), 1), Ok(100));
    assert_eq!(compute_reward(WithdrawalRule::Equal, 100, 0, Some(5), 1), Ok(0));
}

#[test]
fn equal_rule_two_eligible_members_get_half_each() {
    // credit {5, 3}
    assert_eq!(compute_reward(WithdrawalRule::Equal, 100, 5, Some(8), 2), Ok(50));
    assert_eq!(compute_reward(WithdrawalRule::Equal, 100, 3, Some(8), 2), Ok(50));
}

#[test]
fn equal_rule_leaves_the_remainder_in_the_pool() {
    assert_eq!(compute_reward(WithdrawalRule::Equal, 100, 1, Some(3), 3), Ok(33));
    assert_eq!(compute_reward(WithdrawalRule::Equal, 2, 1, Some(3), 3), Ok(0));
}

#[test]
fn unlimited_rule_is_proportional() {
    // credit {8, 2}
    assert_eq!(compute_reward(WithdrawalRule::Unlimited, 100, 8, Some(10), 2), Ok(80));
    assert_eq!(compute_reward(WithdrawalRule::Unlimited, 100, 2, Some(10), 2), Ok(20));
    // 100 * 1 / 3 = 33.33..
    assert_eq!(compute_reward(WithdrawalRule::Unlimited, 100, 1, Some(3), 3), Ok(33));
}

#[test]
fn nothing_is_paid_without_credit() {
    assert_eq!(compute_reward(WithdrawalRule::Equal, 100, 0, Some(10), 2), Ok(0));
    assert_eq!(compute_reward(WithdrawalRule::Unlimited, 100, 0, Some(10), 2), Ok(0));
    assert_eq!(compute_reward(WithdrawalRule::Unlimited, 100, 0, None, 2), Ok(0));
}

#[test]
fn nothing_is_paid_while_the_credit_sums_to_zero() {
    assert_eq!(compute_reward(WithdrawalRule::Equal, 100, 4, Some(0), 1), Ok(0));
    assert_eq!(compute_reward(WithdrawalRule::Unlimited, 100, 4, Some(0), 1), Ok(0));
    assert_eq!(compute_reward(WithdrawalRule::Equal, 100, -4, Some(-4), 0), Ok(0));
}

#[test]
fn equal_rule_does_not_need_the_total_to_fit() {
    assert_eq!(compute_reward(WithdrawalRule::Equal, 100, 4, None, 2), Ok(50));
}

#[test]
fn unlimited_rule_with_a_large_pool_is_exact() {
    let pool = i128::MAX;
    assert_eq!(compute_reward(WithdrawalRule::Unlimited, pool, 1, Some(2), 2), Ok(pool / 2));
    assert_eq!(compute_reward(WithdrawalRule::Unlimited, pool, i128::MAX, Some(i128::MAX), 1), Ok(pool));
}

#[test]
fn unlimited_rule_reports_what_does_not_fit() {
    assert_eq!(compute_reward(WithdrawalRule::Unlimited, 100, 4, None, 2), Err(ClubError::Overflow));
    assert_eq!(
        compute_reward(WithdrawalRule::Unlimited, i128::MAX, 10, Some(1), 2),
        Err(ClubError::Overflow)
    );
}

#[test]
fn unlimited_rule_with_negative_credit_rounds_down() {
    // 100 * -1 / 3 = -33.33..
    assert_eq!(compute_reward(WithdrawalRule::Unlimited, 100, -1, Some(3), 1), Ok(-34));
    // 100 * 10 / 1
    assert_eq!(compute_reward(WithdrawalRule::Unlimited, 100, 10, Some(1), 1), Ok(1000));
}
