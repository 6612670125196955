//! The reward of one user, computed from the figures of a club.

use crate::arith::{floor_div, lemma_floor_div_bounds, mul_div_floor};
use crate::model::reward_share;
use crate::types::{ClubError, WithdrawalRule};
use vstd::prelude::*;

verus! {

proof fn lemma_equal_share_fits(pool: int, eligible: int)
    requires
        i128::MIN <= pool <= i128::MAX,
        eligible >= 1,
    ensures
        i128::MIN <= floor_div(pool, eligible) <= i128::MAX,
{
    lemma_floor_div_bounds(pool, eligible);
    let q = floor_div(pool, eligible);
    assert(q <= i128::MAX) by (nonlinear_arith)
        requires
            q * eligible <= pool,
            pool <= i128::MAX,
            eligible >= 1,
    ;
    assert(q >= i128::MIN) by (nonlinear_arith)
        requires
            pool < (q + 1) * eligible,
            pool >= i128::MIN,
            eligible >= 1,
    ;
}

/// The share of `pool` that falls to a user with credit `user_km`.
///
/// `total_km` is the sum of the credit of the club, `None` where it does
/// not fit 128 bits; `eligible` is the number of members with positive
/// credit. The result is the one that `reward_share` defines.
pub fn compute_reward(
    rule: WithdrawalRule,
    pool: i128,
    user_km: i128,
    total_km: Option<i128>,
    eligible: usize,
) -> (share: Result<i128, ClubError>)
    ensures
        share == reward_share(rule, pool, user_km, total_km, eligible as nat),
{
    if user_km == 0 {
        return Ok(0);
    }
    match rule {
        WithdrawalRule::Equal => {
            if eligible == 0 || total_km == Some(0i128) {
                Ok(0)
            } else {
                proof {
                    lemma_equal_share_fits(pool as int, eligible as int);
                    assert(pool * 1 == pool);
                }
                match mul_div_floor(pool, 1, eligible as i128) {
                    Some(share) => Ok(share),
                    None => Err(ClubError::Overflow),
                }
            }
        },
        WithdrawalRule::Unlimited => {
            match total_km {
                None => Err(ClubError::Overflow),
                Some(total) => {
                    if total == 0 {
                        Ok(0)
                    } else {
                        match mul_div_floor(pool, user_km, total) {
                            Some(share) => Ok(share),
                            None => Err(ClubError::Overflow),
                        }
                    }
                },
            }
        },
    }
}

} // verus!
