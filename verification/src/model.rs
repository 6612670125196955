//! The run-club ledger as a mathematical state machine.
//!
//! A `LedgerView` is the whole persistent state: the id counter, the clubs
//! by id, and the distance credit by user and club. Every operation is a
//! spec function from a state and its arguments to the next state and the
//! result. A refused operation returns the state it was given.

use crate::arith::{fits_i128, floor_div, narrow};
use crate::members::without;
use crate::types::{ClubError, ClubView, WithdrawalRule};
use vstd::prelude::*;

verus! {

/// The length of a day of the competition period, in seconds.
pub const SECONDS_PER_DAY: u64 = 86400;

/// The credit that `km_tokens` holds for `user` in `club_id`; zero where
/// nothing was recorded.
pub open spec fn balance_in(km_tokens: Map<(Seq<char>, u64), i128>, user: Seq<char>, club_id: u64) -> i128 {
    if km_tokens.contains_key((user, club_id)) {
        km_tokens[(user, club_id)]
    } else {
        0
    }
}

/// The sum of the credit of `members` in `club_id`.
pub open spec fn sum_km(km_tokens: Map<(Seq<char>, u64), i128>, members: Seq<Seq<char>>, club_id: u64) -> int
    decreases members.len(),
{
    if members.len() == 0 {
        0
    } else {
        sum_km(km_tokens, members.drop_last(), club_id) + balance_in(km_tokens, members.last(), club_id)
    }
}

/// How many of `members` hold positive credit in `club_id`.
pub open spec fn count_eligible(km_tokens: Map<(Seq<char>, u64), i128>, members: Seq<Seq<char>>, club_id: u64) -> nat
    decreases members.len(),
{
    if members.len() == 0 {
        0
    } else {
        count_eligible(km_tokens, members.drop_last(), club_id) + (if balance_in(
            km_tokens,
            members.last(),
            club_id,
        ) > 0 {
            1nat
        } else {
            0nat
        })
    }
}

/// The share of a pool that falls to a user.
///
/// `total_km` is the sum of the credit of the club, or `None` where that
/// sum does not fit 128 bits (it is then not zero); `eligible` is the
/// number of members with positive credit.
///
/// A user without credit gets nothing, and nothing is paid while the
/// credit of the club sums to zero. Under the equal rule the pool is
/// divided by `eligible`; under the proportional rule the user gets
/// `pool * user_km / total_km`. Both quotients are rounded down.
/// `Overflow` says that the proportional share, or the sum it is a share
/// of, does not fit 128 bits.
pub open spec fn reward_share(
    rule: WithdrawalRule,
    pool: i128,
    user_km: i128,
    total_km: Option<i128>,
    eligible: nat,
) -> Result<i128, ClubError> {
    if user_km == 0 {
        Ok(0)
    } else {
        match rule {
            WithdrawalRule::Equal => {
                if eligible == 0 || total_km == Some(0i128) {
                    Ok(0)
                } else {
                    Ok(floor_div(pool as int, eligible as int) as i128)
                }
            },
            WithdrawalRule::Unlimited => {
                match total_km {
                    None => Err(ClubError::Overflow),
                    Some(total) => {
                        if total == 0 {
                            Ok(0)
                        } else {
                            match narrow(floor_div(pool * user_km, total as int)) {
                                Some(share) => Ok(share),
                                None => Err(ClubError::Overflow),
                            }
                        }
                    },
                }
            },
        }
    }
}

/// The persistent state of the ledger.
#[verifier::ext_equal]
pub struct LedgerView {
    /// The id that was assigned last; zero before the first club.
    pub club_counter: u64,
    /// The clubs that exist, by id.
    pub clubs: Map<u64, ClubView>,
    /// The distance credit, by user and club id. A missing entry is zero.
    pub km_tokens: Map<(Seq<char>, u64), i128>,
}

impl LedgerView {
    /// The state before anything happened.
    pub open spec fn empty() -> LedgerView {
        LedgerView { club_counter: 0, clubs: Map::empty(), km_tokens: Map::empty() }
    }

    /// What holds of every reachable state: a club is stored under its own
    /// id, ids lie between 1 and the counter, and every club is valid.
    pub open spec fn inv(self) -> bool {
        forall|id: u64| #[trigger]
            self.clubs.contains_key(id) ==> {
                &&& self.clubs[id].id == id
                &&& 1 <= id <= self.club_counter
                &&& self.clubs[id].valid()
            }
    }

    /// This state with `club` stored under `club_id`.
    pub open spec fn with_club(self, club_id: u64, club: ClubView) -> LedgerView {
        LedgerView { clubs: self.clubs.insert(club_id, club), ..self }
    }

    /// The credit of `user` in `club_id`; zero where nothing was recorded.
    pub open spec fn km_balance(self, user: Seq<char>, club_id: u64) -> i128 {
        balance_in(self.km_tokens, user, club_id)
    }

    /// The sum of the credit of the current members of an existing club.
    pub open spec fn total_km(self, club_id: u64) -> int {
        sum_km(self.km_tokens, self.clubs[club_id].members, club_id)
    }

    /// How many current members of an existing club hold positive credit.
    pub open spec fn eligible_count(self, club_id: u64) -> nat {
        count_eligible(self.km_tokens, self.clubs[club_id].members, club_id)
    }

    /// Creates a club. The rate is checked first, then the duration, then
    /// that the next id and the end of the period fit 64 bits.
    pub open spec fn create_club(
        self,
        now: u64,
        organizer: Seq<char>,
        name: Seq<char>,
        usdc_per_km: i128,
        withdrawal_rule: WithdrawalRule,
        duration_days: u32,
    ) -> (LedgerView, Result<u64, ClubError>) {
        if usdc_per_km <= 0 {
            (self, Err(ClubError::InvalidRate))
        } else if duration_days == 0 {
            (self, Err(ClubError::InvalidDuration))
        } else if self.club_counter == u64::MAX || now + duration_days * SECONDS_PER_DAY > u64::MAX {
            (self, Err(ClubError::Overflow))
        } else {
            let id = (self.club_counter + 1) as u64;
            let club = ClubView {
                id,
                name,
                organizer,
                members: Seq::empty(),
                usdc_deposited: 0,
                usdc_per_km,
                withdrawal_rule,
                month_end_timestamp: (now + duration_days * SECONDS_PER_DAY) as u64,
                is_active: false,
            };
            (LedgerView { club_counter: id, ..self.with_club(id, club) }, Ok(id))
        }
    }

    /// Looks a club up.
    pub open spec fn get_club(self, club_id: u64) -> Result<ClubView, ClubError> {
        if self.clubs.contains_key(club_id) {
            Ok(self.clubs[club_id])
        } else {
            Err(ClubError::NotFound)
        }
    }

    /// The members of a club, in the order in which they joined.
    pub open spec fn get_members(self, club_id: u64) -> Result<Seq<Seq<char>>, ClubError> {
        if self.clubs.contains_key(club_id) {
            Ok(self.clubs[club_id].members)
        } else {
            Err(ClubError::NotFound)
        }
    }

    /// Activates a club on behalf of `organizer`.
    pub open spec fn activate(self, club_id: u64, organizer: Seq<char>) -> (LedgerView, Result<(), ClubError>) {
        if !self.clubs.contains_key(club_id) {
            (self, Err(ClubError::NotFound))
        } else if self.clubs[club_id].organizer != organizer {
            (self, Err(ClubError::NotAuthorized))
        } else if self.clubs[club_id].is_active {
            (self, Err(ClubError::AlreadyActive))
        } else {
            (self.with_club(club_id, ClubView { is_active: true, ..self.clubs[club_id] }), Ok(()))
        }
    }

    /// Adds `amount` to the pool of a club, which activates the club.
    pub open spec fn deposit_usdc(self, club_id: u64, organizer: Seq<char>, amount: i128) -> (
        LedgerView,
        Result<(), ClubError>,
    ) {
        if amount <= 0 {
            (self, Err(ClubError::InvalidAmount))
        } else if !self.clubs.contains_key(club_id) {
            (self, Err(ClubError::NotFound))
        } else if self.clubs[club_id].organizer != organizer {
            (self, Err(ClubError::NotAuthorized))
        } else if self.clubs[club_id].usdc_deposited + amount > i128::MAX {
            (self, Err(ClubError::Overflow))
        } else {
            (
                self.with_club(
                    club_id,
                    ClubView {
                        usdc_deposited: (self.clubs[club_id].usdc_deposited + amount) as i128,
                        is_active: true,
                        ..self.clubs[club_id]
                    },
                ),
                Ok(()),
            )
        }
    }

    /// Deletes a club whose pool is empty. Members and credit stay behind.
    pub open spec fn remove_club(self, club_id: u64, organizer: Seq<char>) -> (LedgerView, Result<(), ClubError>) {
        if !self.clubs.contains_key(club_id) {
            (self, Err(ClubError::NotFound))
        } else if self.clubs[club_id].organizer != organizer {
            (self, Err(ClubError::NotAuthorized))
        } else if self.clubs[club_id].usdc_deposited > 0 {
            (self, Err(ClubError::FundsRemaining))
        } else {
            (LedgerView { clubs: self.clubs.remove(club_id), ..self }, Ok(()))
        }
    }

    /// Enrols `member` in a club.
    pub open spec fn add_member(self, club_id: u64, member: Seq<char>) -> (LedgerView, Result<(), ClubError>) {
        if !self.clubs.contains_key(club_id) {
            (self, Err(ClubError::NotFound))
        } else if self.clubs[club_id].members.contains(member) {
            (self, Err(ClubError::DuplicateMember))
        } else {
            (
                self.with_club(
                    club_id,
                    ClubView { members: self.clubs[club_id].members.push(member), ..self.clubs[club_id] },
                ),
                Ok(()),
            )
        }
    }

    /// Takes `member` out of a club on behalf of `organizer`. The credit
    /// of the member stays recorded.
    pub open spec fn remove_member(self, club_id: u64, organizer: Seq<char>, member: Seq<char>) -> (
        LedgerView,
        Result<(), ClubError>,
    ) {
        if !self.clubs.contains_key(club_id) {
            (self, Err(ClubError::NotFound))
        } else if self.clubs[club_id].organizer != organizer {
            (self, Err(ClubError::NotAuthorized))
        } else if !self.clubs[club_id].members.contains(member) {
            (self, Err(ClubError::MemberNotFound))
        } else {
            (
                self.with_club(
                    club_id,
                    ClubView { members: without(self.clubs[club_id].members, member), ..self.clubs[club_id] },
                ),
                Ok(()),
            )
        }
    }

    /// Credits `amount`, of either sign, to a member of an active club.
    pub open spec fn add_km_tokens(self, club_id: u64, user: Seq<char>, amount: i128) -> (
        LedgerView,
        Result<(), ClubError>,
    ) {
        if !self.clubs.contains_key(club_id) {
            (self, Err(ClubError::NotFound))
        } else if !self.clubs[club_id].is_active {
            (self, Err(ClubError::ClubInactive))
        } else if !self.clubs[club_id].members.contains(user) {
            (self, Err(ClubError::NotMember))
        } else if !fits_i128(self.km_balance(user, club_id) + amount) {
            (self, Err(ClubError::Overflow))
        } else {
            (
                LedgerView {
                    km_tokens: self.km_tokens.insert(
                        (user, club_id),
                        (self.km_balance(user, club_id) + amount) as i128,
                    ),
                    ..self
                },
                Ok(()),
            )
        }
    }

    /// The sum of the credit of the current members of a club.
    pub open spec fn get_total_km_tokens(self, club_id: u64) -> Result<i128, ClubError> {
        if !self.clubs.contains_key(club_id) {
            Err(ClubError::NotFound)
        } else {
            match narrow(self.total_km(club_id)) {
                Some(total) => Ok(total),
                None => Err(ClubError::Overflow),
            }
        }
    }

    /// Whether the competition period of a club is over at `now`. The end
    /// itself belongs to the time after the period.
    pub open spec fn is_club_period_ended(self, now: u64, club_id: u64) -> Result<bool, ClubError> {
        if !self.clubs.contains_key(club_id) {
            Err(ClubError::NotFound)
        } else {
            Ok(now >= self.clubs[club_id].month_end_timestamp)
        }
    }

    /// What `user` would be paid from a club at `now`.
    pub open spec fn calculate_usdc_reward(self, now: u64, club_id: u64, user: Seq<char>) -> Result<
        i128,
        ClubError,
    > {
        if !self.clubs.contains_key(club_id) {
            Err(ClubError::NotFound)
        } else if now < self.clubs[club_id].month_end_timestamp {
            Err(ClubError::PeriodNotEnded)
        } else {
            reward_share(
                self.clubs[club_id].withdrawal_rule,
                self.clubs[club_id].usdc_deposited,
                self.km_balance(user, club_id),
                narrow(self.total_km(club_id)),
                self.eligible_count(club_id),
            )
        }
    }

    /// Pays `user` their reward: the credit of the user drops to zero and
    /// the pool shrinks by the reward, which is returned.
    pub open spec fn redeem_usdc(self, now: u64, club_id: u64, user: Seq<char>) -> (
        LedgerView,
        Result<i128, ClubError>,
    ) {
        if !self.clubs.contains_key(club_id) {
            (self, Err(ClubError::NotFound))
        } else if !self.clubs[club_id].is_active {
            (self, Err(ClubError::ClubInactive))
        } else if now < self.clubs[club_id].month_end_timestamp {
            (self, Err(ClubError::PeriodNotEnded))
        } else if !self.clubs[club_id].members.contains(user) {
            (self, Err(ClubError::NotMember))
        } else if self.km_balance(user, club_id) == 0 {
            (self, Err(ClubError::NoTokensToRedeem))
        } else {
            match self.calculate_usdc_reward(now, club_id, user) {
                Err(e) => (self, Err(e)),
                Ok(reward) => {
                    if reward > self.clubs[club_id].usdc_deposited {
                        (self, Err(ClubError::InsufficientPoolFunds))
                    } else if self.clubs[club_id].usdc_deposited - reward > i128::MAX {
                        (self, Err(ClubError::Overflow))
                    } else {
                        (
                            LedgerView {
                                km_tokens: self.km_tokens.insert((user, club_id), 0),
                                ..self.with_club(
                                    club_id,
                                    ClubView {
                                        usdc_deposited: (self.clubs[club_id].usdc_deposited - reward) as i128,
                                        ..self.clubs[club_id]
                                    },
                                )
                            },
                            Ok(reward),
                        )
                    }
                },
            }
        }
    }

    /// A preview of a redemption: the credit of the user, the reward they
    /// would get (zero while the period runs), and whether the period is
    /// over.
    pub open spec fn get_redemption_info(self, now: u64, club_id: u64, user: Seq<char>) -> Result<
        (i128, i128, bool),
        ClubError,
    > {
        if !self.clubs.contains_key(club_id) {
            Err(ClubError::NotFound)
        } else if now < self.clubs[club_id].month_end_timestamp {
            Ok((self.km_balance(user, club_id), 0i128, false))
        } else {
            match self.calculate_usdc_reward(now, club_id, user) {
                Err(e) => Err(e),
                Ok(reward) => Ok((self.km_balance(user, club_id), reward, true)),
            }
        }
    }

    /// Whether `ids` lists, in increasing order and once each, exactly the
    /// ids of the clubs that are active.
    pub open spec fn is_active_club_list(self, ids: Seq<u64>) -> bool {
        &&& forall|i: int, j: int| 0 <= i < j < ids.len() ==> ids[i] < ids[j]
        &&& forall|id: u64|
            ids.contains(id) <==> self.clubs.contains_key(id) && self.clubs[id].is_active
    }

    /// Whether `ids` lists, in increasing order and once each, exactly the
    /// ids of the clubs that `user` is a member of.
    pub open spec fn is_user_club_list(self, user: Seq<char>, ids: Seq<u64>) -> bool {
        &&& forall|i: int, j: int| 0 <= i < j < ids.len() ==> ids[i] < ids[j]
        &&& forall|id: u64|
            ids.contains(id) <==> self.clubs.contains_key(id) && self.clubs[id].members.contains(user)
    }
}

} // verus!
