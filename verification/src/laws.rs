//! What holds of the state machine as a whole.
//!
//! The operations of `RunClubContract` are verified to take the steps that
//! `LedgerView` defines, so whatever is proved here of those steps holds
//! of every ledger, whatever was done to it.

use crate::arith::{floor_div, lemma_floor_div_bounds};
use crate::members::{lemma_push_fresh, lemma_without};
use crate::model::{balance_in, count_eligible, sum_km, LedgerView, SECONDS_PER_DAY};
use crate::types::{ClubError, ClubView, WithdrawalRule};
use vstd::prelude::*;

verus! {

/// One call that may change the ledger, with its arguments. The calls
/// that only read are left out: they lead to the state they started in.
pub enum Operation {
    /// `LedgerView::create_club`
    CreateClub {
        now: u64,
        organizer: Seq<char>,
        name: Seq<char>,
        usdc_per_km: i128,
        withdrawal_rule: WithdrawalRule,
        duration_days: u32,
    },
    /// `LedgerView::activate`
    Activate { club_id: u64, organizer: Seq<char> },
    /// `LedgerView::deposit_usdc`
    DepositUsdc { club_id: u64, organizer: Seq<char>, amount: i128 },
    /// `LedgerView::remove_club`
    RemoveClub { club_id: u64, organizer: Seq<char> },
    /// `LedgerView::add_member`
    AddMember { club_id: u64, member: Seq<char> },
    /// `LedgerView::remove_member`
    RemoveMember { club_id: u64, organizer: Seq<char>, member: Seq<char> },
    /// `LedgerView::add_km_tokens`
    AddKmTokens { club_id: u64, user: Seq<char>, amount: i128 },
    /// `LedgerView::redeem_usdc`
    RedeemUsdc { now: u64, club_id: u64, user: Seq<char> },
}

/// The state after `op`, which is the state before it where `op` is
/// refused.
pub open spec fn step(s: LedgerView, op: Operation) -> LedgerView {
    match op {
        Operation::CreateClub { now, organizer, name, usdc_per_km, withdrawal_rule, duration_days } => s.create_club(
            now,
            organizer,
            name,
            usdc_per_km,
            withdrawal_rule,
            duration_days,
        ).0,
        Operation::Activate { club_id, organizer } => s.activate(club_id, organizer).0,
        Operation::DepositUsdc { club_id, organizer, amount } => s.deposit_usdc(club_id, organizer, amount).0,
        Operation::RemoveClub { club_id, organizer } => s.remove_club(club_id, organizer).0,
        Operation::AddMember { club_id, member } => s.add_member(club_id, member).0,
        Operation::RemoveMember { club_id, organizer, member } => s.remove_member(club_id, organizer, member).0,
        Operation::AddKmTokens { club_id, user, amount } => s.add_km_tokens(club_id, user, amount).0,
        Operation::RedeemUsdc { now, club_id, user } => s.redeem_usdc(now, club_id, user).0,
    }
}

/// The state after a sequence of operations, the first one first.
pub open spec fn run(s: LedgerView, ops: Seq<Operation>) -> LedgerView
    decreases ops.len(),
{
    if ops.len() == 0 {
        s
    } else {
        step(run(s, ops.drop_last()), ops.last())
    }
}

/// What `op` pays into the pool of `club_id` when it is applied to `s`:
/// the amount of a deposit that is accepted, and nothing otherwise.
pub open spec fn deposited(s: LedgerView, op: Operation, club_id: u64) -> int {
    match op {
        Operation::DepositUsdc { club_id: target, organizer, amount } => {
            if target == club_id && s.deposit_usdc(target, organizer, amount).1 is Ok {
                amount as int
            } else {
                0
            }
        },
        _ => 0,
    }
}

/// What `op` pays out of the pool of `club_id` when it is applied to `s`:
/// the reward of a redemption that is accepted, and nothing otherwise.
pub open spec fn redeemed(s: LedgerView, op: Operation, club_id: u64) -> int {
    match op {
        Operation::RedeemUsdc { now, club_id: target, user } => {
            if target == club_id {
                match s.redeem_usdc(now, target, user).1 {
                    Ok(reward) => reward as int,
                    Err(_) => 0,
                }
            } else {
                0
            }
        },
        _ => 0,
    }
}

/// The sum of what the operations pay into the pool of `club_id`, each
/// applied to the state that the ones before it left.
pub open spec fn total_deposited(s: LedgerView, ops: Seq<Operation>, club_id: u64) -> int
    decreases ops.len(),
{
    if ops.len() == 0 {
        0
    } else {
        total_deposited(s, ops.drop_last(), club_id) + deposited(run(s, ops.drop_last()), ops.last(), club_id)
    }
}

/// The sum of what the operations pay out of the pool of `club_id`, each
/// applied to the state that the ones before it left.
pub open spec fn total_redeemed(s: LedgerView, ops: Seq<Operation>, club_id: u64) -> int
    decreases ops.len(),
{
    if ops.len() == 0 {
        0
    } else {
        total_redeemed(s, ops.drop_last(), club_id) + redeemed(run(s, ops.drop_last()), ops.last(), club_id)
    }
}

/// Whether `op` asks to delete the club `club_id`.
pub open spec fn removes(op: Operation, club_id: u64) -> bool {
    op matches Operation::RemoveClub { club_id: target, .. } && target == club_id
}

/// A club is created only with a positive rate and a positive duration.
/// A creation with a rate that is not positive is refused as
/// `InvalidRate`, one with a positive rate and no duration as
/// `InvalidDuration`, and a refused creation leaves the state, the
/// counter included, as it was.
pub proof fn law_creation_is_validated(
    s: LedgerView,
    now: u64,
    organizer: Seq<char>,
    name: Seq<char>,
    usdc_per_km: i128,
    withdrawal_rule: WithdrawalRule,
    duration_days: u32,
)
    ensures
        ({
            let (next, result) = s.create_club(now, organizer, name, usdc_per_km, withdrawal_rule, duration_days);
            &&& usdc_per_km <= 0 ==> result == Err::<u64, ClubError>(ClubError::InvalidRate)
            &&& usdc_per_km > 0 && duration_days == 0 ==> result == Err::<u64, ClubError>(
                ClubError::InvalidDuration,
            )
            &&& result is Err ==> next == s && next.club_counter == s.club_counter
            &&& result is Ok ==> usdc_per_km > 0 && duration_days > 0
            &&& result matches Ok(id) ==> next.clubs[id].usdc_per_km > 0
        }),
{
}

/// A club that was just created is found under the id that was returned,
/// which is the old counter plus one, and it holds what it was created
/// with: it is inactive, its pool is empty, it has no members, and its
/// period ends `duration_days` days after `now`.
pub proof fn law_created_club_is_found(
    s: LedgerView,
    now: u64,
    organizer: Seq<char>,
    name: Seq<char>,
    usdc_per_km: i128,
    withdrawal_rule: WithdrawalRule,
    duration_days: u32,
)
    requires
        s.create_club(now, organizer, name, usdc_per_km, withdrawal_rule, duration_days).1 is Ok,
    ensures
        ({
            let (next, result) = s.create_club(now, organizer, name, usdc_per_km, withdrawal_rule, duration_days);
            let id = result->Ok_0;
            &&& id == s.club_counter + 1
            &&& next.club_counter == id
            &&& next.get_club(id) == Ok::<ClubView, ClubError>(
                ClubView {
                    id,
                    name,
                    organizer,
                    members: Seq::empty(),
                    usdc_deposited: 0,
                    usdc_per_km,
                    withdrawal_rule,
                    month_end_timestamp: (now + duration_days * SECONDS_PER_DAY) as u64,
                    is_active: false,
                },
            )
            &&& next.get_club(id)->Ok_0.members.len() == 0
        }),
{
}

/// Whoever is a member of a club cannot be added again: the attempt is
/// refused as `DuplicateMember` and changes nothing.
pub proof fn law_member_is_not_added_twice(s: LedgerView, club_id: u64, member: Seq<char>)
    requires
        s.clubs.contains_key(club_id),
        s.clubs[club_id].members.contains(member),
    ensures
        s.add_member(club_id, member) == (s, Err::<(), ClubError>(ClubError::DuplicateMember)),
{
}

/// After an address was added to a club, adding it a second time is
/// refused as `DuplicateMember` and leaves the members as they were.
pub proof fn law_second_add_member_fails(s: LedgerView, club_id: u64, member: Seq<char>)
    requires
        s.add_member(club_id, member).1 is Ok,
    ensures
        ({
            let next = s.add_member(club_id, member).0;
            &&& next.clubs[club_id].members == s.clubs[club_id].members.push(member)
            &&& next.add_member(club_id, member) == (next, Err::<(), ClubError>(ClubError::DuplicateMember))
        }),
{
    let next = s.add_member(club_id, member).0;
    let members = s.clubs[club_id].members.push(member);
    assert(members[members.len() - 1] == member);
}

/// No operation leads out of the valid states: after every step the pool
/// of every club is still not negative, its rate positive, no address is
/// a member of it twice, and its id lies between 1 and the counter.
pub proof fn law_step_keeps_invariant(s: LedgerView, op: Operation)
    requires
        s.inv(),
    ensures
        step(s, op).inv(),
        step(s, op).club_counter >= s.club_counter,
{
    let next = step(s, op);
    match op {
        Operation::CreateClub { now, organizer, name, usdc_per_km, withdrawal_rule, duration_days } => {
            if s.create_club(now, organizer, name, usdc_per_km, withdrawal_rule, duration_days).1 is Ok {
                assert(Seq::<Seq<char>>::empty().no_duplicates());
            }
        },
        Operation::Activate { club_id, organizer } => {},
        Operation::DepositUsdc { club_id, organizer, amount } => {},
        Operation::RemoveClub { club_id, organizer } => {},
        Operation::AddMember { club_id, member } => {
            if s.add_member(club_id, member).1 is Ok {
                lemma_push_fresh(s.clubs[club_id].members, member);
            }
        },
        Operation::RemoveMember { club_id, organizer, member } => {
            if s.remove_member(club_id, organizer, member).1 is Ok {
                lemma_without(s.clubs[club_id].members, member);
            }
        },
        Operation::AddKmTokens { club_id, user, amount } => {},
        Operation::RedeemUsdc { now, club_id, user } => {},
    }
    assert forall|id: u64| #[trigger] next.clubs.contains_key(id) implies {
        &&& next.clubs[id].id == id
        &&& 1 <= id <= next.club_counter
        &&& next.clubs[id].valid()
    } by {
        if s.clubs.contains_key(id) {
            assert(s.clubs[id].valid());
        }
    }
}

/// Every state that a sequence of operations leads to from a valid state
/// is valid. The empty ledger is valid, so this holds of every ledger.
pub proof fn law_run_keeps_invariant(s: LedgerView, ops: Seq<Operation>)
    requires
        s.inv(),
    ensures
        run(s, ops).inv(),
        run(s, ops).club_counter >= s.club_counter,
    decreases ops.len(),
{
    if ops.len() > 0 {
        law_run_keeps_invariant(s, ops.drop_last());
        law_step_keeps_invariant(run(s, ops.drop_last()), ops.last());
    }
}

/// The empty ledger is a valid state.
pub proof fn law_empty_ledger_is_valid()
    ensures
        LedgerView::empty().inv(),
{
}

/// One step changes the pool of a club by what it deposits less what it
/// redeems, and the club stays unless the step deletes it.
pub proof fn law_step_conserves_pool(s: LedgerView, op: Operation, club_id: u64)
    requires
        s.inv(),
        s.clubs.contains_key(club_id),
        !removes(op, club_id),
    ensures
        step(s, op).clubs.contains_key(club_id),
        step(s, op).clubs[club_id].usdc_deposited == s.clubs[club_id].usdc_deposited + deposited(s, op, club_id)
            - redeemed(s, op, club_id),
{
}

/// Conservation of the pool. Over any sequence of operations that does
/// not delete the club, the pool ends at what it started with, plus the
/// sum of the deposits, minus the sum of the rewards that were redeemed;
/// and after each of the operations it is not negative.
pub proof fn law_pool_is_conserved(s: LedgerView, ops: Seq<Operation>, club_id: u64)
    requires
        s.inv(),
        s.clubs.contains_key(club_id),
        forall|i: int| 0 <= i < ops.len() ==> !removes(#[trigger] ops[i], club_id),
    ensures
        run(s, ops).clubs.contains_key(club_id),
        run(s, ops).clubs[club_id].usdc_deposited == s.clubs[club_id].usdc_deposited + total_deposited(
            s,
            ops,
            club_id,
        ) - total_redeemed(s, ops, club_id),
        forall|n: int|
            0 <= n <= ops.len() ==> (#[trigger] run(s, ops.take(n))).clubs.contains_key(club_id) && run(
                s,
                ops.take(n),
            ).clubs[club_id].usdc_deposited >= 0,
    decreases ops.len(),
{
    if ops.len() > 0 {
        let front = ops.drop_last();
        assert forall|i: int| 0 <= i < front.len() implies !removes(#[trigger] front[i], club_id) by {
            assert(front[i] == ops[i]);
        }
        law_pool_is_conserved(s, front, club_id);
        law_run_keeps_invariant(s, front);
        law_step_conserves_pool(run(s, front), ops.last(), club_id);
    }
    law_run_keeps_invariant(s, ops);
    assert forall|n: int| 0 <= n <= ops.len() implies (#[trigger] run(s, ops.take(n))).clubs.contains_key(
        club_id,
    ) && run(s, ops.take(n)).clubs[club_id].usdc_deposited >= 0 by {
        if n == ops.len() {
            assert(ops.take(n) =~= ops);
        } else {
            let front = ops.drop_last();
            assert(ops.take(n) =~= front.take(n));
        }
    }
}

/// A redemption that is accepted leaves the user without credit in the
/// club, and whenever the same user redeems again, at that time or later,
/// the attempt is refused as `NoTokensToRedeem` and changes nothing.
pub proof fn law_redemption_zeroes_balance(s: LedgerView, now: u64, club_id: u64, user: Seq<char>, later: u64)
    requires
        s.redeem_usdc(now, club_id, user).1 is Ok,
        later >= now,
    ensures
        ({
            let next = s.redeem_usdc(now, club_id, user).0;
            &&& next.km_balance(user, club_id) == 0
            &&& next.redeem_usdc(later, club_id, user) == (next, Err::<i128, ClubError>(ClubError::NoTokensToRedeem))
        }),
{
}

/// Redemption opens at the end of the period, the end itself included.
/// Before the end, a redemption from an active club is refused as
/// `PeriodNotEnded` and changes nothing. From the end on it is never
/// refused for that reason, and its outcome does not depend on how much
/// later than the end it is asked for.
pub proof fn law_redemption_opens_at_period_end(s: LedgerView, now: u64, club_id: u64, user: Seq<char>)
    requires
        s.clubs.contains_key(club_id),
        s.clubs[club_id].is_active,
    ensures
        now < s.clubs[club_id].month_end_timestamp ==> s.redeem_usdc(now, club_id, user) == (
            s,
            Err::<i128, ClubError>(ClubError::PeriodNotEnded),
        ),
        now >= s.clubs[club_id].month_end_timestamp ==> {
            &&& s.redeem_usdc(now, club_id, user).1 != Err::<i128, ClubError>(ClubError::PeriodNotEnded)
            &&& s.redeem_usdc(now, club_id, user) == s.redeem_usdc(
                s.clubs[club_id].month_end_timestamp,
                club_id,
                user,
            )
        },
        s.is_club_period_ended(s.clubs[club_id].month_end_timestamp, club_id) == Ok::<bool, ClubError>(true),
{
}

/// When a redemption is accepted: from the end of the period on, a
/// member of an active club who holds credit is paid their reward,
/// provided the reward can be computed and the pool covers it.
pub proof fn law_redemption_is_accepted(s: LedgerView, now: u64, club_id: u64, user: Seq<char>, reward: i128)
    requires
        s.clubs.contains_key(club_id),
        s.clubs[club_id].is_active,
        now >= s.clubs[club_id].month_end_timestamp,
        s.clubs[club_id].members.contains(user),
        s.km_balance(user, club_id) != 0,
        s.calculate_usdc_reward(now, club_id, user) == Ok::<i128, ClubError>(reward),
        0 <= reward <= s.clubs[club_id].usdc_deposited,
    ensures
        s.redeem_usdc(now, club_id, user).1 == Ok::<i128, ClubError>(reward),
        s.redeem_usdc(now, club_id, user).0.clubs[club_id].usdc_deposited == s.clubs[club_id].usdc_deposited
            - reward,
        s.redeem_usdc(now, club_id, user).0.km_balance(user, club_id) == 0,
{
}

/// A club whose pool holds funds is never deleted, whoever asks: the
/// request is refused and changes nothing. The organizer is told
/// `FundsRemaining`; anyone else is told `NotAuthorized`, because who
/// asks is checked before the pool is looked at.
pub proof fn law_funded_club_is_not_removed(s: LedgerView, club_id: u64, caller: Seq<char>)
    requires
        s.clubs.contains_key(club_id),
        s.clubs[club_id].usdc_deposited > 0,
    ensures
        s.remove_club(club_id, caller).1 is Err,
        s.remove_club(club_id, caller).0 == s,
        caller == s.clubs[club_id].organizer ==> s.remove_club(club_id, caller).1 == Err::<(), ClubError>(
            ClubError::FundsRemaining,
        ),
        caller != s.clubs[club_id].organizer ==> s.remove_club(club_id, caller).1 == Err::<(), ClubError>(
            ClubError::NotAuthorized,
        ),
{
}

/// What a club was created with stays: no operation changes the id, the
/// name, the organizer, the rate, the rule or the end of the period of a
/// club, and no operation makes an active club inactive.
pub proof fn law_step_keeps_club_identity(s: LedgerView, op: Operation, club_id: u64)
    requires
        s.inv(),
        s.clubs.contains_key(club_id),
        step(s, op).clubs.contains_key(club_id),
    ensures
        step(s, op).clubs[club_id].id == s.clubs[club_id].id,
        step(s, op).clubs[club_id].name == s.clubs[club_id].name,
        step(s, op).clubs[club_id].organizer == s.clubs[club_id].organizer,
        step(s, op).clubs[club_id].usdc_per_km == s.clubs[club_id].usdc_per_km,
        step(s, op).clubs[club_id].withdrawal_rule == s.clubs[club_id].withdrawal_rule,
        step(s, op).clubs[club_id].month_end_timestamp == s.clubs[club_id].month_end_timestamp,
        s.clubs[club_id].is_active ==> step(s, op).clubs[club_id].is_active,
{
}

/// A member holds no more than all members together, where no member
/// holds less than nothing.
proof fn lemma_member_is_part_of_total(
    km_tokens: Map<(Seq<char>, u64), i128>,
    members: Seq<Seq<char>>,
    club_id: u64,
    user: Seq<char>,
)
    requires
        forall|i: int| 0 <= i < members.len() ==> balance_in(km_tokens, #[trigger] members[i], club_id) >= 0,
    ensures
        sum_km(km_tokens, members, club_id) >= 0,
        members.contains(user) ==> sum_km(km_tokens, members, club_id) >= balance_in(km_tokens, user, club_id),
        members.contains(user) && balance_in(km_tokens, user, club_id) > 0 ==> count_eligible(
            km_tokens,
            members,
            club_id,
        ) >= 1,
    decreases members.len(),
{
    if members.len() > 0 {
        let front = members.drop_last();
        assert forall|i: int| 0 <= i < front.len() implies balance_in(km_tokens, #[trigger] front[i], club_id)
            >= 0 by {
            assert(front[i] == members[i]);
        }
        lemma_member_is_part_of_total(km_tokens, front, club_id, user);
        assert(members.last() == members[members.len() - 1]);
        if members.contains(user) {
            let i = choose|i: int| 0 <= i < members.len() && members[i] == user;
            if i < front.len() {
                assert(front[i] == user);
            }
        }
    }
}

/// Where no member holds less than nothing, the pool covers every reward:
/// what a member would be paid lies between nothing and the whole pool,
/// so no redemption is refused as `InsufficientPoolFunds`.
pub proof fn law_pool_covers_reward(s: LedgerView, now: u64, club_id: u64, user: Seq<char>)
    requires
        s.inv(),
        s.clubs.contains_key(club_id),
        s.clubs[club_id].members.contains(user),
        forall|i: int|
            0 <= i < s.clubs[club_id].members.len() ==> s.km_balance(
                #[trigger] s.clubs[club_id].members[i],
                club_id,
            ) >= 0,
    ensures
        s.calculate_usdc_reward(now, club_id, user) matches Ok(reward) ==> 0 <= reward
            <= s.clubs[club_id].usdc_deposited,
        s.redeem_usdc(now, club_id, user).1 != Err::<i128, ClubError>(ClubError::InsufficientPoolFunds),
{
    let club = s.clubs[club_id];
    let pool = club.usdc_deposited as int;
    let km = s.km_balance(user, club_id) as int;
    let total = s.total_km(club_id);
    let eligible = s.eligible_count(club_id) as int;
    assert(club.valid());
    lemma_member_is_part_of_total(s.km_tokens, club.members, club_id, user);
    assert(km >= 0) by {
        let i = choose|i: int| 0 <= i < club.members.len() && club.members[i] == user;
        assert(s.km_balance(club.members[i], club_id) >= 0);
    }
    if now >= club.month_end_timestamp && km > 0 {
        assert(total >= km && eligible >= 1);
        lemma_floor_div_bounds(pool, eligible);
        let share = floor_div(pool, eligible);
        assert(0 <= share <= pool) by (nonlinear_arith)
            requires
                share * eligible <= pool,
                pool < (share + 1) * eligible,
                eligible >= 1,
                pool >= 0,
        ;
        lemma_floor_div_bounds(pool * km, total);
        let part = floor_div(pool * km, total);
        assert(0 <= part <= pool) by (nonlinear_arith)
            requires
                part * total <= pool * km,
                pool * km < (part + 1) * total,
                total >= km,
                km > 0,
                pool >= 0,
        ;
    }
}

/// What `op` does to the credit of `user` in `club_id` when it is applied
/// to `s`: an accrual that is accepted adds its amount, a redemption that
/// is accepted takes the credit to zero, and nothing else touches it.
pub open spec fn credit_after(s: LedgerView, op: Operation, user: Seq<char>, club_id: u64) -> int {
    match op {
        Operation::AddKmTokens { club_id: target, user: who, amount } => {
            if target == club_id && who == user && s.add_km_tokens(target, who, amount).1 is Ok {
                s.km_balance(user, club_id) + amount
            } else {
                s.km_balance(user, club_id) as int
            }
        },
        Operation::RedeemUsdc { now, club_id: target, user: who } => {
            if target == club_id && who == user && s.redeem_usdc(now, target, who).1 is Ok {
                0
            } else {
                s.km_balance(user, club_id) as int
            }
        },
        _ => s.km_balance(user, club_id) as int,
    }
}

/// Credit changes by accrual and by redemption alone. In particular a
/// user who has redeemed stays without credit until credit is accrued
/// again, and the credit of a member outlives the membership and the
/// club.
pub proof fn law_credit_changes_by_accrual_and_redemption(
    s: LedgerView,
    op: Operation,
    user: Seq<char>,
    club_id: u64,
)
    ensures
        step(s, op).km_balance(user, club_id) == credit_after(s, op, user, club_id),
{
}

/// Whether no credit that is recorded in `s` is negative.
pub open spec fn credit_is_not_negative(s: LedgerView) -> bool {
    forall|user: Seq<char>, club_id: u64| s.km_balance(user, club_id) >= 0
}

/// Whether `op` accrues a negative amount.
pub open spec fn accrues_negative(op: Operation) -> bool {
    op matches Operation::AddKmTokens { amount, .. } && amount < 0
}

/// Credit never turns negative as long as no negative amount is accrued.
pub proof fn law_credit_stays_not_negative(s: LedgerView, ops: Seq<Operation>)
    requires
        credit_is_not_negative(s),
        forall|i: int| 0 <= i < ops.len() ==> !accrues_negative(#[trigger] ops[i]),
    ensures
        credit_is_not_negative(run(s, ops)),
    decreases ops.len(),
{
    if ops.len() > 0 {
        let front = ops.drop_last();
        assert forall|i: int| 0 <= i < front.len() implies !accrues_negative(#[trigger] front[i]) by {
            assert(front[i] == ops[i]);
        }
        law_credit_stays_not_negative(s, front);
        let before = run(s, front);
        assert(!accrues_negative(ops[ops.len() - 1]));
        assert forall|user: Seq<char>, club_id: u64| run(s, ops).km_balance(user, club_id) >= 0 by {
            law_credit_changes_by_accrual_and_redemption(before, ops.last(), user, club_id);
            assert(before.km_balance(user, club_id) >= 0);
        }
    }
}

/// Whether two states cannot be told apart by a call on the club
/// `club_id` on behalf of `user`: they hold the same counter, the same
/// club under `club_id` or both none, and the same credit in that club
/// for its members and for `user`.
pub open spec fn same_around(a: LedgerView, b: LedgerView, club_id: u64, user: Seq<char>) -> bool {
    &&& a.club_counter == b.club_counter
    &&& a.clubs.contains_key(club_id) == b.clubs.contains_key(club_id)
    &&& a.clubs.contains_key(club_id) ==> a.clubs[club_id] == b.clubs[club_id]
    &&& a.km_balance(user, club_id) == b.km_balance(user, club_id)
    &&& a.clubs.contains_key(club_id) ==> forall|i: int|
        0 <= i < a.clubs[club_id].members.len() ==> a.km_balance(
            #[trigger] a.clubs[club_id].members[i],
            club_id,
        ) == b.km_balance(a.clubs[club_id].members[i], club_id)
}

/// Sums and counts over members see the credit of those members alone.
proof fn lemma_sums_read_members_only(
    a: Map<(Seq<char>, u64), i128>,
    b: Map<(Seq<char>, u64), i128>,
    members: Seq<Seq<char>>,
    club_id: u64,
)
    requires
        forall|i: int|
            0 <= i < members.len() ==> balance_in(a, #[trigger] members[i], club_id) == balance_in(
                b,
                members[i],
                club_id,
            ),
    ensures
        sum_km(a, members, club_id) == sum_km(b, members, club_id),
        count_eligible(a, members, club_id) == count_eligible(b, members, club_id),
    decreases members.len(),
{
    if members.len() > 0 {
        let front = members.drop_last();
        assert forall|i: int| 0 <= i < front.len() implies balance_in(a, #[trigger] front[i], club_id)
            == balance_in(b, front[i], club_id) by {
            assert(front[i] == members[i]);
        }
        lemma_sums_read_members_only(a, b, front, club_id);
        assert(members.last() == members[members.len() - 1]);
    }
}

/// A question about a club is answered from the club and the credit of
/// its members and of the user alone: two states that agree on those
/// give the same total, the same reward and the same preview.
pub proof fn law_questions_are_local(a: LedgerView, b: LedgerView, now: u64, club_id: u64, user: Seq<char>)
    requires
        same_around(a, b, club_id, user),
    ensures
        a.get_club(club_id) == b.get_club(club_id),
        a.get_total_km_tokens(club_id) == b.get_total_km_tokens(club_id),
        a.is_club_period_ended(now, club_id) == b.is_club_period_ended(now, club_id),
        a.calculate_usdc_reward(now, club_id, user) == b.calculate_usdc_reward(now, club_id, user),
        a.get_redemption_info(now, club_id, user) == b.get_redemption_info(now, club_id, user),
{
    if a.clubs.contains_key(club_id) {
        lemma_sums_read_members_only(a.km_tokens, b.km_tokens, a.clubs[club_id].members, club_id);
    }
}

/// A redemption is decided from the club and the credit of its members
/// alone, and it changes nothing but that club and the credit of the
/// user in it: from two states that agree on those it is answered alike
/// and leads to states that agree on them again. So it is enough to have
/// that part of the state at hand to redeem.
pub proof fn law_redemption_is_local(a: LedgerView, b: LedgerView, now: u64, club_id: u64, user: Seq<char>)
    requires
        same_around(a, b, club_id, user),
    ensures
        a.redeem_usdc(now, club_id, user).1 == b.redeem_usdc(now, club_id, user).1,
        ({
            let next_a = a.redeem_usdc(now, club_id, user).0;
            let next_b = b.redeem_usdc(now, club_id, user).0;
            &&& next_a.club_counter == next_b.club_counter
            &&& next_a.get_club(club_id) == next_b.get_club(club_id)
            &&& next_a.km_balance(user, club_id) == next_b.km_balance(user, club_id)
            &&& forall|other_club: u64|
                other_club != club_id ==> next_a.get_club(other_club) == a.get_club(other_club)
            &&& forall|other_user: Seq<char>, any_club: u64|
                other_user != user || any_club != club_id ==> next_a.km_balance(other_user, any_club)
                    == a.km_balance(other_user, any_club)
        }),
{
    law_questions_are_local(a, b, now, club_id, user);
}

} // verus!
