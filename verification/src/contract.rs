//! The ledger of the run clubs, with every operation verified against the
//! state machine of `model`.

use crate::keyed::{entry_of, keys_distinct, lemma_entry, lemma_entry_changed, lemma_entry_pushed, lemma_no_entry};
use crate::members::{all_distinct, exclude, is_member, lemma_push_fresh, lemma_without, without};
use crate::model::{LedgerView, SECONDS_PER_DAY};
use crate::reward::compute_reward;
use crate::store::{
    balance_of, clubs_view, eligible_of, entries_distinct, find_club, find_entry, ids_ascending, km_view,
    lemma_club_changed, lemma_club_pushed, lemma_club_removed, lemma_slot, total_of,
};
use crate::types::{clone_addresses, keys_of, Address, Club, ClubError, ClubView, KmBalance, WithdrawalRule};
use vstd::prelude::*;

verus! {

/// What a list of clubs has to satisfy under a given counter: sorted ids
/// between 1 and the counter, and every club valid.
pub open spec fn clubs_valid(club_counter: u64, clubs: Seq<Club>) -> bool {
    &&& ids_ascending(clubs)
    &&& forall|i: int| 0 <= i < clubs.len() ==> 1 <= #[trigger] clubs[i].id <= club_counter
    &&& forall|i: int| 0 <= i < clubs.len() ==> (#[trigger] clubs[i])@.valid()
}

/// The state that a counter, a list of clubs and a list of credit
/// entries stand for.
pub open spec fn ledger_of(club_counter: u64, clubs: Seq<Club>, km_tokens: Seq<KmBalance>) -> LedgerView {
    LedgerView { club_counter, clubs: clubs_view(clubs), km_tokens: km_view(km_tokens) }
}

/// Whether one of the first `upto` clubs has this id and is active.
spec fn active_before(clubs: Seq<Club>, upto: int, id: u64) -> bool {
    exists|j: int| 0 <= j < upto && clubs[j].id == id && clubs[j].is_active
}

/// Whether one of the first `upto` clubs has this id and `user` among its
/// members.
spec fn member_before(clubs: Seq<Club>, upto: int, user: Seq<char>, id: u64) -> bool {
    exists|j: int| 0 <= j < upto && clubs[j].id == id && clubs[j]@.members.contains(user)
}

/// The whole state of the run clubs: the id counter, the clubs, and the
/// distance credit of their members.
pub struct RunClubContract {
    club_counter: u64,
    clubs: Vec<Club>,
    km_tokens: Vec<KmBalance>,
}

impl View for RunClubContract {
    type V = LedgerView;

    closed spec fn view(&self) -> LedgerView {
        ledger_of(self.club_counter, self.clubs@, self.km_tokens@)
    }
}

impl RunClubContract {
    /// The representation is sound: it stands for exactly one state, and
    /// that state satisfies `LedgerView::inv`.
    pub closed spec fn wf(&self) -> bool {
        &&& clubs_valid(self.club_counter, self.clubs@)
        &&& keys_distinct(self.km_tokens@)
    }

    /// A well-formed ledger stands for a state that satisfies the
    /// invariant of the state machine.
    pub proof fn lemma_wf_inv(&self)
        requires
            self.wf(),
        ensures
            self@.inv(),
    {
        assert forall|id: u64| #[trigger] self@.clubs.contains_key(id) implies {
            &&& self@.clubs[id].id == id
            &&& 1 <= id <= self@.club_counter
            &&& self@.clubs[id].valid()
        } by {
            let k = entry_of(self.clubs@, id);
            assert(0 <= k < self.clubs@.len() && self.clubs@[k].id == id);
        }
    }

    /// The ledger before anything happened: no club, no credit, and the
    /// counter at zero.
    pub fn initialize() -> (ledger: RunClubContract)
        ensures
            ledger.wf(),
            ledger@ == LedgerView::empty(),
    {
        let ledger = RunClubContract { club_counter: 0, clubs: Vec::new(), km_tokens: Vec::new() };
        assert(ledger@.clubs =~= Map::empty());
        assert(ledger@.km_tokens =~= Map::empty());
        ledger
    }

    /// The ledger that holds the given counter, clubs and credit, for
    /// taking up a state that was stored away. `None` says that the parts
    /// are no state of a ledger: the clubs are not sorted by id, an id is
    /// zero or above the counter, a club is not valid, or a user has two
    /// entries for one club.
    pub fn from_parts(club_counter: u64, clubs: Vec<Club>, km_tokens: Vec<KmBalance>) -> (result: Option<
        RunClubContract,
    >)
        ensures
            match result {
                Some(ledger) => {
                    &&& clubs_valid(club_counter, clubs@)
                    &&& keys_distinct(km_tokens@)
                    &&& ledger.wf()
                    &&& ledger@ == ledger_of(club_counter, clubs@, km_tokens@)
                },
                None => !(clubs_valid(club_counter, clubs@) && keys_distinct(km_tokens@)),
            },
    {
        let mut i: usize = 0;
        while i < clubs.len()
            invariant
                i <= clubs.len(),
                forall|a: int, b: int| 0 <= a < b < i ==> clubs@[a].id < clubs@[b].id,
                forall|a: int| 0 <= a < i ==> 1 <= #[trigger] clubs@[a].id <= club_counter,
                forall|a: int| 0 <= a < i ==> (#[trigger] clubs@[a])@.valid(),
            decreases clubs.len() - i,
        {
            let club = &clubs[i];
            if club.id < 1 || club.id > club_counter {
                assert(!(1 <= clubs@[i as int].id <= club_counter));
                return None;
            }
            if club.usdc_deposited < 0 || club.usdc_per_km <= 0 || !all_distinct(&club.members) {
                assert(!clubs@[i as int]@.valid());
                return None;
            }
            if i > 0 && clubs[i - 1].id >= club.id {
                assert(!(clubs@[i - 1].id < clubs@[i as int].id));
                return None;
            }
            assert forall|a: int| 0 <= a < i implies clubs@[a].id < clubs@[i as int].id by {
                if a < i - 1 {
                    assert(clubs@[a].id < clubs@[i - 1].id);
                }
            }
            i += 1;
        }
        if !entries_distinct(&km_tokens) {
            return None;
        }
        Some(RunClubContract { club_counter, clubs, km_tokens })
    }

    /// The id that was assigned last.
    pub fn club_counter(&self) -> (counter: u64)
        ensures
            counter == self@.club_counter,
    {
        self.club_counter
    }

    /// Creates a club for `organizer` whose period ends `duration_days`
    /// days after `now`, and returns its id, which is the counter plus
    /// one. The club starts inactive, with an empty pool and no members.
    pub fn create_club(
        &mut self,
        now: u64,
        organizer: &Address,
        name: &str,
        usdc_per_km: i128,
        withdrawal_rule: WithdrawalRule,
        duration_days: u32,
    ) -> (result: Result<u64, ClubError>)
        requires
            old(self).wf(),
        ensures
            final(self).wf(),
            (final(self)@, result) == old(self)@.create_club(
                now,
                organizer@,
                name@,
                usdc_per_km,
                withdrawal_rule,
                duration_days,
            ),
    {
        if usdc_per_km <= 0 {
            return Err(ClubError::InvalidRate);
        }
        if duration_days == 0 {
            return Err(ClubError::InvalidDuration);
        }
        let span: u64 = duration_days as u64 * SECONDS_PER_DAY;
        if self.club_counter == u64::MAX || now > u64::MAX - span {
            return Err(ClubError::Overflow);
        }
        let id: u64 = self.club_counter + 1;
        let club = Club {
            id,
            name: name.to_owned(),
            organizer: organizer.clone(),
            members: Vec::new(),
            usdc_deposited: 0,
            usdc_per_km,
            withdrawal_rule,
            month_end_timestamp: now + span,
            is_active: false,
        };
        proof {
            assert(keys_of(club.members@) =~= Seq::empty());
            lemma_club_pushed(self.clubs@, club);
        }
        self.clubs.push(club);
        self.club_counter = id;
        Ok(id)
    }

    /// A copy of the club with the given id.
    pub fn get_club(&self, club_id: u64) -> (result: Result<Club, ClubError>)
        requires
            self.wf(),
        ensures
            match result {
                Ok(club) => self@.get_club(club_id) == Ok::<ClubView, ClubError>(club@),
                Err(e) => self@.get_club(club_id) == Err::<ClubView, ClubError>(e),
            },
    {
        match find_club(&self.clubs, club_id) {
            Some(k) => {
                proof {
                    lemma_slot(self.clubs@, k as int);
                }
                Ok(self.clubs[k].clone())
            },
            None => {
                proof {
                    lemma_no_entry(self.clubs@, club_id);
                }
                Err(ClubError::NotFound)
            },
        }
    }

    /// The members of the club with the given id, in the order in which
    /// they joined.
    pub fn get_members(&self, club_id: u64) -> (result: Result<Vec<Address>, ClubError>)
        requires
            self.wf(),
        ensures
            match result {
                Ok(members) => self@.get_members(club_id) == Ok::<Seq<Seq<char>>, ClubError>(
                    keys_of(members@),
                ),
                Err(e) => self@.get_members(club_id) == Err::<Seq<Seq<char>>, ClubError>(e),
            },
    {
        match find_club(&self.clubs, club_id) {
            Some(k) => {
                proof {
                    lemma_slot(self.clubs@, k as int);
                }
                Ok(clone_addresses(&self.clubs[k].members))
            },
            None => {
                proof {
                    lemma_no_entry(self.clubs@, club_id);
                }
                Err(ClubError::NotFound)
            },
        }
    }

    /// Whether a club with the given id exists.
    pub fn club_exists(&self, club_id: u64) -> (exists: bool)
        requires
            self.wf(),
        ensures
            exists == self@.clubs.contains_key(club_id),
    {
        match find_club(&self.clubs, club_id) {
            Some(k) => {
                proof {
                    lemma_slot(self.clubs@, k as int);
                }
                true
            },
            None => {
                proof {
                    lemma_no_entry(self.clubs@, club_id);
                }
                false
            },
        }
    }

    /// Whether the club exists and is active.
    pub fn is_club_active(&self, club_id: u64) -> (active: bool)
        requires
            self.wf(),
        ensures
            active == (self@.clubs.contains_key(club_id) && self@.clubs[club_id].is_active),
    {
        match find_club(&self.clubs, club_id) {
            Some(k) => {
                proof {
                    lemma_slot(self.clubs@, k as int);
                }
                self.clubs[k].is_active
            },
            None => {
                proof {
                    lemma_no_entry(self.clubs@, club_id);
                }
                false
            },
        }
    }

    /// Whether the club exists and `now` is not after the end of its
    /// period. At the end itself the period is both still valid and
    /// already ended.
    pub fn is_club_period_valid(&self, now: u64, club_id: u64) -> (valid: bool)
        requires
            self.wf(),
        ensures
            valid == (self@.clubs.contains_key(club_id) && now <= self@.clubs[club_id].month_end_timestamp),
    {
        match find_club(&self.clubs, club_id) {
            Some(k) => {
                proof {
                    lemma_slot(self.clubs@, k as int);
                }
                now <= self.clubs[k].month_end_timestamp
            },
            None => {
                proof {
                    lemma_no_entry(self.clubs@, club_id);
                }
                false
            },
        }
    }

    /// Whether the club exists and `user` is its organizer.
    pub fn is_club_organizer(&self, club_id: u64, user: &Address) -> (organizer: bool)
        requires
            self.wf(),
        ensures
            organizer == (self@.clubs.contains_key(club_id) && self@.clubs[club_id].organizer == user@),
    {
        match find_club(&self.clubs, club_id) {
            Some(k) => {
                proof {
                    lemma_slot(self.clubs@, k as int);
                }
                self.clubs[k].organizer.same(user)
            },
            None => {
                proof {
                    lemma_no_entry(self.clubs@, club_id);
                }
                false
            },
        }
    }

    /// Whether the club exists and has at least one member.
    pub fn has_members(&self, club_id: u64) -> (any: bool)
        requires
            self.wf(),
        ensures
            any == (self@.clubs.contains_key(club_id) && self@.clubs[club_id].members.len() > 0),
    {
        match find_club(&self.clubs, club_id) {
            Some(k) => {
                proof {
                    lemma_slot(self.clubs@, k as int);
                }
                self.clubs[k].members.len() > 0
            },
            None => {
                proof {
                    lemma_no_entry(self.clubs@, club_id);
                }
                false
            },
        }
    }

    /// Activates a club. Only its organizer may do so, and only once.
    pub fn activate(&mut self, club_id: u64, organizer: &Address) -> (result: Result<(), ClubError>)
        requires
            old(self).wf(),
        ensures
            final(self).wf(),
            (final(self)@, result) == old(self)@.activate(club_id, organizer@),
    {
        match find_club(&self.clubs, club_id) {
            None => {
                proof {
                    lemma_no_entry(self.clubs@, club_id);
                }
                Err(ClubError::NotFound)
            },
            Some(k) => {
                proof {
                    lemma_slot(self.clubs@, k as int);
                }
                if !self.clubs[k].organizer.same(organizer) {
                    return Err(ClubError::NotAuthorized);
                }
                if self.clubs[k].is_active {
                    return Err(ClubError::AlreadyActive);
                }
                self.clubs[k].is_active = true;
                proof {
                    lemma_club_changed(old(self).clubs@, self.clubs@, k as int);
                    assert(self.clubs@[k as int]@ =~= ClubView { is_active: true, ..old(self).clubs@[k as int]@ });
                    assert(self@ =~= old(self)@.activate(club_id, organizer@).0);
                }
                Ok(())
            },
        }
    }

    /// Adds `amount` to the pool of a club on behalf of its organizer.
    /// A deposit activates the club, whether or not it was active.
    pub fn deposit_usdc(&mut self, club_id: u64, organizer: &Address, amount: i128) -> (result: Result<
        (),
        ClubError,
    >)
        requires
            old(self).wf(),
        ensures
            final(self).wf(),
            (final(self)@, result) == old(self)@.deposit_usdc(club_id, organizer@, amount),
    {
        if amount <= 0 {
            return Err(ClubError::InvalidAmount);
        }
        match find_club(&self.clubs, club_id) {
            None => {
                proof {
                    lemma_no_entry(self.clubs@, club_id);
                }
                Err(ClubError::NotFound)
            },
            Some(k) => {
                proof {
                    lemma_slot(self.clubs@, k as int);
                }
                if !self.clubs[k].organizer.same(organizer) {
                    return Err(ClubError::NotAuthorized);
                }
                let pool = self.clubs[k].usdc_deposited;
                if pool > i128::MAX - amount {
                    return Err(ClubError::Overflow);
                }
                self.clubs[k].usdc_deposited = pool + amount;
                self.clubs[k].is_active = true;
                proof {
                    lemma_club_changed(old(self).clubs@, self.clubs@, k as int);
                    assert(self.clubs@[k as int]@ =~= ClubView {
                        usdc_deposited: (pool + amount) as i128,
                        is_active: true,
                        ..old(self).clubs@[k as int]@
                    });
                    assert(self@ =~= old(self)@.deposit_usdc(club_id, organizer@, amount).0);
                }
                Ok(())
            },
        }
    }

    /// Deletes a club on behalf of its organizer. A club whose pool holds
    /// funds is not deleted. The credit of its members stays recorded.
    pub fn remove_club(&mut self, club_id: u64, organizer: &Address) -> (result: Result<(), ClubError>)
        requires
            old(self).wf(),
        ensures
            final(self).wf(),
            (final(self)@, result) == old(self)@.remove_club(club_id, organizer@),
    {
        match find_club(&self.clubs, club_id) {
            None => {
                proof {
                    lemma_no_entry(self.clubs@, club_id);
                }
                Err(ClubError::NotFound)
            },
            Some(k) => {
                proof {
                    lemma_slot(self.clubs@, k as int);
                }
                if !self.clubs[k].organizer.same(organizer) {
                    return Err(ClubError::NotAuthorized);
                }
                if self.clubs[k].usdc_deposited > 0 {
                    return Err(ClubError::FundsRemaining);
                }
                proof {
                    lemma_club_removed(self.clubs@, k as int);
                }
                self.clubs.remove(k);
                proof {
                    assert(self@ =~= old(self)@.remove_club(club_id, organizer@).0);
                }
                Ok(())
            },
        }
    }

    /// Enrols `member` in a club. Nobody is enrolled twice.
    pub fn add_member(&mut self, club_id: u64, member: &Address) -> (result: Result<(), ClubError>)
        requires
            old(self).wf(),
        ensures
            final(self).wf(),
            (final(self)@, result) == old(self)@.add_member(club_id, member@),
    {
        match find_club(&self.clubs, club_id) {
            None => {
                proof {
                    lemma_no_entry(self.clubs@, club_id);
                }
                Err(ClubError::NotFound)
            },
            Some(k) => {
                proof {
                    lemma_slot(self.clubs@, k as int);
                }
                if is_member(&self.clubs[k].members, member) {
                    return Err(ClubError::DuplicateMember);
                }
                self.clubs[k].members.push(member.clone());
                proof {
                    let before = old(self).clubs@[k as int]@;
                    lemma_push_fresh(before.members, member@);
                    assert(keys_of(self.clubs@[k as int].members@) =~= before.members.push(member@));
                    lemma_club_changed(old(self).clubs@, self.clubs@, k as int);
                    assert(self.clubs@[k as int]@ =~= ClubView { members: before.members.push(member@), ..before });
                    assert(self@ =~= old(self)@.add_member(club_id, member@).0);
                }
                Ok(())
            },
        }
    }

    /// Takes `member` out of a club on behalf of its organizer. The
    /// credit of the member stays recorded.
    pub fn remove_member(&mut self, club_id: u64, organizer: &Address, member: &Address) -> (result: Result<
        (),
        ClubError,
    >)
        requires
            old(self).wf(),
        ensures
            final(self).wf(),
            (final(self)@, result) == old(self)@.remove_member(club_id, organizer@, member@),
    {
        match find_club(&self.clubs, club_id) {
            None => {
                proof {
                    lemma_no_entry(self.clubs@, club_id);
                }
                Err(ClubError::NotFound)
            },
            Some(k) => {
                proof {
                    lemma_slot(self.clubs@, k as int);
                }
                if !self.clubs[k].organizer.same(organizer) {
                    return Err(ClubError::NotAuthorized);
                }
                let (kept, found) = exclude(&self.clubs[k].members, member);
                if !found {
                    return Err(ClubError::MemberNotFound);
                }
                self.clubs[k].members = kept;
                proof {
                    let before = old(self).clubs@[k as int]@;
                    lemma_without(before.members, member@);
                    lemma_club_changed(old(self).clubs@, self.clubs@, k as int);
                    assert(self.clubs@[k as int]@ =~= ClubView {
                        members: without(before.members, member@),
                        ..before
                    });
                    assert(self@ =~= old(self)@.remove_member(club_id, organizer@, member@).0);
                }
                Ok(())
            },
        }
    }

    /// Credits `amount` to `user` in a club. The club has to be active and
    /// the user a member of it. The amount may be of either sign.
    pub fn add_km_tokens(&mut self, club_id: u64, user: &Address, amount: i128) -> (result: Result<
        (),
        ClubError,
    >)
        requires
            old(self).wf(),
        ensures
            final(self).wf(),
            (final(self)@, result) == old(self)@.add_km_tokens(club_id, user@, amount),
    {
        match find_club(&self.clubs, club_id) {
            None => {
                proof {
                    lemma_no_entry(self.clubs@, club_id);
                }
                Err(ClubError::NotFound)
            },
            Some(k) => {
                proof {
                    lemma_slot(self.clubs@, k as int);
                }
                if !self.clubs[k].is_active {
                    return Err(ClubError::ClubInactive);
                }
                if !is_member(&self.clubs[k].members, user) {
                    return Err(ClubError::NotMember);
                }
                match find_entry(&self.km_tokens, user, club_id) {
                    Some(e) => {
                        proof {
                            lemma_entry(self.km_tokens@, e as int);
                        }
                        let held = self.km_tokens[e].amount;
                        match held.checked_add(amount) {
                            None => Err(ClubError::Overflow),
                            Some(sum) => {
                                self.km_tokens[e].amount = sum;
                                proof {
                                    lemma_entry_changed(old(self).km_tokens@, self.km_tokens@, e as int);
                                    assert(self@ =~= old(self)@.add_km_tokens(club_id, user@, amount).0);
                                }
                                Ok(())
                            },
                        }
                    },
                    None => {
                        let entry = KmBalance { user: user.clone(), club_id, amount };
                        proof {
                            lemma_entry_pushed(self.km_tokens@, entry);
                        }
                        self.km_tokens.push(entry);
                        proof {
                            assert(self@ =~= old(self)@.add_km_tokens(club_id, user@, amount).0);
                        }
                        Ok(())
                    },
                }
            },
        }
    }

    /// The credit of `user` in `club_id`; zero where none was recorded,
    /// whether or not the club exists.
    pub fn get_user_km_tokens(&self, user: &Address, club_id: u64) -> (amount: i128)
        requires
            self.wf(),
        ensures
            amount == self@.km_balance(user@, club_id),
    {
        balance_of(&self.km_tokens, user, club_id)
    }

    /// The sum of the credit of the current members of a club.
    pub fn get_total_km_tokens(&self, club_id: u64) -> (result: Result<i128, ClubError>)
        requires
            self.wf(),
        ensures
            result == self@.get_total_km_tokens(club_id),
    {
        match find_club(&self.clubs, club_id) {
            None => {
                proof {
                    lemma_no_entry(self.clubs@, club_id);
                }
                Err(ClubError::NotFound)
            },
            Some(k) => {
                proof {
                    lemma_slot(self.clubs@, k as int);
                }
                match total_of(&self.km_tokens, &self.clubs[k].members, club_id) {
                    Some(total) => Ok(total),
                    None => Err(ClubError::Overflow),
                }
            },
        }
    }

    /// Whether the period of a club is over at `now`: true from the end
    /// of the period on, the end itself included.
    pub fn is_club_period_ended(&self, now: u64, club_id: u64) -> (result: Result<bool, ClubError>)
        requires
            self.wf(),
        ensures
            result == self@.is_club_period_ended(now, club_id),
    {
        match find_club(&self.clubs, club_id) {
            None => {
                proof {
                    lemma_no_entry(self.clubs@, club_id);
                }
                Err(ClubError::NotFound)
            },
            Some(k) => {
                proof {
                    lemma_slot(self.clubs@, k as int);
                }
                Ok(now >= self.clubs[k].month_end_timestamp)
            },
        }
    }

    /// What `user` would be paid from a club at `now`. The figures are
    /// those of the moment of the call: the reward of one member changes
    /// when another redeems.
    pub fn calculate_usdc_reward(&self, now: u64, club_id: u64, user: &Address) -> (result: Result<
        i128,
        ClubError,
    >)
        requires
            self.wf(),
        ensures
            result == self@.calculate_usdc_reward(now, club_id, user@),
    {
        match find_club(&self.clubs, club_id) {
            None => {
                proof {
                    lemma_no_entry(self.clubs@, club_id);
                }
                Err(ClubError::NotFound)
            },
            Some(k) => {
                proof {
                    lemma_slot(self.clubs@, k as int);
                }
                if now < self.clubs[k].month_end_timestamp {
                    return Err(ClubError::PeriodNotEnded);
                }
                let user_km = balance_of(&self.km_tokens, user, club_id);
                let total = total_of(&self.km_tokens, &self.clubs[k].members, club_id);
                let eligible = eligible_of(&self.km_tokens, &self.clubs[k].members, club_id);
                compute_reward(
                    self.clubs[k].withdrawal_rule,
                    self.clubs[k].usdc_deposited,
                    user_km,
                    total,
                    eligible,
                )
            },
        }
    }

    /// Pays `user` their reward from a club: the credit of the user drops
    /// to zero, the pool shrinks by the reward, and the reward is
    /// returned. Sending it on is left to the caller.
    pub fn redeem_usdc(&mut self, now: u64, club_id: u64, user: &Address) -> (result: Result<i128, ClubError>)
        requires
            old(self).wf(),
        ensures
            final(self).wf(),
            (final(self)@, result) == old(self)@.redeem_usdc(now, club_id, user@),
    {
        match find_club(&self.clubs, club_id) {
            None => {
                proof {
                    lemma_no_entry(self.clubs@, club_id);
                }
                Err(ClubError::NotFound)
            },
            Some(k) => {
                proof {
                    lemma_slot(self.clubs@, k as int);
                }
                if !self.clubs[k].is_active {
                    return Err(ClubError::ClubInactive);
                }
                if now < self.clubs[k].month_end_timestamp {
                    return Err(ClubError::PeriodNotEnded);
                }
                if !is_member(&self.clubs[k].members, user) {
                    return Err(ClubError::NotMember);
                }
                match find_entry(&self.km_tokens, user, club_id) {
                    None => Err(ClubError::NoTokensToRedeem),
                    Some(e) => {
                        proof {
                            lemma_entry(self.km_tokens@, e as int);
                        }
                        if self.km_tokens[e].amount == 0 {
                            return Err(ClubError::NoTokensToRedeem);
                        }
                        match self.calculate_usdc_reward(now, club_id, user) {
                            Err(error) => Err(error),
                            Ok(reward) => {
                                let pool = self.clubs[k].usdc_deposited;
                                if reward > pool {
                                    return Err(ClubError::InsufficientPoolFunds);
                                }
                                if reward < 0 && pool > i128::MAX + reward {
                                    return Err(ClubError::Overflow);
                                }
                                self.km_tokens[e].amount = 0;
                                self.clubs[k].usdc_deposited = pool - reward;
                                proof {
                                    lemma_entry_changed(old(self).km_tokens@, self.km_tokens@, e as int);
                                    lemma_club_changed(old(self).clubs@, self.clubs@, k as int);
                                    assert(self.clubs@[k as int]@ =~= ClubView {
                                        usdc_deposited: (pool - reward) as i128,
                                        ..old(self).clubs@[k as int]@
                                    });
                                    assert(self@ =~= old(self)@.redeem_usdc(now, club_id, user@).0);
                                }
                                Ok(reward)
                            },
                        }
                    },
                }
            },
        }
    }

    /// A preview of a redemption: the credit of the user, the reward they
    /// would be paid at `now` (zero while the period runs), and whether
    /// the period is over.
    pub fn get_redemption_info(&self, now: u64, club_id: u64, user: &Address) -> (result: Result<
        (i128, i128, bool),
        ClubError,
    >)
        requires
            self.wf(),
        ensures
            result == self@.get_redemption_info(now, club_id, user@),
    {
        match find_club(&self.clubs, club_id) {
            None => {
                proof {
                    lemma_no_entry(self.clubs@, club_id);
                }
                Err(ClubError::NotFound)
            },
            Some(k) => {
                proof {
                    lemma_slot(self.clubs@, k as int);
                }
                let user_km = balance_of(&self.km_tokens, user, club_id);
                if now < self.clubs[k].month_end_timestamp {
                    return Ok((user_km, 0, false));
                }
                match self.calculate_usdc_reward(now, club_id, user) {
                    Err(error) => Err(error),
                    Ok(reward) => Ok((user_km, reward, true)),
                }
            },
        }
    }

    /// The ids of the active clubs, in increasing order.
    pub fn get_active_clubs(&self) -> (ids: Vec<u64>)
        requires
            self.wf(),
        ensures
            self@.is_active_club_list(ids@),
    {
        let mut ids: Vec<u64> = Vec::new();
        let mut i: usize = 0;
        while i < self.clubs.len()
            invariant
                i <= self.clubs.len(),
                ids_ascending(self.clubs@),
                forall|a: int, b: int| 0 <= a < b < ids.len() ==> ids@[a] < ids@[b],
                forall|a: int| 0 <= a < ids.len() ==> active_before(self.clubs@, i as int, #[trigger] ids@[a]),
                forall|j: int|
                    0 <= j < i && self.clubs@[j].is_active ==> ids@.contains(#[trigger] self.clubs@[j].id),
            decreases self.clubs.len() - i,
        {
            let ghost before = ids@;
            if self.clubs[i].is_active {
                let id = self.clubs[i].id;
                assert forall|a: int| 0 <= a < before.len() implies before[a] < id by {
                    assert(active_before(self.clubs@, i as int, before[a]));
                    let j = choose|j: int|
                        0 <= j < i && self.clubs@[j].id == before[a] && self.clubs@[j].is_active;
                    assert(self.clubs@[j].id < self.clubs@[i as int].id);
                }
                ids.push(id);
                assert(ids@[before.len() as int] == id);
            }
            assert forall|j: int| 0 <= j < i + 1 && self.clubs@[j].is_active implies ids@.contains(
                #[trigger] self.clubs@[j].id,
            ) by {
                if j < i {
                    assert(before.contains(self.clubs@[j].id));
                    let a = choose|a: int| 0 <= a < before.len() && before[a] == self.clubs@[j].id;
                    assert(ids@[a] == self.clubs@[j].id);
                }
            }
            assert forall|a: int| 0 <= a < ids.len() implies active_before(
                self.clubs@,
                i + 1,
                #[trigger] ids@[a],
            ) by {
                if a < before.len() {
                    assert(active_before(self.clubs@, i as int, before[a]));
                    let j = choose|j: int|
                        0 <= j < i && self.clubs@[j].id == before[a] && self.clubs@[j].is_active;
                    assert(0 <= j < i + 1 && self.clubs@[j].id == ids@[a] && self.clubs@[j].is_active);
                } else {
                    assert(self.clubs@[i as int].id == ids@[a] && self.clubs@[i as int].is_active);
                }
            }
            i += 1;
        }
        proof {
            assert forall|id: u64|
                ids@.contains(id) <==> self@.clubs.contains_key(id) && self@.clubs[id].is_active by {
                if ids@.contains(id) {
                    let a = choose|a: int| 0 <= a < ids.len() && ids@[a] == id;
                    assert(active_before(self.clubs@, self.clubs.len() as int, ids@[a]));
                    let j = choose|j: int|
                        0 <= j < self.clubs.len() && self.clubs@[j].id == id && self.clubs@[j].is_active;
                    lemma_slot(self.clubs@, j);
                }
                if self@.clubs.contains_key(id) && self@.clubs[id].is_active {
                    let k = entry_of(self.clubs@, id);
                    assert(0 <= k < self.clubs@.len() && self.clubs@[k].id == id);
                }
            }
        }
        ids
    }

    /// The ids of the clubs that `user` is a member of, in increasing
    /// order.
    pub fn get_user_clubs(&self, user: &Address) -> (ids: Vec<u64>)
        requires
            self.wf(),
        ensures
            self@.is_user_club_list(user@, ids@),
    {
        let mut ids: Vec<u64> = Vec::new();
        let mut i: usize = 0;
        while i < self.clubs.len()
            invariant
                i <= self.clubs.len(),
                ids_ascending(self.clubs@),
                forall|a: int, b: int| 0 <= a < b < ids.len() ==> ids@[a] < ids@[b],
                forall|a: int|
                    0 <= a < ids.len() ==> member_before(self.clubs@, i as int, user@, #[trigger] ids@[a]),
                forall|j: int|
                    0 <= j < i && self.clubs@[j]@.members.contains(user@) ==> ids@.contains(
                        #[trigger] self.clubs@[j].id,
                    ),
            decreases self.clubs.len() - i,
        {
            let ghost before = ids@;
            if is_member(&self.clubs[i].members, user) {
                let id = self.clubs[i].id;
                assert forall|a: int| 0 <= a < before.len() implies before[a] < id by {
                    assert(member_before(self.clubs@, i as int, user@, before[a]));
                    let j = choose|j: int|
                        0 <= j < i && self.clubs@[j].id == before[a] && self.clubs@[j]@.members.contains(user@);
                    assert(self.clubs@[j].id < self.clubs@[i as int].id);
                }
                ids.push(id);
                assert(ids@[before.len() as int] == id);
            }
            assert forall|j: int| 0 <= j < i + 1 && self.clubs@[j]@.members.contains(user@) implies ids@.contains(
                #[trigger] self.clubs@[j].id,
            ) by {
                if j < i {
                    assert(before.contains(self.clubs@[j].id));
                    let a = choose|a: int| 0 <= a < before.len() && before[a] == self.clubs@[j].id;
                    assert(ids@[a] == self.clubs@[j].id);
                }
            }
            assert forall|a: int| 0 <= a < ids.len() implies member_before(
                self.clubs@,
                i + 1,
                user@,
                #[trigger] ids@[a],
            ) by {
                if a < before.len() {
                    assert(member_before(self.clubs@, i as int, user@, before[a]));
                    let j = choose|j: int|
                        0 <= j < i && self.clubs@[j].id == before[a] && self.clubs@[j]@.members.contains(user@);
                    assert(0 <= j < i + 1 && self.clubs@[j].id == ids@[a] && self.clubs@[j]@.members.contains(user@));
                } else {
                    assert(self.clubs@[i as int].id == ids@[a] && self.clubs@[i as int]@.members.contains(user@));
                }
            }
            i += 1;
        }
        proof {
            assert forall|id: u64|
                ids@.contains(id) <==> self@.clubs.contains_key(id) && self@.clubs[id].members.contains(user@) by {
                if ids@.contains(id) {
                    let a = choose|a: int| 0 <= a < ids.len() && ids@[a] == id;
                    assert(member_before(self.clubs@, self.clubs.len() as int, user@, ids@[a]));
                    let j = choose|j: int|
                        0 <= j < self.clubs.len() && self.clubs@[j].id == id && self.clubs@[j]@.members.contains(user@);
                    lemma_slot(self.clubs@, j);
                }
                if self@.clubs.contains_key(id) && self@.clubs[id].members.contains(user@) {
                    let k = entry_of(self.clubs@, id);
                    assert(0 <= k < self.clubs@.len() && self.clubs@[k].id == id);
                }
            }
        }
        ids
    }
}

} // verus!
