//! How the ledger is held in memory: the clubs in a vector that is sorted
//! by id, the distance credit in a vector with one entry per user and
//! club. This file relates both vectors to the maps they stand for.

use crate::arith::narrow;
use crate::keyed::{
    keys_distinct, lemma_entry, lemma_entry_changed, lemma_entry_pushed, lemma_entry_removed, map_of, Keyed,
};
use crate::model::{balance_in, count_eligible, sum_km};
use crate::types::{keys_of, Address, Club, ClubView, KmBalance};
use vstd::prelude::*;

verus! {

impl Keyed for Club {
    type Key = u64;

    type Value = ClubView;

    open spec fn key(&self) -> u64 {
        self.id
    }

    open spec fn value(&self) -> ClubView {
        self@
    }
}

impl Keyed for KmBalance {
    type Key = (Seq<char>, u64);

    type Value = i128;

    open spec fn key(&self) -> (Seq<char>, u64) {
        (self.user@, self.club_id)
    }

    open spec fn value(&self) -> i128 {
        self.amount
    }
}

/// The clubs are sorted by id, and no id occurs twice.
pub open spec fn ids_ascending(clubs: Seq<Club>) -> bool {
    forall|i: int, j: int| 0 <= i < j < clubs.len() ==> clubs[i].id < clubs[j].id
}

/// The map from id to club that a sorted list of clubs stands for.
pub open spec fn clubs_view(clubs: Seq<Club>) -> Map<u64, ClubView> {
    map_of(clubs)
}

/// The map from user and club to credit that a list of entries stands for.
pub open spec fn km_view(km_tokens: Seq<KmBalance>) -> Map<(Seq<char>, u64), i128> {
    map_of(km_tokens)
}

/// In a sorted list no id occurs twice.
pub proof fn lemma_ascending_is_distinct(clubs: Seq<Club>)
    requires
        ids_ascending(clubs),
    ensures
        keys_distinct(clubs),
{
    assert forall|i: int, j: int| 0 <= i < j < clubs.len() implies clubs[i].key() != clubs[j].key() by {
        assert(clubs[i].id < clubs[j].id);
    }
}

/// In a sorted list the club at position `k` is the one found under its id.
pub proof fn lemma_slot(clubs: Seq<Club>, k: int)
    requires
        ids_ascending(clubs),
        0 <= k < clubs.len(),
    ensures
        clubs_view(clubs).contains_key(clubs[k].id),
        clubs_view(clubs)[clubs[k].id] == clubs[k]@,
{
    lemma_ascending_is_distinct(clubs);
    lemma_entry(clubs, k);
}

/// Changing the club at position `k`, but not its id, stores the new
/// club under that id and leaves the rest of the map alone.
pub proof fn lemma_club_changed(before: Seq<Club>, after: Seq<Club>, k: int)
    requires
        ids_ascending(before),
        0 <= k < before.len(),
        after.len() == before.len(),
        forall|j: int| 0 <= j < before.len() && j != k ==> after[j] == before[j],
        after[k].id == before[k].id,
    ensures
        ids_ascending(after),
        clubs_view(after) == clubs_view(before).insert(before[k].id, after[k]@),
{
    assert forall|j: int| 0 <= j < before.len() implies after[j].id == before[j].id by {}
    assert forall|i: int, j: int| 0 <= i < j < after.len() implies after[i].id < after[j].id by {
        assert(before[i].id < before[j].id);
    }
    lemma_ascending_is_distinct(before);
    lemma_entry_changed(before, after, k);
}

/// Appending a club whose id is above all others stores it under its id.
pub proof fn lemma_club_pushed(before: Seq<Club>, club: Club)
    requires
        ids_ascending(before),
        forall|i: int| 0 <= i < before.len() ==> before[i].id < club.id,
    ensures
        ids_ascending(before.push(club)),
        clubs_view(before.push(club)) == clubs_view(before).insert(club.id, club@),
{
    lemma_ascending_is_distinct(before);
    lemma_entry_pushed(before, club);
}

/// Taking the club at position `k` out of the list takes its id out of
/// the map.
pub proof fn lemma_club_removed(before: Seq<Club>, k: int)
    requires
        ids_ascending(before),
        0 <= k < before.len(),
    ensures
        ids_ascending(before.remove(k)),
        clubs_view(before.remove(k)) == clubs_view(before).remove(before[k].id),
{
    let after = before.remove(k);
    assert forall|i: int, j: int| 0 <= i < j < after.len() implies after[i].id < after[j].id by {
        let bi = if i < k { i } else { i + 1 };
        let bj = if j < k { j } else { j + 1 };
        assert(before[bi].id < before[bj].id);
    }
    lemma_ascending_is_distinct(before);
    lemma_entry_removed(before, k);
}

/// The position of the club with the given id.
pub fn find_club(clubs: &Vec<Club>, id: u64) -> (found: Option<usize>)
    ensures
        match found {
            Some(k) => k < clubs.len() && clubs@[k as int].id == id,
            None => forall|i: int| 0 <= i < clubs.len() ==> clubs@[i].id != id,
        },
{
    let mut i: usize = 0;
    while i < clubs.len()
        invariant
            i <= clubs.len(),
            forall|j: int| 0 <= j < i ==> clubs@[j].id != id,
        decreases clubs.len() - i,
    {
        if clubs[i].id == id {
            return Some(i);
        }
        i += 1;
    }
    None
}

/// The position of the entry of `user` in `club_id`.
pub fn find_entry(km_tokens: &Vec<KmBalance>, user: &Address, club_id: u64) -> (found: Option<usize>)
    ensures
        match found {
            Some(k) => k < km_tokens.len() && km_tokens@[k as int].key() == (user@, club_id),
            None => forall|i: int| 0 <= i < km_tokens.len() ==> km_tokens@[i].key() != (user@, club_id),
        },
{
    let mut i: usize = 0;
    while i < km_tokens.len()
        invariant
            i <= km_tokens.len(),
            forall|j: int| 0 <= j < i ==> km_tokens@[j].key() != (user@, club_id),
        decreases km_tokens.len() - i,
    {
        if km_tokens[i].club_id == club_id && km_tokens[i].user.same(user) {
            return Some(i);
        }
        i += 1;
    }
    None
}

/// The credit of `user` in `club_id`; zero where the list has no entry.
pub fn balance_of(km_tokens: &Vec<KmBalance>, user: &Address, club_id: u64) -> (amount: i128)
    requires
        keys_distinct(km_tokens@),
    ensures
        amount == balance_in(km_view(km_tokens@), user@, club_id),
{
    match find_entry(km_tokens, user, club_id) {
        Some(k) => {
            proof {
                lemma_entry(km_tokens@, k as int);
            }
            km_tokens[k].amount
        },
        None => 0,
    }
}

/// The sum of the credit of `members` in `club_id`, or `None` where the
/// sum does not fit 128 bits. Sums on the way may leave that range: they
/// are carried in a second word.
pub fn total_of(km_tokens: &Vec<KmBalance>, members: &Vec<Address>, club_id: u64) -> (total: Option<i128>)
    requires
        keys_distinct(km_tokens@),
    ensures
        total == narrow(sum_km(km_view(km_tokens@), keys_of(members@), club_id)),
{
    let mut carries: i128 = 0;
    let mut low: i128 = 0;
    let mut i: usize = 0;
    let ghost keys = keys_of(members@);
    let ghost credit = km_view(km_tokens@);
    assert(keys.take(0) =~= Seq::empty());
    while i < members.len()
        invariant
            i <= members.len(),
            keys_distinct(km_tokens@),
            keys == keys_of(members@),
            credit == km_view(km_tokens@),
            -(i as int) <= carries <= i as int,
            carries * 0x1_0000_0000_0000_0000_0000_0000_0000_0000int + low == sum_km(
                credit,
                keys.take(i as int),
                club_id,
            ),
        decreases members.len() - i,
    {
        let amount = balance_of(km_tokens, &members[i], club_id);
        proof {
            let next = keys.take(i as int + 1);
            assert(next.drop_last() =~= keys.take(i as int));
            assert(next.last() == members@[i as int]@);
        }
        if amount >= 0 && low > i128::MAX - amount {
            low = (low + i128::MIN) + (amount + i128::MIN);
            carries = carries + 1;
        } else if amount < 0 && low < i128::MIN - amount {
            low = (low - i128::MIN) + (amount - i128::MIN);
            carries = carries - 1;
        } else {
            low = low + amount;
        }
        i += 1;
    }
    assert(keys.take(members.len() as int) =~= keys);
    if carries == 0 {
        Some(low)
    } else {
        None
    }
}

/// How many of `members` hold positive credit in `club_id`.
pub fn eligible_of(km_tokens: &Vec<KmBalance>, members: &Vec<Address>, club_id: u64) -> (count: usize)
    requires
        keys_distinct(km_tokens@),
    ensures
        count == count_eligible(km_view(km_tokens@), keys_of(members@), club_id),
{
    let mut count: usize = 0;
    let mut i: usize = 0;
    let ghost keys = keys_of(members@);
    let ghost credit = km_view(km_tokens@);
    assert(keys.take(0) =~= Seq::empty());
    while i < members.len()
        invariant
            i <= members.len(),
            keys_distinct(km_tokens@),
            keys == keys_of(members@),
            credit == km_view(km_tokens@),
            count <= i,
            count == count_eligible(credit, keys.take(i as int), club_id),
        decreases members.len() - i,
    {
        let amount = balance_of(km_tokens, &members[i], club_id);
        proof {
            let next = keys.take(i as int + 1);
            assert(next.drop_last() =~= keys.take(i as int));
            assert(next.last() == members@[i as int]@);
        }
        if amount > 0 {
            count = count + 1;
        }
        i += 1;
    }
    assert(keys.take(members.len() as int) =~= keys);
    count
}

/// Whether no user has two entries for one club.
pub fn entries_distinct(km_tokens: &Vec<KmBalance>) -> (ok: bool)
    ensures
        ok == keys_distinct(km_tokens@),
{
    let mut i: usize = 0;
    while i < km_tokens.len()
        invariant
            i <= km_tokens.len(),
            forall|a: int, b: int| 0 <= a < b < i ==> km_tokens@[a].key() != km_tokens@[b].key(),
        decreases km_tokens.len() - i,
    {
        let mut j: usize = 0;
        while j < i
            invariant
                j <= i,
                i < km_tokens.len(),
                forall|a: int| 0 <= a < j ==> km_tokens@[a].key() != km_tokens@[i as int].key(),
            decreases i - j,
        {
            if km_tokens[j].club_id == km_tokens[i].club_id && km_tokens[j].user.same(&km_tokens[i].user) {
                assert(km_tokens@[j as int].key() == km_tokens@[i as int].key());
                return false;
            }
            j += 1;
        }
        i += 1;
    }
    true
}

} // verus!
