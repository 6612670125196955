//! The member list of a club: a sequence of addresses without repetition.

use crate::types::{keys_of, Address};
use vstd::prelude::*;

verus! {

/// `members` with every occurrence of `member` taken out; the others keep
/// their order.
pub open spec fn without(members: Seq<Seq<char>>, member: Seq<char>) -> Seq<Seq<char>>
    decreases members.len(),
{
    if members.len() == 0 {
        members
    } else if members.last() == member {
        without(members.drop_last(), member)
    } else {
        without(members.drop_last(), member).push(members.last())
    }
}

/// What is left after taking `member` out is what was there before, but
/// for `member`; and a list without repetition stays without repetition.
pub proof fn lemma_without(members: Seq<Seq<char>>, member: Seq<char>)
    ensures
        forall|x: Seq<char>| without(members, member).contains(x) <==> members.contains(x) && x != member,
        members.no_duplicates() ==> without(members, member).no_duplicates(),
    decreases members.len(),
{
    if members.len() == 0 {
    } else {
        let front = members.drop_last();
        let last = members.last();
        lemma_without(front, member);
        let rest = without(front, member);
        assert(members =~= front.push(last));
        assert forall|x: Seq<char>| members.contains(x) <==> front.contains(x) || x == last by {
            if members.contains(x) {
                let i = choose|i: int| 0 <= i < members.len() && members[i] == x;
                if i < front.len() {
                    assert(front[i] == x);
                }
            }
            if front.contains(x) {
                let i = choose|i: int| 0 <= i < front.len() && front[i] == x;
                assert(members[i] == x);
            }
            if x == last {
                assert(members[members.len() - 1] == x);
            }
        }
        if last != member {
            let out = rest.push(last);
            assert forall|x: Seq<char>| out.contains(x) <==> rest.contains(x) || x == last by {
                if out.contains(x) {
                    let i = choose|i: int| 0 <= i < out.len() && out[i] == x;
                    if i < rest.len() {
                        assert(rest[i] == x);
                    }
                }
                if rest.contains(x) {
                    let i = choose|i: int| 0 <= i < rest.len() && rest[i] == x;
                    assert(out[i] == x);
                }
                if x == last {
                    assert(out[out.len() - 1] == x);
                }
            }
            if members.no_duplicates() {
                assert(front.no_duplicates()) by {
                    assert forall|i: int, j: int|
                        0 <= i < front.len() && 0 <= j < front.len() && i != j implies front[i] != front[j] by {
                        assert(members[i] != members[j]);
                    }
                }
                assert(!front.contains(last)) by {
                    if front.contains(last) {
                        let i = choose|i: int| 0 <= i < front.len() && front[i] == last;
                        assert(members[i] == members[members.len() - 1]);
                    }
                }
                assert(out.no_duplicates()) by {
                    assert forall|i: int, j: int| 0 <= i < out.len() && 0 <= j < out.len() && i != j implies out[i]
                        != out[j] by {
                        if i < rest.len() && j < rest.len() {
                            assert(rest[i] != rest[j]);
                        } else if i < rest.len() {
                            assert(rest.contains(rest[i]));
                        } else {
                            assert(rest.contains(rest[j]));
                        }
                    }
                }
            }
        }
        assert forall|x: Seq<char>| without(members, member).contains(x) <==> members.contains(x) && x
            != member by {
            assert(rest.contains(x) <==> front.contains(x) && x != member);
            assert(members.contains(x) <==> front.contains(x) || x == last);
        }
    }
}

/// Appending an address that is not in the list keeps the list without
/// repetition.
pub proof fn lemma_push_fresh(members: Seq<Seq<char>>, member: Seq<char>)
    requires
        members.no_duplicates(),
        !members.contains(member),
    ensures
        members.push(member).no_duplicates(),
{
    let out = members.push(member);
    assert forall|i: int, j: int| 0 <= i < out.len() && 0 <= j < out.len() && i != j implies out[i] != out[j] by {
        if i < members.len() && j < members.len() {
            assert(members[i] != members[j]);
        } else if i < members.len() {
            assert(members.contains(members[i]));
        } else {
            assert(members.contains(members[j]));
        }
    }
}

/// Whether `member` is among `members`.
pub fn is_member(members: &Vec<Address>, member: &Address) -> (found: bool)
    ensures
        found == keys_of(members@).contains(member@),
{
    let mut i: usize = 0;
    while i < members.len()
        invariant
            i <= members.len(),
            forall|j: int| 0 <= j < i ==> members@[j]@ != member@,
        decreases members.len() - i,
    {
        if members[i].same(member) {
            assert(keys_of(members@)[i as int] == member@);
            return true;
        }
        i += 1;
    }
    assert(forall|j: int| 0 <= j < keys_of(members@).len() ==> keys_of(members@)[j] == members@[j]@);
    false
}

/// The list without `member`, and whether `member` was in it.
pub fn exclude(members: &Vec<Address>, member: &Address) -> (out: (Vec<Address>, bool))
    ensures
        keys_of(out.0@) == without(keys_of(members@), member@),
        out.1 == keys_of(members@).contains(member@),
{
    let mut kept: Vec<Address> = Vec::new();
    let mut found = false;
    let mut i: usize = 0;
    let ghost keys = keys_of(members@);
    assert(keys.take(0) =~= Seq::empty());
    assert(keys_of(kept@) =~= Seq::empty());
    while i < members.len()
        invariant
            i <= members.len(),
            keys == keys_of(members@),
            keys_of(kept@) == without(keys.take(i as int), member@),
            found == keys.take(i as int).contains(member@),
        decreases members.len() - i,
    {
        proof {
            let next = keys.take(i as int + 1);
            assert(next.drop_last() =~= keys.take(i as int));
            assert(next.last() == members@[i as int]@);
            if keys.take(i as int).contains(member@) {
                let j = choose|j: int| 0 <= j < keys.take(i as int).len() && keys.take(i as int)[j] == member@;
                assert(next[j] == member@);
            }
            if next.contains(member@) && next.last() != member@ {
                let j = choose|j: int| 0 <= j < next.len() && next[j] == member@;
                assert(keys.take(i as int)[j] == member@);
            }
            if next.last() == member@ {
                assert(next[next.len() - 1] == member@);
            }
        }
        if members[i].same(member) {
            found = true;
        } else {
            let ghost before = keys_of(kept@);
            kept.push(members[i].clone());
            assert(keys_of(kept@) =~= before.push(members@[i as int]@));
        }
        i += 1;
    }
    assert(keys.take(members.len() as int) =~= keys);
    (kept, found)
}

/// Whether no address occurs twice in the list.
pub fn all_distinct(members: &Vec<Address>) -> (ok: bool)
    ensures
        ok == keys_of(members@).no_duplicates(),
{
    let ghost keys = keys_of(members@);
    let mut i: usize = 0;
    while i < members.len()
        invariant
            i <= members.len(),
            keys == keys_of(members@),
            forall|a: int, b: int| 0 <= a < b < i ==> keys[a] != keys[b],
        decreases members.len() - i,
    {
        let mut j: usize = 0;
        while j < i
            invariant
                j <= i,
                i < members.len(),
                keys == keys_of(members@),
                forall|a: int| 0 <= a < j ==> keys[a] != keys[i as int],
            decreases i - j,
        {
            if members[j].same(&members[i]) {
                assert(keys[j as int] == keys[i as int]);
                return false;
            }
            j += 1;
        }
        i += 1;
    }
    true
}

} // verus!
